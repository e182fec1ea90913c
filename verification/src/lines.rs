//! The mathematical line model of a character sequence: lines are
//! separated by line feed characters; a line owns the line feed that
//! ends it, and the text always has one more line than it has line
//! feeds.

use vstd::prelude::*;

verus! {

/// The number of line feeds in a character sequence.
pub open spec fn count_nl(s: Seq<char>) -> int
    decreases s.len(),
{
    if s.len() == 0 {
        0
    } else {
        (if s[0] == '\n' {
            1int
        } else {
            0int
        }) + count_nl(s.drop_first())
    }
}

/// The number of lines: one more than the number of line feeds.
pub open spec fn line_count(s: Seq<char>) -> int {
    count_nl(s) + 1
}

/// The index of the first line feed at or after `from`, or the length
/// when there is none.
pub open spec fn first_nl_at(s: Seq<char>, from: int) -> int
    decreases s.len() - from,
    when 0 <= from <= s.len()
{
    if from >= s.len() {
        s.len() as int
    } else if s[from] == '\n' {
        from
    } else {
        first_nl_at(s, from + 1)
    }
}

/// The character index where line `l` starts: zero for the first line,
/// one past the previous line's line feed after that, and the length
/// once the lines run out.
pub open spec fn line_start(s: Seq<char>, l: int) -> int
    decreases l,
{
    if l <= 0 {
        0
    } else {
        let p = line_start(s, l - 1);
        if 0 <= p <= s.len() && first_nl_at(s, p) < s.len() {
            first_nl_at(s, p) + 1
        } else {
            s.len() as int
        }
    }
}

/// The character index just past the body of line `l`: the position of
/// its line feed, or the length for the last line.
pub open spec fn line_end(s: Seq<char>, l: int) -> int {
    if 0 <= l < count_nl(s) {
        line_start(s, l + 1) - 1
    } else {
        s.len() as int
    }
}

/// The body of line `l`: its characters without the closing line feed.
pub open spec fn line_body(s: Seq<char>, l: int) -> Seq<char> {
    s.subrange(line_start(s, l), line_end(s, l))
}

/// Counting line feeds one character further adds one exactly on a
/// line feed.
pub proof fn lemma_count_nl_step(s: Seq<char>, i: int)
    requires
        0 <= i < s.len(),
    ensures
        count_nl(s.take(i + 1)) == count_nl(s.take(i)) + (if s[i] == '\n' {
            1int
        } else {
            0int
        }),
    decreases i,
{
    if i == 0 {
        assert(s.take(1).drop_first() =~= Seq::<char>::empty());
        assert(s.take(1)[0] == s[0]);
        assert(s.take(0) =~= Seq::<char>::empty());
    } else {
        assert(s.take(i + 1).drop_first() =~= s.drop_first().take(i));
        assert(s.take(i).drop_first() =~= s.drop_first().take(i - 1));
        lemma_count_nl_step(s.drop_first(), i - 1);
        assert(s.drop_first()[i - 1] == s[i]);
    }
}

/// Counting line feeds never decreases along a prefix.
pub proof fn lemma_count_nl_monotone(s: Seq<char>, i: int, j: int)
    requires
        0 <= i <= j <= s.len(),
    ensures
        count_nl(s.take(i)) <= count_nl(s.take(j)),
    decreases j - i,
{
    if i < j {
        lemma_count_nl_step(s, j - 1);
        lemma_count_nl_monotone(s, i, j - 1);
    }
}

/// The count over the whole text is the count over its full prefix.
pub proof fn lemma_count_nl_take_all(s: Seq<char>)
    ensures
        count_nl(s.take(s.len() as int)) == count_nl(s),
{
    assert(s.take(s.len() as int) =~= s);
}

/// Between `from` and the first line feed at or after it there is no
/// line feed, and the endpoint is a line feed or the end of the text.
pub proof fn lemma_first_nl_props(s: Seq<char>, from: int)
    requires
        0 <= from <= s.len(),
    ensures
        from <= first_nl_at(s, from) <= s.len(),
        first_nl_at(s, from) < s.len() ==> s[first_nl_at(s, from)] == '\n',
        forall|k: int| from <= k < first_nl_at(s, from) ==> s[k] != '\n',
    decreases s.len() - from,
{
    if from < s.len() && s[from] != '\n' {
        lemma_first_nl_props(s, from + 1);
    }
}

/// The count of line feeds strictly before the first one at or after
/// `from` equals the count before `from`.
pub proof fn lemma_count_nl_flat(s: Seq<char>, from: int, upto: int)
    requires
        0 <= from <= upto <= s.len(),
        forall|k: int| from <= k < upto ==> s[k] != '\n',
    ensures
        count_nl(s.take(upto)) == count_nl(s.take(from)),
    decreases upto - from,
{
    if from < upto {
        lemma_count_nl_step(s, upto - 1);
        lemma_count_nl_flat(s, from, upto - 1);
    }
}

/// Where line `l` starts: the prefix before it holds exactly `l` line
/// feeds, the start never passes the end of the text, and consecutive
/// starts are ordered.
pub proof fn lemma_line_start_props(s: Seq<char>, l: int)
    requires
        0 <= l <= count_nl(s),
    ensures
        0 <= line_start(s, l) <= s.len(),
        count_nl(s.take(line_start(s, l))) == l,
        l > 0 ==> line_start(s, l) > 0 && s[line_start(s, l) - 1] == '\n',
    decreases l,
{
    lemma_count_nl_take_all(s);
    if l == 0 {
        assert(s.take(0) =~= Seq::<char>::empty());
    } else {
        lemma_line_start_props(s, l - 1);
        let p = line_start(s, l - 1);
        lemma_first_nl_props(s, p);
        let q = first_nl_at(s, p);
        lemma_count_nl_flat(s, p, q);
        if q >= s.len() {
            // No further line feed: the count over the whole text would
            // be l - 1, contradicting l <= count_nl(s).
            assert(count_nl(s.take(s.len() as int)) == l - 1);
            assert(false);
        } else {
            lemma_count_nl_step(s, q);
            assert(line_start(s, l) == q + 1);
            assert(count_nl(s.take(q + 1)) == l);
        }
    }
}

/// Every position within the text sits on the line that counts its
/// preceding line feeds: the line's start is at or before it and its
/// end at or after it.
pub proof fn lemma_position_on_line(s: Seq<char>, p: int)
    requires
        0 <= p <= s.len(),
    ensures
        0 <= count_nl(s.take(p)) <= count_nl(s),
        line_start(s, count_nl(s.take(p))) <= p,
        p <= line_end(s, count_nl(s.take(p))),
    decreases p,
{
    let l = count_nl(s.take(p));
    lemma_count_nl_monotone(s, p, s.len() as int);
    lemma_count_nl_take_all(s);
    assert(count_nl(s.take(0)) == 0) by {
        assert(s.take(0) =~= Seq::<char>::empty());
    }
    lemma_count_nl_monotone(s, 0, p);
    lemma_line_start_props(s, l);
    let st = line_start(s, l);
    // start <= p: otherwise the prefix before the start, which holds l
    // line feeds, would be longer than the prefix before p.
    if st > p {
        lemma_count_nl_monotone(s, p, st - 1);
        lemma_count_nl_step(s, st - 1);
        if l > 0 && s[st - 1] == '\n' {
            assert(count_nl(s.take(st)) == count_nl(s.take(st - 1)) + 1);
            assert(count_nl(s.take(st - 1)) >= l);
            assert(false);
        } else {
            assert(false);
        }
    }
    // p <= end: between the start and the line's own line feed there is
    // no line feed, so a position past the end would count more.
    if l < count_nl(s) {
        lemma_line_start_props(s, l + 1);
        let nxt = line_start(s, l + 1);
        if p > nxt - 1 {
            lemma_count_nl_monotone(s, nxt, p);
            assert(count_nl(s.take(p)) >= l + 1);
            assert(false);
        }
    }
}

/// Line starts never decrease, and the next line starts past this
/// line's end.
pub proof fn lemma_line_order(s: Seq<char>, l: int)
    requires
        0 <= l < count_nl(s),
    ensures
        line_start(s, l) <= line_end(s, l) < line_start(s, l + 1),
        line_start(s, l + 1) <= s.len(),
        s[line_end(s, l)] == '\n',
    decreases l,
{
    lemma_line_start_props(s, l);
    lemma_line_start_props(s, l + 1);
    let p = line_start(s, l);
    lemma_first_nl_props(s, p);
    let q = first_nl_at(s, p);
    lemma_count_nl_flat(s, p, q);
    if q >= s.len() {
        lemma_count_nl_take_all(s);
        assert(false);
    }
    assert(line_start(s, l + 1) == q + 1);
}

/// The last line ends at the end of the text and starts at or before
/// it.
pub proof fn lemma_last_line(s: Seq<char>)
    ensures
        line_start(s, count_nl(s)) <= s.len(),
        line_end(s, count_nl(s)) == s.len(),
{
    lemma_count_nl_nonneg(s);
    lemma_line_start_props(s, count_nl(s));
}

/// The last line holds no line feed.
pub proof fn lemma_last_line_no_nl(s: Seq<char>)
    ensures
        forall|k: int| line_start(s, count_nl(s)) <= k < s.len() ==> s[k] != '\n',
{
    lemma_count_nl_nonneg(s);
    lemma_line_start_props(s, count_nl(s));
    let st = line_start(s, count_nl(s));
    lemma_first_nl_props(s, st);
    let q = first_nl_at(s, st);
    if q < s.len() {
        lemma_count_nl_flat(s, st, q);
        lemma_count_nl_step(s, q);
        lemma_count_nl_monotone(s, q + 1, s.len() as int);
        lemma_count_nl_take_all(s);
        assert(false);
    }
}

/// One past the last line starts at the end of the text.
pub proof fn lemma_one_past_last_line(s: Seq<char>)
    ensures
        line_start(s, count_nl(s) + 1) == s.len(),
{
    lemma_count_nl_nonneg(s);
    lemma_line_start_props(s, count_nl(s));
    let st = line_start(s, count_nl(s));
    lemma_first_nl_props(s, st);
    lemma_last_line_no_nl(s);
    let q = first_nl_at(s, st);
    if q < s.len() {
        assert(s[q] == '\n');
        assert(false);
    }
}

/// The character index of a (line, column) coordinate: the column is
/// clamped to the line's body, lines past the end give the length.
pub open spec fn spec_line_col_to_char(s: Seq<char>, l: int, col: int) -> int {
    if l < line_count(s) {
        let max_col = line_end(s, l) - line_start(s, l);
        line_start(s, l) + (if col <= max_col {
            col
        } else {
            max_col
        })
    } else {
        s.len() as int
    }
}

/// A count of line feeds is never negative.
pub proof fn lemma_count_nl_nonneg(s: Seq<char>)
    ensures
        count_nl(s) >= 0,
    decreases s.len(),
{
    if s.len() > 0 {
        lemma_count_nl_nonneg(s.drop_first());
    }
}

/// The start of a line is at or before its end.
pub proof fn lemma_line_bounds(s: Seq<char>, l: int)
    requires
        0 <= l <= count_nl(s),
    ensures
        0 <= line_start(s, l) <= line_end(s, l) <= s.len(),
{
    lemma_line_start_props(s, l);
    if l < count_nl(s) {
        lemma_line_order(s, l);
    }
}

/// Converting a position to (line, column) and back restores it: for
/// any valid position `p`, the line is the count of line feeds before
/// it, the column is the offset from that line's start, the column
/// never exceeds the line's length, and start plus column is `p`
/// again.
pub proof fn lemma_line_col_roundtrip(s: Seq<char>, p: int)
    requires
        0 <= p <= s.len(),
    ensures
        ({
            let l = count_nl(s.take(p));
            let col = p - line_start(s, l);
            &&& 0 <= l <= count_nl(s)
            &&& 0 <= col <= line_end(s, l) - line_start(s, l)
            &&& line_start(s, l) + col == p
        }),
{
    lemma_position_on_line(s, p);
}

/// Inserting text at a position and deleting the same span restores
/// the original sequence, content and length alike.
pub proof fn lemma_insert_delete_roundtrip(s: Seq<char>, p: int, t: Seq<char>)
    requires
        0 <= p <= s.len(),
    ensures
        ({
            let inserted = s.take(p) + t + s.skip(p);
            let restored = inserted.take(p) + inserted.skip(p + t.len());
            &&& inserted.len() == s.len() + t.len()
            &&& restored == s
            &&& restored.len() == s.len()
        }),
{
    let inserted = s.take(p) + t + s.skip(p);
    let restored = inserted.take(p) + inserted.skip(p + t.len());
    assert(restored =~= s);
}

} // verus!
