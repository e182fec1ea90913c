//! The weighted split layout engine: a tree of splits and panes is
//! turned into concrete rectangles for the leaves, deterministically and
//! without side effects.
//!
//! Along the split axis each child gets a provisional share proportional
//! to its weight, clamped to its bounds; overflow is absorbed from the
//! largest children down to their minimums, and slack is handed out one
//! cell at a time cycling over the children in order, skipping any
//! already at its maximum.

use vstd::prelude::*;
use crate::render::PaneKind;

pub use crate::geom::Rect;

verus! {

/// Direction of a split in the layout.
#[derive(Debug, Clone, Copy, PartialEq, Eq, Structural)]
pub enum SplitDir {
    /// Split horizontally (left-to-right)
    Horizontal,
    /// Split vertically (top-to-bottom)
    Vertical,
}

/// Size configuration for a child in a split layout.  A weight of zero
/// means "fixed": meant to be pinned by equal bounds — though in the
/// proportional split it still counts as weight one, so without bounds
/// it receives a weight-one share.
#[derive(Debug, Clone, Copy)]
pub struct Size {
    /// Relative weight for proportional sizing (0 = fixed size)
    pub weight: u16,
    /// Minimum size in cells along the split axis
    pub min_cells: Option<u16>,
    /// Maximum size in cells along the split axis
    pub max_cells: Option<u16>,
}

impl Size {
    /// When both bounds are present the minimum must not exceed the
    /// maximum.
    pub open spec fn wf(self) -> bool {
        match (self.min_cells, self.max_cells) {
            (Some(lo), Some(hi)) => lo <= hi,
            _ => true,
        }
    }

    /// The lower bound, zero when absent.
    pub open spec fn spec_min(self) -> int {
        match self.min_cells {
            Some(m) => m as int,
            None => 0,
        }
    }

    /// The upper bound, unbounded (the largest cell count) when absent.
    pub open spec fn spec_max(self) -> int {
        match self.max_cells {
            Some(m) => m as int,
            None => u32::MAX as int,
        }
    }

    /// The weight used for the proportional share: zero-weight children
    /// count as one.
    pub open spec fn spec_eff_weight(self) -> int {
        if self.weight > 0 {
            self.weight as int
        } else {
            1
        }
    }
}

/// A child node in a split layout.
pub struct Child {
    /// The nested layout node
    pub node: Box<LayoutNode>,
    /// Size configuration for this child
    pub size: Size,
}

/// A layout node: a container that splits its area among children, or a
/// leaf pane.
pub enum LayoutNode {
    /// A container that splits its area among children
    Split {
        /// Direction to split
        dir: SplitDir,
        /// Space between children in cells
        gutter: u32,
        /// Child nodes
        children: Vec<Child>,
    },
    /// A leaf node representing a single pane
    Pane {
        /// Identifier for this pane
        id: usize,
        /// Renderer for this pane
        renderer: PaneKind,
    },
}

/// Sum of the raw weights of a size list.
pub open spec fn sum_weights(ss: Seq<Size>) -> int
    decreases ss.len(),
{
    if ss.len() == 0 {
        0
    } else {
        ss[0].weight + sum_weights(ss.drop_first())
    }
}

/// The weight total the proportional shares divide by: the raw sum,
/// or the child count when every weight is zero.
pub open spec fn total_weight(ss: Seq<Size>) -> int {
    if sum_weights(ss) == 0 {
        ss.len() as int
    } else {
        sum_weights(ss)
    }
}

/// A value clamped into an interval.
pub open spec fn spec_clamp(v: int, lo: int, hi: int) -> int {
    if v < lo {
        lo
    } else if v > hi {
        hi
    } else {
        v
    }
}

/// The provisional share of one child: the weighted floor share of the
/// available length, clamped to the child's bounds.
pub open spec fn spec_target(s: Size, avail: int, tw: int) -> int {
    spec_clamp(avail * s.spec_eff_weight() / tw, s.spec_min(), s.spec_max())
}

/// The provisional shares of all children.
pub open spec fn spec_targets(ss: Seq<Size>, avail: int) -> Seq<int> {
    Seq::new(ss.len(), |i: int| spec_target(ss[i], avail, total_weight(ss)))
}

/// Sum of a sequence of lengths.
pub open spec fn sum(s: Seq<int>) -> int
    decreases s.len(),
{
    if s.len() == 0 {
        0
    } else {
        s[0] + sum(s.drop_first())
    }
}

/// `idx` inserted into an index list that is sorted by descending size:
/// it goes after every index whose size is at least as large, so equal
/// sizes keep their original order.
pub open spec fn insert_desc(order: Seq<int>, idx: int, sizes: Seq<int>) -> Seq<int>
    decreases order.len(),
{
    if order.len() == 0 {
        seq![idx]
    } else if sizes[order[0]] >= sizes[idx] {
        seq![order[0]] + insert_desc(order.drop_first(), idx, sizes)
    } else {
        seq![idx] + order
    }
}

/// The first `n` indices sorted by descending size, stably.
pub open spec fn sort_idxs_upto(sizes: Seq<int>, n: nat) -> Seq<int>
    decreases n,
{
    if n == 0 {
        Seq::empty()
    } else {
        insert_desc(sort_idxs_upto(sizes, (n - 1) as nat), n - 1, sizes)
    }
}

/// All indices of a size list, sorted by descending size, stably.
pub open spec fn sort_idxs(sizes: Seq<int>) -> Seq<int> {
    sort_idxs_upto(sizes, sizes.len())
}

/// Walk the given index order, shrinking each visited child toward its
/// minimum until the overflow is absorbed.
pub open spec fn spec_shrink(sizes: Seq<int>, mins: Seq<int>, order: Seq<int>, over: int) -> Seq<
    int,
>
    decreases order.len(),
{
    if order.len() == 0 || over <= 0 {
        sizes
    } else {
        let i = order[0];
        let room = sizes[i] - mins[i];
        let take = if room <= over {
            room
        } else {
            over
        };
        spec_shrink(sizes.update(i, sizes[i] - take), mins, order.drop_first(), over - take)
    }
}

/// One cycle over the children in order, granting one spare cell to
/// each child not yet at its maximum, while spare cells remain.
pub open spec fn dist_pass(sizes: Seq<int>, maxs: Seq<int>, under: int, k: nat) -> (Seq<int>, int)
    decreases sizes.len() - k,
{
    if k >= sizes.len() || under <= 0 {
        (sizes, under)
    } else if sizes[k as int] < maxs[k as int] {
        dist_pass(sizes.update(k as int, sizes[k as int] + 1), maxs, under - 1, (k + 1) as nat)
    } else {
        dist_pass(sizes, maxs, under, (k + 1) as nat)
    }
}

/// A cycle leaves no more spare cells than it started with, and never a
/// negative count.
pub proof fn lemma_dist_pass_bounds(sizes: Seq<int>, maxs: Seq<int>, under: int, k: nat)
    requires
        under >= 0,
    ensures
        0 <= dist_pass(sizes, maxs, under, k).1 <= under,
        dist_pass(sizes, maxs, under, k).0.len() == sizes.len(),
    decreases sizes.len() - k,
{
    if k >= sizes.len() || under <= 0 {
    } else if sizes[k as int] < maxs[k as int] {
        lemma_dist_pass_bounds(
            sizes.update(k as int, sizes[k as int] + 1),
            maxs,
            under - 1,
            (k + 1) as nat,
        );
    } else {
        lemma_dist_pass_bounds(sizes, maxs, under, (k + 1) as nat);
    }
}

/// Hand out spare cells one at a time, cycling over the children in
/// order and skipping any at its maximum, until no spare cells remain
/// or a full cycle can place none.
pub open spec fn spec_distribute(sizes: Seq<int>, maxs: Seq<int>, under: int) -> Seq<int>
    decreases under,
    when under >= 0
    via spec_distribute_decreases
{
    if under <= 0 {
        sizes
    } else {
        let (s2, u2) = dist_pass(sizes, maxs, under, 0);
        if u2 == under {
            sizes
        } else {
            spec_distribute(s2, maxs, u2)
        }
    }
}

#[via_fn]
proof fn spec_distribute_decreases(sizes: Seq<int>, maxs: Seq<int>, under: int) {
    if under > 0 {
        lemma_dist_pass_bounds(sizes, maxs, under, 0);
    }
}

/// The computed lengths of the children of one split: provisional
/// shares, then overflow absorbed largest-first, or slack distributed
/// cycling in order.
pub open spec fn child_sizes(ss: Seq<Size>, avail: int) -> Seq<int> {
    let t = spec_targets(ss, avail);
    let total = sum(t);
    if total > avail {
        spec_shrink(t, Seq::new(ss.len(), |i: int| ss[i].spec_min()), sort_idxs(t), total - avail)
    } else if total < avail {
        spec_distribute(t, Seq::new(ss.len(), |i: int| ss[i].spec_max()), avail - total)
    } else {
        t
    }
}

/// An integer clipped to the cell range (`u32`).
pub open spec fn sat32(x: int) -> int {
    if x > u32::MAX {
        u32::MAX as int
    } else {
        x
    }
}

/// The length of the split axis of a rectangle.
pub open spec fn axis_len(dir: SplitDir, rect: Rect) -> int {
    match dir {
        SplitDir::Horizontal => rect.w as int,
        SplitDir::Vertical => rect.h as int,
    }
}

/// The coordinate where the first child of a split starts.
pub open spec fn axis_start(dir: SplitDir, rect: Rect) -> int {
    match dir {
        SplitDir::Horizontal => rect.x as int,
        SplitDir::Vertical => rect.y as int,
    }
}

/// The length available to the children of a split: the axis length
/// less the gutters, floored at zero.
pub open spec fn spec_avail(dir: SplitDir, gutter: u32, n: int, rect: Rect) -> int {
    let total_gutters = sat32(gutter * (if n > 0 {
        n - 1
    } else {
        0
    }));
    if axis_len(dir, rect) >= total_gutters {
        axis_len(dir, rect) - total_gutters
    } else {
        0
    }
}

/// The rectangle of one child of a split: its computed length along the
/// split axis at the running cursor, the cross axis passed through.
pub open spec fn child_rect(dir: SplitDir, rect: Rect, cursor: int, len: int) -> Rect {
    match dir {
        SplitDir::Horizontal => Rect {
            x: cursor as u32,
            y: rect.y,
            w: len as u32,
            h: rect.h,
        },
        SplitDir::Vertical => Rect { x: rect.x, y: cursor as u32, w: rect.w, h: len as u32 },
    }
}

/// The integer values of a vector of cell counts.
pub open spec fn as_ints(s: Seq<u32>) -> Seq<int> {
    s.map_values(|v: u32| v as int)
}

/// The total weight is at least any single weight, and never negative.
proof fn lemma_sum_weights_ge_elem(ss: Seq<Size>, i: int)
    requires
        0 <= i < ss.len(),
    ensures
        sum_weights(ss) >= ss[i].weight,
        sum_weights(ss) >= 0,
    decreases ss.len(),
{
    lemma_sum_weights_nonneg(ss);
    if i == 0 {
        lemma_sum_weights_nonneg(ss.drop_first());
    } else {
        lemma_sum_weights_ge_elem(ss.drop_first(), i - 1);
        assert(ss.drop_first()[i - 1] == ss[i]);
    }
}

/// A sum of weights is never negative.
proof fn lemma_sum_weights_nonneg(ss: Seq<Size>)
    ensures
        sum_weights(ss) >= 0,
    decreases ss.len(),
{
    if ss.len() > 0 {
        lemma_sum_weights_nonneg(ss.drop_first());
    }
}

/// A cycle that places no spare cell changes no size.
proof fn lemma_dist_pass_no_progress(sizes: Seq<int>, maxs: Seq<int>, under: int, k: nat)
    requires
        under >= 0,
        dist_pass(sizes, maxs, under, k).1 == under,
    ensures
        dist_pass(sizes, maxs, under, k).0 == sizes,
    decreases sizes.len() - k,
{
    if k >= sizes.len() || under <= 0 {
    } else if sizes[k as int] < maxs[k as int] {
        lemma_dist_pass_bounds(
            sizes.update(k as int, sizes[k as int] + 1),
            maxs,
            under - 1,
            (k + 1) as nat,
        );
    } else {
        lemma_dist_pass_no_progress(sizes, maxs, under, (k + 1) as nat);
    }
}

/// Inserting at the first position whose size is smaller splits the
/// order there.
proof fn lemma_insert_desc_at(order: Seq<int>, idx: int, sizes: Seq<int>, p: int)
    requires
        0 <= p <= order.len(),
        forall|q: int| 0 <= q < p ==> sizes[#[trigger] order[q]] >= sizes[idx],
        p < order.len() ==> sizes[order[p]] < sizes[idx],
    ensures
        insert_desc(order, idx, sizes) == order.take(p) + seq![idx] + order.skip(p),
    decreases order.len(),
{
    if order.len() == 0 {
        assert(insert_desc(order, idx, sizes) =~= order.take(p) + seq![idx] + order.skip(p));
    } else if p == 0 {
        assert(sizes[order[0]] < sizes[idx]);
        assert(insert_desc(order, idx, sizes) =~= order.take(0) + seq![idx] + order.skip(0));
    } else {
        assert(sizes[order[0]] >= sizes[idx]);
        lemma_insert_desc_at(order.drop_first(), idx, sizes, p - 1);
        assert(order.drop_first().take(p - 1) =~= order.take(p).drop_first());
        assert(order.drop_first().skip(p - 1) =~= order.skip(p));
        assert(seq![order[0]] + insert_desc(order.drop_first(), idx, sizes) =~= order.take(p)
            + seq![idx] + order.skip(p));
    }
}

/// The indices of a size list, stably sorted by descending size.
fn sort_indices(sizes: &Vec<u32>) -> (idxs: Vec<usize>)
    ensures
        idxs@.map_values(|u: usize| u as int) == sort_idxs(as_ints(sizes@)),
        forall|j: int| 0 <= j < idxs@.len() ==> (#[trigger] idxs@[j]) < sizes@.len(),
        idxs@.len() == sizes@.len(),
{
    let ghost t = as_ints(sizes@);
    let n = sizes.len();
    let mut idxs: Vec<usize> = Vec::new();
    for i in 0..n
        invariant
            n == sizes@.len(),
            t == as_ints(sizes@),
            idxs@.map_values(|u: usize| u as int) == sort_idxs_upto(t, i as nat),
            idxs@.len() == i,
            forall|j: int| 0 <= j < idxs@.len() ==> (#[trigger] idxs@[j]) < n,
    {
        let ghost order = idxs@.map_values(|u: usize| u as int);
        let mut p: usize = 0;
        while p < idxs.len() && sizes[idxs[p]] >= sizes[i]
            invariant
                n == sizes@.len(),
                t == as_ints(sizes@),
                order == idxs@.map_values(|u: usize| u as int),
                idxs@.len() == i,
                i < n,
                forall|j: int| 0 <= j < idxs@.len() ==> (#[trigger] idxs@[j]) < n,
                0 <= p <= idxs@.len(),
                forall|q: int| 0 <= q < p ==> t[#[trigger] order[q]] >= t[i as int],
            decreases idxs@.len() - p,
        {
            p = p + 1;
        }
        proof {
            lemma_insert_desc_at(order, i as int, t, p as int);
        }
        idxs.insert(p, i);
        proof {
            assert(idxs@.map_values(|u: usize| u as int) =~= order.take(p as int) + seq![i as int]
                + order.skip(p as int));
        }
    }
    proof {
        assert(as_ints(sizes@) =~= t);
    }
    idxs
}

/// The computed lengths of the children of one split, executably: the
/// result matches `child_sizes` entry for entry.
#[verifier::loop_isolation(false)]
#[verifier::rlimit(60)]
pub fn compute_sizes(cfg: &Vec<Size>, avail: u32) -> (out: Vec<u32>)
    requires
        forall|i: int| 0 <= i < cfg@.len() ==> (#[trigger] cfg@[i]).wf(),
    ensures
        as_ints(out@) == child_sizes(cfg@, avail as int),
        out@.len() == cfg@.len(),
{
    let n = cfg.len();
    let ghost ss = cfg@;

    // Total raw weight.
    proof {
        assert(ss.skip(0) =~= ss);
    }
    let mut ws: u128 = 0;
    for i in 0..n
        invariant
            ws + sum_weights(ss.skip(i as int)) == sum_weights(ss),
            ws <= 0xffff * (i as int),
    {
        proof {
            assert(ss.skip(i as int).drop_first() =~= ss.skip(i as int + 1));
            assert(ss.skip(i as int)[0] == ss[i as int]);
        }
        ws = ws + cfg[i].weight as u128;
    }
    proof {
        assert(ss.skip(n as int) =~= Seq::<Size>::empty());
        assert(ws == sum_weights(ss));
    }
    let tw: u128 = if ws == 0 {
        n as u128
    } else {
        ws
    };

    // Provisional clamped shares.
    let mut out: Vec<u32> = Vec::new();
    for i in 0..n
        invariant
            out@.len() == i,
            tw == total_weight(ss),
            forall|j: int|
                0 <= j < i ==> (#[trigger] out@[j]) as int == spec_target(
                    ss[j],
                    avail as int,
                    total_weight(ss),
                ),
    {
        let w: u128 = if cfg[i].weight > 0 {
            cfg[i].weight as u128
        } else {
            1
        };
        proof {
            lemma_sum_weights_ge_elem(ss, i as int);
            assert((avail as int) * (w as int) <= 0xffffffff * 0xffff) by (nonlinear_arith)
                requires
                    0 <= avail <= 0xffffffff,
                    0 <= w <= 0xffff,
            ;
        }
        let t128: u128 = (avail as u128) * w / tw;
        let lo: u32 = match cfg[i].min_cells {
            Some(m) => m as u32,
            None => 0,
        };
        let hi: u32 = match cfg[i].max_cells {
            Some(m) => m as u32,
            None => u32::MAX,
        };
        let t: u32 = if t128 < lo as u128 {
            lo
        } else if t128 > hi as u128 {
            hi
        } else {
            t128 as u32
        };
        out.push(t);
    }
    proof {
        assert(as_ints(out@) =~= spec_targets(ss, avail as int));
    }
    let ghost t0 = spec_targets(ss, avail as int);

    // Total of the shares.
    proof {
        assert(t0.skip(0) =~= t0);
    }
    let mut total: u128 = 0;
    for i in 0..n
        invariant
            out@.len() == n,
            as_ints(out@) == t0,
            total + sum(t0.skip(i as int)) == sum(t0),
            total <= 0xffffffff * (i as int),
    {
        proof {
            assert(t0.skip(i as int).drop_first() =~= t0.skip(i as int + 1));
            assert(t0.skip(i as int)[0] == t0[i as int]);
        }
        total = total + out[i] as u128;
    }
    proof {
        assert(t0.skip(n as int) =~= Seq::<int>::empty());
        assert(total == sum(t0));
    }

    let ghost mins = Seq::new(ss.len(), |i: int| ss[i].spec_min());
    let ghost maxs = Seq::new(ss.len(), |i: int| ss[i].spec_max());

    if total > avail as u128 {
        // Shrink, visiting children largest first.
        let idxs = sort_indices(&out);
        let ghost order0 = sort_idxs(t0);
        let mut over: u128 = total - avail as u128;
        let ghost over0 = over as int;
        proof {
            assert(order0.skip(0) =~= order0);
        }
        for j in 0..n
            invariant
                out@.len() == n,
                idxs@.len() == n,
                idxs@.map_values(|u: usize| u as int) == order0,
                forall|q: int| 0 <= q < n ==> (#[trigger] idxs@[q]) < n,
                forall|q: int| 0 <= q < n ==> mins[q] <= (#[trigger] out@[q]) as int,
                spec_shrink(t0, mins, order0, over0) == spec_shrink(
                    as_ints(out@),
                    mins,
                    order0.skip(j as int),
                    over as int,
                ),
        {
            proof {
                assert(order0.skip(j as int).drop_first() =~= order0.skip(j as int + 1));
                assert(order0.skip(j as int)[0] == order0[j as int]);
                assert(order0[j as int] == idxs@[j as int] as int);
            }
            if over > 0 {
                let i = idxs[j];
                let lo: u32 = match cfg[i].min_cells {
                    Some(m) => m as u32,
                    None => 0,
                };
                proof {
                    assert(mins[i as int] == lo as int);
                }
                let room: u32 = out[i] - lo;
                let take: u32 = if (room as u128) <= over {
                    room
                } else {
                    over as u32
                };
                let ghost before = as_ints(out@);
                out[i] = out[i] - take;
                over = over - take as u128;
                proof {
                    assert(as_ints(out@) =~= before.update(
                        i as int,
                        before[i as int] - take as int,
                    ));
                }
            }
        }
        proof {
            assert(order0.skip(n as int) =~= Seq::<int>::empty());
        }
        out
    } else if total < avail as u128 {
        // Distribute, cycling over the children in order.
        let mut under: u32 = (avail as u128 - total) as u32;
        let ghost under0 = under as int;
        let mut can_grow = true;
        while under > 0 && can_grow
            invariant
                out@.len() == n,
                maxs == Seq::new(ss.len(), |i: int| ss[i].spec_max()),
                spec_distribute(t0, maxs, under0) == spec_distribute(
                    as_ints(out@),
                    maxs,
                    under as int,
                ),
                !can_grow ==> spec_distribute(as_ints(out@), maxs, under as int) == as_ints(out@),
            decreases under, (if can_grow {
                1int
            } else {
                0int
            }),
        {
            let before = under;
            let ghost s_begin = as_ints(out@);
            for k in 0..n
                invariant
                    out@.len() == n,
                    under <= before,
                    dist_pass(s_begin, maxs, before as int, 0) == dist_pass(
                        as_ints(out@),
                        maxs,
                        under as int,
                        k as nat,
                    ),
            {
                let hi: u32 = match cfg[k].max_cells {
                    Some(m) => m as u32,
                    None => u32::MAX,
                };
                proof {
                    assert(maxs[k as int] == hi as int);
                }
                if under > 0 && out[k] < hi {
                    let ghost mid = as_ints(out@);
                    out[k] = out[k] + 1;
                    under = under - 1;
                    proof {
                        assert(as_ints(out@) =~= mid.update(k as int, mid[k as int] + 1));
                    }
                }
            }
            proof {
                assert(dist_pass(s_begin, maxs, before as int, 0) == (
                    as_ints(out@),
                    under as int,
                ));
                if under == before {
                    lemma_dist_pass_no_progress(s_begin, maxs, before as int, 0);
                    assert(as_ints(out@) == s_begin);
                    assert(spec_distribute(s_begin, maxs, before as int) == s_begin);
                } else {
                    assert(spec_distribute(s_begin, maxs, before as int) == spec_distribute(
                        as_ints(out@),
                        maxs,
                        under as int,
                    ));
                }
            }
            if under == before {
                can_grow = false;
            }
        }
        out
    } else {
        out
    }
}

/// The leaf rectangles of a layout tree within a container rectangle,
/// in tree order.
pub open spec fn spec_compute(node: LayoutNode, rect: Rect) -> Seq<(usize, Rect)>
    decreases node,
{
    match node {
        LayoutNode::Pane { id, .. } => seq![(id, rect)],
        LayoutNode::Split { dir, gutter, children } => {
            let sizes = child_sizes(
                children@.map_values(|c: Child| c.size),
                spec_avail(dir, gutter, children@.len() as int, rect),
            );
            spec_compute_kids(children@, dir, gutter, rect, sizes, axis_start(dir, rect))
        },
    }
}

impl LayoutNode {
    /// Every split's children have well-formed bounds, all the way
    /// down.
    pub open spec fn wf(self) -> bool
        decreases self,
    {
        match self {
            LayoutNode::Pane { .. } => true,
            LayoutNode::Split { children, .. } => forall|i: int|
                #![auto]
                0 <= i < children@.len() ==> children@[i].size.wf() && children@[i].node.wf(),
        }
    }

    /// Compute the layout: the list of (pane id, rectangle) pairs of
    /// every leaf, in tree order.  Deterministic and side-effect-free:
    /// the result is exactly `spec_compute` of the tree and container.
    pub fn compute(&self, rect: Rect) -> (out: Vec<(usize, Rect)>)
        requires
            self.wf(),
        ensures
            out@ == spec_compute(*self, rect),
    {
        let mut out: Vec<(usize, Rect)> = Vec::new();
        self.compute_into(rect, &mut out);
        out
    }

    /// Append the leaf rectangles of this subtree to `out`.
    #[verifier::loop_isolation(false)]
    pub fn compute_into(&self, rect: Rect, out: &mut Vec<(usize, Rect)>)
        requires
            self.wf(),
        ensures
            final(out)@ == old(out)@ + spec_compute(*self, rect),
        decreases *self,
    {
        match self {
            LayoutNode::Pane { id, .. } => {
                out.push((*id, rect));
                proof {
                    assert(out@ =~= old(out)@ + spec_compute(*self, rect));
                }
            },
            LayoutNode::Split { dir, gutter, children } => {
                let n = children.len();
                let mut cfg: Vec<Size> = Vec::new();
                for i in 0..n
                    invariant
                        cfg@.len() == i,
                        forall|j: int| 0 <= j < i ==> (#[trigger] cfg@[j]) == children@[j].size,
                {
                    cfg.push(children[i].size);
                }
                proof {
                    assert(cfg@ =~= children@.map_values(|c: Child| c.size));
                }
                let axis: u32 = match dir {
                    SplitDir::Horizontal => rect.w,
                    SplitDir::Vertical => rect.h,
                };
                proof {
                    if n >= 1 {
                        assert((*gutter as int) * ((n - 1) as int) <= 0xffffffff
                            * 0xffffffffffffffff) by (nonlinear_arith)
                            requires
                                n >= 1,
                                0 <= *gutter <= 0xffffffff,
                                n <= 0xffffffffffffffff,
                        ;
                    }
                }
                let tg: u128 = (*gutter as u128) * (if n > 0 {
                    (n - 1) as u128
                } else {
                    0
                });
                let avail: u32 = if (axis as u128) >= tg {
                    axis - tg as u32
                } else {
                    0
                };
                proof {
                    assert(avail as int == spec_avail(*dir, *gutter, children@.len() as int, rect));
                }
                let sizes = compute_sizes(&cfg, avail);
                let ghost t = as_ints(sizes@);
                let mut cursor: u32 = match dir {
                    SplitDir::Horizontal => rect.x,
                    SplitDir::Vertical => rect.y,
                };
                proof {
                    assert(children@.skip(0) =~= children@);
                    assert(t.skip(0) =~= t);
                }
                let ghost goal = old(out)@ + spec_compute(*self, rect);
                for i in 0..n
                    invariant
                        sizes@.len() == n,
                        t == as_ints(sizes@),
                        goal == out@ + spec_compute_kids(
                            children@.skip(i as int),
                            *dir,
                            *gutter,
                            rect,
                            t.skip(i as int),
                            cursor as int,
                        ),
                {
                    proof {
                        assert(children@.skip(i as int).drop_first() =~= children@.skip(
                            i as int + 1,
                        ));
                        assert(children@.skip(i as int)[0] == children@[i as int]);
                        assert(t.skip(i as int).drop_first() =~= t.skip(i as int + 1));
                        assert(t.skip(i as int)[0] == t[i as int]);
                    }
                    let len = sizes[i];
                    let r = match dir {
                        SplitDir::Horizontal => Rect { x: cursor, y: rect.y, w: len, h: rect.h },
                        SplitDir::Vertical => Rect { x: rect.x, y: cursor, w: rect.w, h: len },
                    };
                    proof {
                        assert(r == child_rect(*dir, rect, cursor as int, t[i as int]));
                    }
                    let ghost c0 = cursor as int;
                    children[i].node.compute_into(r, out);
                    cursor = cursor.saturating_add(len);
                    if i + 1 != n {
                        cursor = cursor.saturating_add(*gutter);
                    }
                    proof {
                        let nc = sat32(sat32(c0 + t[i as int]) + *gutter as int);
                        assert(spec_compute_kids(
                            children@.skip(i as int),
                            *dir,
                            *gutter,
                            rect,
                            t.skip(i as int),
                            c0,
                        ) == spec_compute(*children@[i as int].node, r) + spec_compute_kids(
                            children@.skip(i as int + 1),
                            *dir,
                            *gutter,
                            rect,
                            t.skip(i as int + 1),
                            nc,
                        ));
                        if i + 1 == n {
                            assert(spec_compute_kids(
                                children@.skip(i as int + 1),
                                *dir,
                                *gutter,
                                rect,
                                t.skip(i as int + 1),
                                nc,
                            ) =~= Seq::<(usize, Rect)>::empty());
                            assert(spec_compute_kids(
                                children@.skip(i as int + 1),
                                *dir,
                                *gutter,
                                rect,
                                t.skip(i as int + 1),
                                cursor as int,
                            ) =~= Seq::<(usize, Rect)>::empty());
                        } else {
                            assert(cursor as int == nc);
                        }
                    }
                }
                proof {
                    assert(children@.skip(n as int) =~= Seq::<Child>::empty());
                }
            },
        }
    }
}

/// The leaf rectangles of the children of a split, walked left to
/// right from a cursor, inserting a gutter after each child.
pub open spec fn spec_compute_kids(
    cs: Seq<Child>,
    dir: SplitDir,
    gutter: u32,
    rect: Rect,
    sizes: Seq<int>,
    cursor: int,
) -> Seq<(usize, Rect)>
    decreases cs,
{
    if cs.len() == 0 {
        Seq::empty()
    } else {
        let len = sizes[0];
        let r = child_rect(dir, rect, cursor, len);
        let next_cursor = sat32(sat32(cursor + len) + gutter);
        spec_compute(*cs[0].node, r) + spec_compute_kids(
            cs.drop_first(),
            dir,
            gutter,
            rect,
            sizes.drop_first(),
            next_cursor,
        )
    }
}

} // verus!

// ---------------------------------------------------------------------
// Laws of the sizing pipeline.
// ---------------------------------------------------------------------

verus! {

use vstd::arithmetic::div_mod::{
    lemma_div_is_ordered,
    lemma_div_multiples_vanish,
    lemma_div_multiples_vanish_quotient,
    lemma_div_pos_is_pos,
    lemma_fundamental_div_mod,
    lemma_mod_bound,
};
use vstd::arithmetic::mul::{lemma_mul_inequality, lemma_mul_is_commutative};

/// Appending one value adds it to the sum.
proof fn lemma_sum_push(s: Seq<int>, x: int)
    ensures
        sum(s.push(x)) == sum(s) + x,
    decreases s.len(),
{
    if s.len() == 0 {
        assert(s.push(x)[0] == x);
        assert(s.push(x).drop_first() =~= Seq::<int>::empty());
        assert(sum(s.push(x)) == x + sum(Seq::<int>::empty()));
    } else {
        assert(s.push(x)[0] == s[0]);
        assert(s.push(x).drop_first() =~= s.drop_first().push(x));
        lemma_sum_push(s.drop_first(), x);
        assert(sum(s.push(x)) == s[0] + sum(s.drop_first().push(x)));
    }
}

/// Replacing one value changes the sum by the difference.
proof fn lemma_sum_update(s: Seq<int>, i: int, v: int)
    requires
        0 <= i < s.len(),
    ensures
        sum(s.update(i, v)) == sum(s) - s[i] + v,
    decreases s.len(),
{
    if i == 0 {
        assert(s.update(0, v).drop_first() =~= s.drop_first());
    } else {
        assert(s.update(i, v).drop_first() =~= s.drop_first().update(i - 1, v));
        lemma_sum_update(s.drop_first(), i - 1, v);
    }
}

/// The sum of a constant sequence.
proof fn lemma_sum_const(s: Seq<int>, c: int)
    requires
        forall|i: int| 0 <= i < s.len() ==> s[i] == c,
    ensures
        sum(s) == s.len() * c,
    decreases s.len(),
{
    if s.len() > 0 {
        lemma_sum_const(s.drop_first(), c);
        assert(s.len() * c == (s.len() - 1) * c + c) by (nonlinear_arith);
    }
}

/// With no negative entries, the sum dominates every entry.
proof fn lemma_sum_ge_elem(s: Seq<int>, i: int)
    requires
        0 <= i < s.len(),
        forall|j: int| 0 <= j < s.len() ==> s[j] >= 0,
    ensures
        sum(s) >= s[i],
        sum(s) >= 0,
    decreases s.len(),
{
    lemma_sum_nonneg(s.drop_first());
    if i > 0 {
        lemma_sum_ge_elem(s.drop_first(), i - 1);
    }
}

/// A sum of non-negative entries is non-negative.
proof fn lemma_sum_nonneg(s: Seq<int>)
    requires
        forall|j: int| 0 <= j < s.len() ==> s[j] >= 0,
    ensures
        sum(s) >= 0,
    decreases s.len(),
{
    if s.len() > 0 {
        lemma_sum_nonneg(s.drop_first());
    }
}

/// The sum of `sizes` over a list of indices.
pub open spec fn sum_over(order: Seq<int>, sizes: Seq<int>) -> int
    decreases order.len(),
{
    if order.len() == 0 {
        0
    } else {
        sizes[order[0]] + sum_over(order.drop_first(), sizes)
    }
}

/// A sum over indices with non-negative sizes is non-negative.
proof fn lemma_sum_over_nonneg(order: Seq<int>, sizes: Seq<int>)
    requires
        forall|j: int| 0 <= j < order.len() ==> sizes[#[trigger] order[j]] >= 0,
    ensures
        sum_over(order, sizes) >= 0,
    decreases order.len(),
{
    if order.len() > 0 {
        assert(forall|j: int|
            0 <= j < order.drop_first().len() ==> #[trigger] order.drop_first()[j] == order[j + 1]);
        lemma_sum_over_nonneg(order.drop_first(), sizes);
    }
}

/// Two size lists equal at all listed indices have the same sum there.
proof fn lemma_sum_over_pointwise(order: Seq<int>, a: Seq<int>, b: Seq<int>)
    requires
        forall|j: int| 0 <= j < order.len() ==> a[#[trigger] order[j]] == b[order[j]],
    ensures
        sum_over(order, a) == sum_over(order, b),
    decreases order.len(),
{
    if order.len() > 0 {
        assert(forall|j: int|
            0 <= j < order.drop_first().len() ==> #[trigger] order.drop_first()[j] == order[j + 1]);
        lemma_sum_over_pointwise(order.drop_first(), a, b);
    }
}

/// Inserting an index adds its size to the sum over the order.
proof fn lemma_sum_over_insert(order: Seq<int>, idx: int, key: Seq<int>, sizes: Seq<int>)
    ensures
        sum_over(insert_desc(order, idx, key), sizes) == sizes[idx] + sum_over(order, sizes),
    decreases order.len(),
{
    if order.len() == 0 {
        let r = insert_desc(order, idx, key);
        assert(r =~= seq![idx]);
        assert(r[0] == idx);
        assert(r.drop_first() =~= Seq::<int>::empty());
        assert(sum_over(r, sizes) == sizes[idx] + sum_over(Seq::<int>::empty(), sizes));
    } else if key[order[0]] >= key[idx] {
        lemma_sum_over_insert(order.drop_first(), idx, key, sizes);
        let rest = insert_desc(order.drop_first(), idx, key);
        let r = seq![order[0]] + rest;
        assert(insert_desc(order, idx, key) == r);
        assert(r.drop_first() =~= rest);
        assert(r[0] == order[0]);
        assert(r.len() > 0);
        assert(sum_over(r, sizes) == sizes[order[0]] + sum_over(rest, sizes));
        assert(sum_over(order, sizes) == sizes[order[0]] + sum_over(order.drop_first(), sizes));
    } else {
        let r = seq![idx] + order;
        assert(insert_desc(order, idx, key) == r);
        assert(r.drop_first() =~= order);
        assert(r[0] == idx);
        assert(r.len() > 0);
        assert(sum_over(r, sizes) == sizes[idx] + sum_over(order, sizes));
    }
}

/// The sum of sizes over the sorted index list of a prefix is the sum
/// of that prefix.
proof fn lemma_sum_over_sort(sizes: Seq<int>, n: nat)
    requires
        n <= sizes.len(),
    ensures
        sum_over(sort_idxs_upto(sizes, n), sizes) == sum(sizes.take(n as int)),
    decreases n,
{
    if n == 0 {
        assert(sizes.take(0) =~= Seq::<int>::empty());
    } else {
        lemma_sum_over_sort(sizes, (n - 1) as nat);
        lemma_sum_over_insert(sort_idxs_upto(sizes, (n - 1) as nat), n - 1, sizes, sizes);
        assert(sizes.take(n as int) =~= sizes.take(n - 1).push(sizes[n - 1]));
        lemma_sum_push(sizes.take(n - 1), sizes[n - 1]);
    }
}

/// Inserting keeps the listed indices, adds the new one, and keeps the
/// list free of duplicates.
proof fn lemma_insert_desc_props(order: Seq<int>, idx: int, key: Seq<int>)
    requires
        !order.contains(idx),
        forall|j: int, k: int| 0 <= j < k < order.len() ==> order[j] != order[k],
    ensures
        insert_desc(order, idx, key).len() == order.len() + 1,
        forall|x: int|
            #[trigger] insert_desc(order, idx, key).contains(x) <==> (order.contains(x) || x
                == idx),
        forall|j: int, k: int|
            0 <= j < k < insert_desc(order, idx, key).len() ==> insert_desc(order, idx, key)[j]
                != insert_desc(order, idx, key)[k],
    decreases order.len(),
{
    if order.len() == 0 {
        let r = seq![idx];
        assert(insert_desc(order, idx, key) == r);
        assert(r[0] == idx);
        assert forall|x: int| #[trigger] r.contains(x) implies x == idx by {
            let w = choose|j: int| 0 <= j < r.len() && r[j] == x;
        }
        assert(r.contains(idx));
    } else if key[order[0]] >= key[idx] {
        let rest = insert_desc(order.drop_first(), idx, key);
        assert(!order.drop_first().contains(idx)) by {
            assert forall|j: int| 0 <= j < order.drop_first().len() implies order.drop_first()[j]
                != idx by {
                assert(order.drop_first()[j] == order[j + 1]);
                assert(order[j + 1] != idx) by {
                    assert(order.contains(order[j + 1]) == true || order[j + 1] != idx);
                    if order[j + 1] == idx {
                        assert(order.contains(idx));
                    }
                }
            }
            if order.drop_first().contains(idx) {
                let w = choose|j: int|
                    0 <= j < order.drop_first().len() && order.drop_first()[j] == idx;
                assert(false);
            }
        }
        assert(forall|j: int, k: int|
            0 <= j < k < order.drop_first().len() ==> order.drop_first()[j]
                != order.drop_first()[k]) by {
            assert(forall|j: int|
                0 <= j < order.drop_first().len() ==> #[trigger] order.drop_first()[j] == order[j
                    + 1]);
        }
        lemma_insert_desc_props(order.drop_first(), idx, key);
        let r = seq![order[0]] + rest;
        assert(r.drop_first() =~= rest);
        assert forall|x: int| #[trigger] r.contains(x) implies (order.contains(x) || x == idx) by {
            let w = choose|j: int| 0 <= j < r.len() && r[j] == x;
            if w == 0 {
                assert(order[0] == x);
            } else {
                assert(rest[w - 1] == x);
                assert(rest.contains(x));
                if order.drop_first().contains(x) {
                    let v = choose|j: int|
                        0 <= j < order.drop_first().len() && order.drop_first()[j] == x;
                    assert(order[v + 1] == x);
                }
            }
        }
        assert forall|x: int| (order.contains(x) || x == idx) implies #[trigger] r.contains(x) by {
            if x == idx || order.drop_first().contains(x) {
                assert(rest.contains(x));
                let v = choose|j: int| 0 <= j < rest.len() && rest[j] == x;
                assert(r[v + 1] == x);
            } else {
                let w = choose|j: int| 0 <= j < order.len() && order[j] == x;
                if w == 0 {
                    assert(r[0] == x);
                } else {
                    assert(order.drop_first()[w - 1] == x);
                    assert(order.drop_first().contains(x));
                }
            }
        }
        assert forall|j: int, k: int| 0 <= j < k < r.len() implies r[j] != r[k] by {
            if j == 0 {
                assert(r[k] == rest[k - 1]);
                assert(rest.contains(rest[k - 1]));
                if r[0] == rest[k - 1] {
                    assert(order.contains(order[0]));
                }
            } else {
                assert(r[j] == rest[j - 1] && r[k] == rest[k - 1]);
            }
        }
    } else {
        let r = seq![idx] + order;
        assert(r.drop_first() =~= order);
        assert forall|x: int| #[trigger] r.contains(x) implies (order.contains(x) || x == idx) by {
            let w = choose|j: int| 0 <= j < r.len() && r[j] == x;
            if w > 0 {
                assert(order[w - 1] == x);
            }
        }
        assert forall|x: int| (order.contains(x) || x == idx) implies #[trigger] r.contains(x) by {
            if x == idx {
                assert(r[0] == x);
            } else {
                let w = choose|j: int| 0 <= j < order.len() && order[j] == x;
                assert(r[w + 1] == x);
            }
        }
        assert forall|j: int, k: int| 0 <= j < k < r.len() implies r[j] != r[k] by {
            if j == 0 {
                assert(r[k] == order[k - 1]);
                if idx == order[k - 1] {
                    assert(order.contains(idx));
                }
            }
        }
    }
}

/// The sorted index list of the first `n` sizes lists exactly the
/// indices below `n`, each once.
proof fn lemma_sort_props(sizes: Seq<int>, n: nat)
    ensures
        sort_idxs_upto(sizes, n).len() == n,
        forall|x: int| #[trigger] sort_idxs_upto(sizes, n).contains(x) <==> 0 <= x < n,
        forall|j: int, k: int|
            0 <= j < k < n ==> sort_idxs_upto(sizes, n)[j] != sort_idxs_upto(sizes, n)[k],
        forall|j: int|
            0 <= j < n ==> 0 <= #[trigger] sort_idxs_upto(sizes, n)[j] < n,
    decreases n,
{
    if n == 0 {
        assert forall|x: int| #[trigger] sort_idxs_upto(sizes, 0).contains(x) implies false by {
            let w = choose|j: int| 0 <= j < 0 && sort_idxs_upto(sizes, 0)[j] == x;
        }
    } else {
        lemma_sort_props(sizes, (n - 1) as nat);
        let prev = sort_idxs_upto(sizes, (n - 1) as nat);
        assert(!prev.contains(n - 1));
        lemma_insert_desc_props(prev, n - 1, sizes);
        let r = sort_idxs_upto(sizes, n);
        assert forall|j: int| 0 <= j < n implies 0 <= #[trigger] r[j] < n by {
            assert(r.contains(r[j]));
        }
    }
}

/// Shrinking along indices that already sit at their minimum changes
/// nothing.
proof fn lemma_shrink_noop(sizes: Seq<int>, mins: Seq<int>, order: Seq<int>, over: int)
    requires
        forall|j: int| 0 <= j < order.len() ==> 0 <= #[trigger] order[j] < sizes.len(),
        forall|j: int| 0 <= j < order.len() ==> sizes[#[trigger] order[j]] == mins[order[j]],
    ensures
        spec_shrink(sizes, mins, order, over) == sizes,
    decreases order.len(),
{
    if order.len() == 0 || over <= 0 {
    } else {
        let i = order[0];
        assert(sizes.update(i, sizes[i] - 0) =~= sizes);
        assert(forall|j: int|
            0 <= j < order.drop_first().len() ==> #[trigger] order.drop_first()[j] == order[j + 1]);
        lemma_shrink_noop(sizes, mins, order.drop_first(), over);
    }
}

/// Shrinking with zero minimums along duplicate-free indices whose
/// sizes cover the overflow brings the sum down by exactly the
/// overflow.
proof fn lemma_shrink_sum(sizes: Seq<int>, mins: Seq<int>, order: Seq<int>, over: int)
    requires
        forall|j: int| 0 <= j < order.len() ==> 0 <= #[trigger] order[j] < sizes.len(),
        forall|j: int| 0 <= j < order.len() ==> mins[#[trigger] order[j]] == 0,
        forall|j: int| 0 <= j < order.len() ==> sizes[#[trigger] order[j]] >= 0,
        forall|j: int, k: int| 0 <= j < k < order.len() ==> order[j] != order[k],
        0 <= over <= sum_over(order, sizes),
    ensures
        sum(spec_shrink(sizes, mins, order, over)) == sum(sizes) - over,
    decreases order.len(),
{
    if over <= 0 {
    } else {
        assert(order.len() > 0);
        let i = order[0];
        let room = sizes[i] - mins[i];
        let take = if room <= over {
            room
        } else {
            over
        };
        let updated = sizes.update(i, sizes[i] - take);
        let tail = order.drop_first();
        assert(forall|j: int| 0 <= j < tail.len() ==> #[trigger] tail[j] == order[j + 1]);
        assert(forall|j: int| 0 <= j < tail.len() ==> #[trigger] tail[j] != i);
        assert(forall|j: int|
            0 <= j < tail.len() ==> updated[#[trigger] tail[j]] == sizes[tail[j]]);
        lemma_sum_over_pointwise(tail, updated, sizes);
        assert(sum_over(order, sizes) == sizes[i] + sum_over(tail, sizes));
        lemma_sum_over_nonneg(tail, sizes);
        assert(0 <= over - take <= sum_over(tail, updated));
        lemma_shrink_sum(updated, mins, tail, over - take);
        lemma_sum_update(sizes, i, sizes[i] - take);
    }
}

/// A cycle over children all at their maximum places nothing.
proof fn lemma_dist_pass_at_max(sizes: Seq<int>, maxs: Seq<int>, under: int, k: nat)
    requires
        forall|j: int| k <= j < sizes.len() ==> #[trigger] sizes[j] >= maxs[j],
    ensures
        dist_pass(sizes, maxs, under, k) == (sizes, under),
    decreases sizes.len() - k,
{
    if k >= sizes.len() || under <= 0 {
    } else {
        lemma_dist_pass_at_max(sizes, maxs, under, (k + 1) as nat);
    }
}

/// A cycle adds to the sizes exactly the spare cells it consumed, and
/// never shrinks any child.
proof fn lemma_dist_pass_sum(sizes: Seq<int>, maxs: Seq<int>, under: int, k: nat)
    requires
        under >= 0,
    ensures
        sum(dist_pass(sizes, maxs, under, k).0) == sum(sizes) + under - dist_pass(
            sizes,
            maxs,
            under,
            k,
        ).1,
        forall|j: int|
            0 <= j < sizes.len() ==> #[trigger] dist_pass(sizes, maxs, under, k).0[j] >= sizes[j],
        dist_pass(sizes, maxs, under, k).0.len() == sizes.len(),
    decreases sizes.len() - k,
{
    if k >= sizes.len() || under <= 0 {
    } else if sizes[k as int] < maxs[k as int] {
        let updated = sizes.update(k as int, sizes[k as int] + 1);
        lemma_sum_update(sizes, k as int, sizes[k as int] + 1);
        lemma_dist_pass_sum(updated, maxs, under - 1, (k + 1) as nat);
    } else {
        lemma_dist_pass_sum(sizes, maxs, under, (k + 1) as nat);
    }
}

/// A cycle that still has spare cells and a child below its maximum
/// places at least one cell.
proof fn lemma_dist_pass_progress(sizes: Seq<int>, maxs: Seq<int>, under: int, k: nat, w: int)
    requires
        under > 0,
        k <= w < sizes.len(),
        sizes[w] < maxs[w],
    ensures
        dist_pass(sizes, maxs, under, k).1 < under,
    decreases sizes.len() - k,
{
    if sizes[k as int] < maxs[k as int] {
        let updated = sizes.update(k as int, sizes[k as int] + 1);
        lemma_dist_pass_bounds(updated, maxs, under - 1, (k + 1) as nat);
    } else {
        lemma_dist_pass_progress(sizes, maxs, under, (k + 1) as nat, w);
    }
}

/// With no child at its maximum and enough children, one cycle grants
/// one cell to each of the first `under` children from `k` on.
proof fn lemma_dist_pass_grant_prefix(sizes: Seq<int>, maxs: Seq<int>, under: int, k: nat)
    requires
        0 <= under <= sizes.len() - k,
        forall|j: int| k <= j < sizes.len() ==> #[trigger] sizes[j] < maxs[j],
    ensures
        dist_pass(sizes, maxs, under, k).1 == 0,
        dist_pass(sizes, maxs, under, k).0 =~= Seq::new(
            sizes.len(),
            |j: int|
                sizes[j] + if k <= j < k + under {
                    1int
                } else {
                    0int
                },
        ),
    decreases sizes.len() - k,
{
    if under <= 0 {
        assert(dist_pass(sizes, maxs, under, k).0 =~= sizes);
    } else {
        let updated = sizes.update(k as int, sizes[k as int] + 1);
        lemma_dist_pass_grant_prefix(updated, maxs, under - 1, (k + 1) as nat);
    }
}

/// Distribution with unbounded children and room below the cell range
/// hands out every spare cell: the sum grows by exactly the slack.
proof fn lemma_distribute_sum(sizes: Seq<int>, maxs: Seq<int>, under: int)
    requires
        under >= 0,
        sizes.len() >= 1,
        forall|j: int| 0 <= j < sizes.len() ==> #[trigger] sizes[j] >= 0,
        forall|j: int| 0 <= j < maxs.len() ==> #[trigger] maxs[j] == u32::MAX,
        maxs.len() == sizes.len(),
        sum(sizes) + under <= u32::MAX,
    ensures
        sum(spec_distribute(sizes, maxs, under)) == sum(sizes) + under,
    decreases under,
{
    if under <= 0 {
    } else {
        assert(!(forall|j: int| 0 <= j < sizes.len() ==> #[trigger] sizes[j] >= u32::MAX)) by {
            if forall|j: int| 0 <= j < sizes.len() ==> #[trigger] sizes[j] >= u32::MAX {
                lemma_sum_ge_elem(sizes, 0);
            }
        }
        let w = choose|j: int| 0 <= j < sizes.len() && !(sizes[j] >= u32::MAX);
        let (s2, u2) = dist_pass(sizes, maxs, under, 0);
        lemma_dist_pass_progress(sizes, maxs, under, 0, w);
        lemma_dist_pass_bounds(sizes, maxs, under, 0);
        lemma_dist_pass_sum(sizes, maxs, under, 0);
        lemma_distribute_sum(s2, maxs, u2);
    }
}

/// The effective weight of one child never exceeds the weight total.
proof fn lemma_eff_le_total(ss: Seq<Size>, i: int)
    requires
        0 <= i < ss.len(),
    ensures
        1 <= ss[i].spec_eff_weight() <= total_weight(ss),
{
    lemma_sum_weights_ge_elem(ss, i);
}

/// Every weight equal makes the weight sum a clean multiple.
proof fn lemma_sum_weights_const(ss: Seq<Size>, w: u16)
    requires
        forall|i: int| 0 <= i < ss.len() ==> (#[trigger] ss[i]).weight == w,
    ensures
        sum_weights(ss) == ss.len() * w,
    decreases ss.len(),
{
    if ss.len() > 0 {
        lemma_sum_weights_const(ss.drop_first(), w);
        assert(ss.len() * w == (ss.len() - 1) * w + w) by (nonlinear_arith);
    }
}

/// The provisional share of an unbounded child is its weighted floor
/// share, which sits between zero and the available length.
proof fn lemma_target_unbounded(ss: Seq<Size>, avail: int, i: int)
    requires
        0 <= i < ss.len(),
        0 <= avail <= u32::MAX,
        ss[i].min_cells is None,
        ss[i].max_cells is None,
    ensures
        spec_target(ss[i], avail, total_weight(ss)) == avail * ss[i].spec_eff_weight()
            / total_weight(ss),
        0 <= spec_target(ss[i], avail, total_weight(ss)) <= avail,
{
    let e = ss[i].spec_eff_weight();
    let tw = total_weight(ss);
    lemma_eff_le_total(ss, i);
    lemma_div_pos_is_pos(avail * e, tw);
    assert(avail * e >= 0) by (nonlinear_arith)
        requires
            avail >= 0,
            e >= 1,
    ;
    lemma_mul_inequality(e, tw, avail);
    lemma_mul_is_commutative(e, avail);
    lemma_mul_is_commutative(tw, avail);
    lemma_div_is_ordered(avail * e, avail * tw, tw);
    lemma_mul_is_commutative(avail, tw);
    lemma_div_multiples_vanish(avail, tw);
    assert(avail * e / tw <= avail);
}

/// Fixed children get exactly their fixed size: when every child has
/// weight zero and equal lower and upper bounds, the computed lengths
/// equal those bounds, whatever space is available — leftover space is
/// simply not assigned, and missing space does not shrink them.
pub proof fn lemma_fixed_children_exact(ss: Seq<Size>, avail: int)
    requires
        forall|i: int| 0 <= i < ss.len() ==> (#[trigger] ss[i]).weight == 0,
        forall|i: int| 0 <= i < ss.len() ==> (#[trigger] ss[i]).min_cells is Some,
        forall|i: int| 0 <= i < ss.len() ==> (#[trigger] ss[i]).max_cells == ss[i].min_cells,
    ensures
        child_sizes(ss, avail) =~= Seq::new(ss.len() as nat, |i: int| ss[i].spec_min()),
{
    let n = ss.len() as int;
    let t = spec_targets(ss, avail);
    let f = Seq::new(ss.len() as nat, |i: int| ss[i].spec_min());
    assert forall|i: int| 0 <= i < n implies t[i] == f[i] by {
        assert(ss[i].spec_max() == ss[i].spec_min());
    }
    assert(t =~= f);
    let total = sum(t);
    let mins = Seq::new(ss.len() as nat, |i: int| ss[i].spec_min());
    let maxs = Seq::new(ss.len() as nat, |i: int| ss[i].spec_max());
    if total > avail {
        let order = sort_idxs(t);
        lemma_sort_props(t, t.len());
        assert forall|j: int| 0 <= j < order.len() implies t[#[trigger] order[j]]
            == mins[order[j]] by {
            assert(ss[order[j]].spec_max() == ss[order[j]].spec_min());
        }
        lemma_shrink_noop(t, mins, order, total - avail);
    } else if total < avail {
        assert forall|k: int| 0 <= k < n implies #[trigger] t[k] >= maxs[k] by {
            assert(ss[k].spec_max() == ss[k].spec_min());
        }
        lemma_dist_pass_at_max(t, maxs, avail - total, 0);
        assert(spec_distribute(t, maxs, avail - total) == t);
    }
}

/// Children with equal positive weights and no bounds split the
/// available length evenly: each gets the floor share, the first
/// `avail % n` children one extra cell, so every length is within one
/// cell of `avail / n` and the lengths sum exactly to `avail`.
pub proof fn lemma_equal_weights_even_split(ss: Seq<Size>, avail: int, w: u16)
    requires
        ss.len() >= 1,
        0 <= avail <= u32::MAX,
        w > 0,
        forall|i: int| 0 <= i < ss.len() ==> (#[trigger] ss[i]).weight == w,
        forall|i: int| 0 <= i < ss.len() ==> (#[trigger] ss[i]).min_cells is None,
        forall|i: int| 0 <= i < ss.len() ==> (#[trigger] ss[i]).max_cells is None,
    ensures
        child_sizes(ss, avail).len() == ss.len(),
        forall|i: int|
            0 <= i < ss.len() ==> #[trigger] child_sizes(ss, avail)[i] == avail / ss.len() as int
                + (if i < avail % ss.len() as int {
                1int
            } else {
                0int
            }),
        sum(child_sizes(ss, avail)) == avail,
        forall|i: int|
            0 <= i < ss.len() ==> avail / ss.len() as int <= #[trigger] child_sizes(ss, avail)[i]
                <= avail / ss.len() as int + 1,
{
    let n = ss.len() as int;
    let q = avail / n;
    let r = avail % n;
    lemma_sum_weights_const(ss, w);
    assert(n * w > 0) by (nonlinear_arith)
        requires
            n >= 1,
            w >= 1,
    ;
    assert(total_weight(ss) == n * w);
    let t = spec_targets(ss, avail);
    assert forall|i: int| 0 <= i < n implies t[i] == q by {
        lemma_target_unbounded(ss, avail, i);
        lemma_div_multiples_vanish_quotient(w as int, avail, n);
        lemma_mul_is_commutative(w as int, avail);
        lemma_mul_is_commutative(w as int, n);
        assert(avail * (w as int) / (n * (w as int)) == q);
        assert(ss[i].spec_eff_weight() == w);
    }
    lemma_fundamental_div_mod(avail, n);
    lemma_mod_bound(avail, n);
    lemma_sum_const(t, q);
    assert(sum(t) == n * q);
    let maxs = Seq::new(ss.len() as nat, |i: int| ss[i].spec_max());
    assert(forall|j: int| 0 <= j < maxs.len() ==> #[trigger] maxs[j] == u32::MAX);
    if r == 0 {
        assert(sum(t) == avail);
        assert(child_sizes(ss, avail) == t);
    } else {
        assert(sum(t) == avail - r);
        assert(sum(t) < avail);
        assert(q < u32::MAX) by {
            if q >= u32::MAX {
                assert(n * q >= q) by (nonlinear_arith)
                    requires
                        n >= 1,
                        q >= 0,
                ;
            }
        }
        let under = avail - sum(t);
        assert(under == r);
        lemma_dist_pass_grant_prefix(t, maxs, r, 0);
        let (s2, u2) = dist_pass(t, maxs, r, 0);
        assert(u2 == 0);
        assert(spec_distribute(t, maxs, r) == spec_distribute(s2, maxs, 0));
        assert(spec_distribute(s2, maxs, 0) == s2);
        lemma_dist_pass_sum(t, maxs, r, 0);
        assert(child_sizes(ss, avail) == s2);
    }
}

/// With no bounds anywhere, the computed lengths sum exactly to the
/// available length, whatever the weights.
pub proof fn lemma_unbounded_children_sum(ss: Seq<Size>, avail: int)
    requires
        ss.len() >= 1,
        0 <= avail <= u32::MAX,
        forall|i: int| 0 <= i < ss.len() ==> (#[trigger] ss[i]).min_cells is None,
        forall|i: int| 0 <= i < ss.len() ==> (#[trigger] ss[i]).max_cells is None,
    ensures
        sum(child_sizes(ss, avail)) == avail,
{
    let n = ss.len() as int;
    let t = spec_targets(ss, avail);
    assert forall|i: int| 0 <= i < n implies 0 <= #[trigger] t[i] <= avail by {
        lemma_target_unbounded(ss, avail, i);
    }
    let total = sum(t);
    let mins = Seq::new(ss.len() as nat, |i: int| ss[i].spec_min());
    let maxs = Seq::new(ss.len() as nat, |i: int| ss[i].spec_max());
    if total > avail {
        let order = sort_idxs(t);
        lemma_sort_props(t, t.len());
        lemma_sum_over_sort(t, t.len());
        assert(t.take(t.len() as int) =~= t);
        assert(sum_over(order, t) == total);
        lemma_shrink_sum(t, mins, order, total - avail);
    } else if total < avail {
        lemma_sum_nonneg(t);
        assert(forall|j: int| 0 <= j < maxs.len() ==> #[trigger] maxs[j] == u32::MAX);
        lemma_distribute_sum(t, maxs, avail - total);
    }
}

/// The gutter invariant: for a split whose children carry no bounds,
/// the computed lengths plus the gutters between them cover the split
/// axis exactly.
pub proof fn lemma_gutter_invariant(ss: Seq<Size>, dir: SplitDir, gutter: u32, rect: Rect)
    requires
        ss.len() >= 1,
        forall|i: int| 0 <= i < ss.len() ==> (#[trigger] ss[i]).min_cells is None,
        forall|i: int| 0 <= i < ss.len() ==> (#[trigger] ss[i]).max_cells is None,
        gutter * (ss.len() - 1) <= axis_len(dir, rect),
    ensures
        sum(child_sizes(ss, spec_avail(dir, gutter, ss.len() as int, rect))) + gutter * (ss.len()
            - 1) == axis_len(dir, rect),
{
    let n = ss.len() as int;
    let avail = spec_avail(dir, gutter, n, rect);
    assert(gutter * (n - 1) >= 0) by (nonlinear_arith)
        requires
            n >= 1,
            gutter >= 0,
    ;
    assert(avail == axis_len(dir, rect) - gutter * (n - 1));
    lemma_unbounded_children_sum(ss, avail);
}

/// The layout is deterministic: any two computations over the same
/// tree and container rectangle agree, since `compute` pins its result
/// to `spec_compute` of its inputs.
pub proof fn lemma_compute_deterministic(
    node: LayoutNode,
    rect: Rect,
    out1: Seq<(usize, Rect)>,
    out2: Seq<(usize, Rect)>,
)
    requires
        out1 == spec_compute(node, rect),
        out2 == spec_compute(node, rect),
    ensures
        out1 == out2,
{
}

} // verus!
