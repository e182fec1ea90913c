//! The click-pattern processor: a stateful translator from raw input
//! events to a normalized stream in which double and triple clicks are
//! synthesized from the timing and position of plain button presses.

use vstd::prelude::*;
use crate::geom::Point;
use crate::render::{Event, KeyCode, MouseButton, MouseEvent, MouseEventKind};

verus! {

/// The window within which a following click continues a pattern, in
/// milliseconds.
pub const DOUBLE_CLICK_TIMEOUT_MS: u64 = 300;

/// The largest squared distance between clicks of one pattern: three
/// cells, Euclidean, squared.
pub const MAX_DOUBLE_CLICK_DIST_SQ: u64 = 9;

/// Events that have been processed by the event loop, including
/// synthesized click patterns.
#[derive(Debug, Clone)]
pub enum ProcessedEvent {
    /// A render event to forward to panes
    Render(Event),
    /// Animation tick for periodic updates
    Animation,
    /// Request to quit the application
    Quit,
}

/// Click bookkeeping for one mouse button: the last click, and the
/// pending double-click marker a third click is matched against.
#[derive(Debug, Clone, Copy)]
pub struct ClickState {
    pub last_click_time: u64,
    pub last_click_pos: Point,
    pub double_click_time: Option<u64>,
    pub double_click_pos: Option<Point>,
}

/// How a press continues the click pattern of its button.
#[derive(Debug, Clone, Copy, PartialEq, Eq, Structural)]
pub enum ClickKind {
    Single,
    Double,
    Triple,
}

/// Milliseconds from `then` to `now`, zero when the clock ran
/// backwards.
pub open spec fn elapsed(now: u64, then: u64) -> int {
    if now >= then {
        now - then
    } else {
        0
    }
}

/// Whether a press at `pos`/`now` falls within the pattern window of a
/// recorded click at `then`/`at`: at most the timeout later and at most
/// three cells away.
pub open spec fn within_window(now: u64, pos: Point, then: u64, at: Point) -> bool {
    elapsed(now, then) <= DOUBLE_CLICK_TIMEOUT_MS && pos.spec_dist_sq(at)
        <= MAX_DOUBLE_CLICK_DIST_SQ
}

/// How a press continues a button's pattern: a triple click when a
/// pending double-click marker exists and the press falls within its
/// window; else a double click when the press falls within the last
/// click's window; else a plain press.
pub open spec fn classify(prev: Option<ClickState>, now: u64, pos: Point) -> ClickKind {
    match prev {
        None => ClickKind::Single,
        Some(st) => {
            if st.double_click_time is Some && st.double_click_pos is Some && within_window(
                now,
                pos,
                st.double_click_time.unwrap(),
                st.double_click_pos.unwrap(),
            ) {
                ClickKind::Triple
            } else if within_window(now, pos, st.last_click_time, st.last_click_pos) {
                ClickKind::Double
            } else {
                ClickKind::Single
            }
        },
    }
}

/// The button state after a press: cleared by a triple click, marked
/// pending-double by a double click, and reset to a fresh single click
/// otherwise.
pub open spec fn next_click_state(prev: Option<ClickState>, now: u64, pos: Point) -> Option<
    ClickState,
> {
    match classify(prev, now, pos) {
        ClickKind::Triple => None,
        ClickKind::Double => Some(
            ClickState {
                last_click_time: now,
                last_click_pos: pos,
                double_click_time: Some(now),
                double_click_pos: Some(pos),
            },
        ),
        ClickKind::Single => Some(
            ClickState {
                last_click_time: now,
                last_click_pos: pos,
                double_click_time: None,
                double_click_pos: None,
            },
        ),
    }
}

/// The mouse event kind a press emits for its pattern.
pub open spec fn press_kind(kind: ClickKind, b: MouseButton) -> MouseEventKind {
    match kind {
        ClickKind::Single => MouseEventKind::Down(b),
        ClickKind::Double => MouseEventKind::DoubleClick(b),
        ClickKind::Triple => MouseEventKind::TripleClick(b),
    }
}

/// Processes raw input events and synthesizes click patterns.  Each
/// button's pattern state is independent: a click sequence on one
/// button never affects another's detection.
pub struct EventProcessor {
    left: Option<ClickState>,
    right: Option<ClickState>,
    middle: Option<ClickState>,
}

impl EventProcessor {
    /// The pattern state of one button.
    pub closed spec fn state_of(self, b: MouseButton) -> Option<ClickState> {
        match b {
            MouseButton::Left => self.left,
            MouseButton::Right => self.right,
            MouseButton::Middle => self.middle,
        }
    }

    /// A fresh processor: no button has click history.
    pub fn new() -> (r: EventProcessor)
        ensures
            forall|b: MouseButton| r.state_of(b) is None,
    {
        EventProcessor { left: None, right: None, middle: None }
    }

    /// Replace the pattern state of one button.
    fn set_state(&mut self, b: MouseButton, st: Option<ClickState>)
        ensures
            final(self).state_of(b) == st,
            forall|o: MouseButton| o != b ==> final(self).state_of(o) == old(self).state_of(o),
    {
        match b {
            MouseButton::Left => {
                self.left = st;
            },
            MouseButton::Right => {
                self.right = st;
            },
            MouseButton::Middle => {
                self.middle = st;
            },
        }
    }

    /// The pattern state of one button, read out.
    fn get_state(&self, b: MouseButton) -> (r: Option<ClickState>)
        ensures
            r == self.state_of(b),
    {
        match b {
            MouseButton::Left => self.left,
            MouseButton::Right => self.right,
            MouseButton::Middle => self.middle,
        }
    }

    /// Process one raw input event observed at `now_ms` (a monotonic
    /// millisecond clock) into zero or more processed events: the quit
    /// keys turn into `Quit`; a button press turns into a plain press,
    /// a double click or a triple click according to the button's
    /// pattern state, which is updated; every other key, mouse and
    /// resize event passes through unchanged, and nothing else changes
    /// any button's state.
    pub fn process_event(&mut self, event: Event, now_ms: u64) -> (out: Vec<ProcessedEvent>)
        ensures
            match event {
                Event::Key(k) => {
                    &&& *final(self) == *old(self)
                    &&& if k.code == KeyCode::Char('q') || k.code == KeyCode::Esc {
                        out@ =~= seq![ProcessedEvent::Quit]
                    } else {
                        out@ =~= seq![ProcessedEvent::Render(Event::Key(k))]
                    }
                },
                Event::Mouse(m) => {
                    match m.kind {
                        MouseEventKind::Down(b) => {
                            let kind = classify(old(self).state_of(b), now_ms, Point(m.x, m.y));
                            &&& out@ =~= seq![
                                ProcessedEvent::Render(
                                    Event::Mouse(
                                        MouseEvent { x: m.x, y: m.y, kind: press_kind(kind, b) },
                                    ),
                                ),
                            ]
                            &&& final(self).state_of(b) == next_click_state(
                                old(self).state_of(b),
                                now_ms,
                                Point(m.x, m.y),
                            )
                            &&& forall|o: MouseButton|
                                o != b ==> final(self).state_of(o) == old(self).state_of(o)
                        },
                        _ => {
                            &&& *final(self) == *old(self)
                            &&& out@ =~= seq![ProcessedEvent::Render(Event::Mouse(m))]
                        },
                    }
                },
                Event::Resize(w, h) => {
                    &&& *final(self) == *old(self)
                    &&& out@ =~= seq![ProcessedEvent::Render(Event::Resize(w, h))]
                },
                _ => {
                    &&& *final(self) == *old(self)
                    &&& out@ =~= Seq::<ProcessedEvent>::empty()
                },
            },
    {
        let mut out: Vec<ProcessedEvent> = Vec::new();
        match event {
            Event::Key(k) => {
                let quit = match k.code {
                    KeyCode::Char(c) => c == 'q',
                    KeyCode::Esc => true,
                    _ => false,
                };
                if quit {
                    out.push(ProcessedEvent::Quit);
                } else {
                    out.push(ProcessedEvent::Render(Event::Key(k)));
                }
            },
            Event::Mouse(m) => {
                match m.kind {
                    MouseEventKind::Down(b) => {
                        let pos = Point::new(m.x, m.y);
                        let prev = self.get_state(b);
                        let kind = match prev {
                            None => ClickKind::Single,
                            Some(st) => {
                                let triple = match (st.double_click_time, st.double_click_pos) {
                                    (Some(dt), Some(dp)) => {
                                        let dt_ok = (if now_ms >= dt {
                                            now_ms - dt
                                        } else {
                                            0
                                        }) <= DOUBLE_CLICK_TIMEOUT_MS;
                                        dt_ok && pos.dist_sq(dp) <= MAX_DOUBLE_CLICK_DIST_SQ
                                    },
                                    _ => false,
                                };
                                if triple {
                                    ClickKind::Triple
                                } else {
                                    let t_ok = (if now_ms >= st.last_click_time {
                                        now_ms - st.last_click_time
                                    } else {
                                        0
                                    }) <= DOUBLE_CLICK_TIMEOUT_MS;
                                    if t_ok && pos.dist_sq(st.last_click_pos)
                                        <= MAX_DOUBLE_CLICK_DIST_SQ {
                                        ClickKind::Double
                                    } else {
                                        ClickKind::Single
                                    }
                                }
                            },
                        };
                        match kind {
                            ClickKind::Triple => {
                                out.push(
                                    ProcessedEvent::Render(
                                        Event::Mouse(
                                            MouseEvent {
                                                x: m.x,
                                                y: m.y,
                                                kind: MouseEventKind::TripleClick(b),
                                            },
                                        ),
                                    ),
                                );
                                self.set_state(b, None);
                            },
                            ClickKind::Double => {
                                out.push(
                                    ProcessedEvent::Render(
                                        Event::Mouse(
                                            MouseEvent {
                                                x: m.x,
                                                y: m.y,
                                                kind: MouseEventKind::DoubleClick(b),
                                            },
                                        ),
                                    ),
                                );
                                self.set_state(
                                    b,
                                    Some(
                                        ClickState {
                                            last_click_time: now_ms,
                                            last_click_pos: pos,
                                            double_click_time: Some(now_ms),
                                            double_click_pos: Some(pos),
                                        },
                                    ),
                                );
                            },
                            ClickKind::Single => {
                                out.push(
                                    ProcessedEvent::Render(
                                        Event::Mouse(
                                            MouseEvent {
                                                x: m.x,
                                                y: m.y,
                                                kind: MouseEventKind::Down(b),
                                            },
                                        ),
                                    ),
                                );
                                self.set_state(
                                    b,
                                    Some(
                                        ClickState {
                                            last_click_time: now_ms,
                                            last_click_pos: pos,
                                            double_click_time: None,
                                            double_click_pos: None,
                                        },
                                    ),
                                );
                            },
                        }
                    },
                    _ => {
                        out.push(ProcessedEvent::Render(Event::Mouse(m)));
                    },
                }
            },
            Event::Resize(w, h) => {
                out.push(ProcessedEvent::Render(Event::Resize(w, h)));
            },
            _ => {},
        }
        out
    }
}

/// The click patterns one button goes through.  A first press is a
/// plain press.  A second press within the window and distance of the
/// first is a double click, and the same press too far away is a plain
/// press again.  A third press within the window and distance of the
/// double click is a triple click, after which the pattern starts
/// over.
pub proof fn lemma_click_patterns(
    p: Point,
    q: Point,
    t1: u64,
    t2: u64,
    t3: u64,
)
    requires
        t1 <= t2 <= t3,
        t2 - t1 <= DOUBLE_CLICK_TIMEOUT_MS,
        t3 - t2 <= DOUBLE_CLICK_TIMEOUT_MS,
    ensures
        classify(None, t1, p) == ClickKind::Single,
        p.spec_dist_sq(q) <= MAX_DOUBLE_CLICK_DIST_SQ ==> classify(
            next_click_state(None, t1, p),
            t2,
            q,
        ) == ClickKind::Double,
        p.spec_dist_sq(q) > MAX_DOUBLE_CLICK_DIST_SQ ==> classify(
            next_click_state(None, t1, p),
            t2,
            q,
        ) == ClickKind::Single,
        classify(
            next_click_state(next_click_state(None, t1, p), t2, p),
            t3,
            p,
        ) == ClickKind::Triple,
{
    assert(p.spec_dist_sq(p) == 0);
}

} // verus!
