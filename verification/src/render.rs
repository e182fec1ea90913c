//! The pane contract and the event vocabulary delivered to panes, plus
//! the focus-aware dispatcher that walks a layout tree.

use vstd::prelude::*;
use crate::buffer::{Buffer, Grid};
use crate::geom::{rect_covers, Point, Rect};
use crate::input_pane::InputPane;
use crate::layout::{spec_compute, Child, LayoutNode};
use crate::text_pane::TextPane;

verus! {

/// Context handed to a pane for one render or event call: its id, its
/// assigned rectangle, and whether it holds focus.
#[derive(Debug, Clone)]
pub struct PaneContext {
    /// The ID of the pane being rendered.
    pub id: usize,
    /// The rectangle where the pane should be rendered.
    pub rect: Rect,
    /// Whether this pane currently has focus.
    pub focused: bool,
}

/// What a pane answers after handling an event.
#[derive(Debug, Clone, Copy, PartialEq, Eq, Structural)]
pub enum EventResult {
    /// No visible state changed.
    Quiet,
    /// Visible state changed: a re-render is requested.
    Render,
}

/// A keyboard event.
#[derive(Debug, Clone, Copy)]
pub struct KeyEvent {
    pub code: KeyCode,
    pub modifiers: KeyModifiers,
}

/// Key codes.
#[derive(Debug, Clone, Copy, PartialEq, Eq, Structural)]
pub enum KeyCode {
    Char(char),
    Enter,
    Tab,
    Backspace,
    Delete,
    Left,
    Right,
    Up,
    Down,
    Home,
    End,
    PageUp,
    PageDown,
    F(u8),
    Esc,
}

/// Keyboard modifiers.
#[derive(Debug, Clone, Copy, Default)]
pub struct KeyModifiers {
    pub shift: bool,
    pub ctrl: bool,
    pub alt: bool,
}

/// A mouse event.
#[derive(Debug, Clone, Copy)]
pub struct MouseEvent {
    pub x: u16,
    pub y: u16,
    pub kind: MouseEventKind,
}

/// Kind of mouse event.
#[derive(Debug, Clone, Copy, PartialEq, Eq, Structural)]
pub enum MouseEventKind {
    Moved,
    Down(MouseButton),
    Up(MouseButton),
    Drag(MouseButton),
    DoubleClick(MouseButton),
    TripleClick(MouseButton),
    ScrollDown,
    ScrollUp,
}

/// Mouse button.
#[derive(Debug, Clone, Copy, PartialEq, Eq, Structural, Hash)]
pub enum MouseButton {
    Left,
    Right,
    Middle,
}

/// Events that can be sent to panes.
#[derive(Debug, Clone)]
pub enum Event {
    /// A key was pressed.
    Key(KeyEvent),
    /// The mouse was moved or clicked.
    Mouse(MouseEvent),
    /// The terminal was resized.
    Resize(u16, u16),
    /// Focus state changed.
    Focus { focused: bool },
    /// Animation tick for periodic updates.
    Animation,
}

impl From<MouseEvent> for Point {
    /// The position of a mouse event.
    fn from(mouse: MouseEvent) -> (p: Point) {
        Point::new(mouse.x, mouse.y)
    }
}

impl vstd::std_specs::convert::FromSpecImpl<MouseEvent> for Point {
    open spec fn obeys_from_spec() -> bool {
        true
    }

    open spec fn from_spec(mouse: MouseEvent) -> Point {
        Point(mouse.x, mouse.y)
    }
}

/// The contract between the dispatcher and a pane: paint into the
/// shared cell grid, and consume events.  A pane must leave the grid
/// dimensions alone; focus never implies exclusive access:
/// since several panes paint disjoint regions of one grid per frame.
pub trait PaneRenderer {
    /// What this pane's paint call guarantees about the grid, beyond
    /// the shared clauses of `render`; each implementation states its
    /// own effect here.
    spec fn render_post(&self, pre: Grid, post: Grid, ctx: PaneContext) -> bool;

    /// Paint this pane's content into its rectangle of the grid: cells
    /// outside that rectangle are left alone, since several panes paint
    /// disjoint regions of one grid per frame, and the pane's own
    /// effect (`render_post`) is applied.
    fn render(&self, ctx: &PaneContext, buffer: &mut Buffer)
        requires
            old(buffer)@.wf(),
        ensures
            final(buffer)@.wf(),
            final(buffer).width == old(buffer).width,
            final(buffer).height == old(buffer).height,
            forall|cx: int, cy: int|
                #![trigger final(buffer)@.at(cx, cy)]
                0 <= cx < old(buffer).width && 0 <= cy < old(buffer).height && !rect_covers(
                    ctx.rect,
                    cx,
                    cy,
                ) ==> final(buffer)@.at(cx, cy) == old(buffer)@.at(cx, cy),
            self.render_post(old(buffer)@, final(buffer)@, *ctx),
    ;

    /// Consume one event; the answer says whether a re-render is needed.
    fn handle_event(&mut self, ctx: &PaneContext, event: &Event) -> EventResult;
}

/// A pane that paints nothing and ignores every event.
pub struct NoopRenderer;

impl NoopRenderer {
    /// Ignore one event.
    pub fn apply_event(&mut self, _ctx: &PaneContext, _event: &Event) -> (r: EventResult)
        ensures
            r == EventResult::Quiet,
    {
        EventResult::Quiet
    }
}

impl PaneRenderer for NoopRenderer {
    /// A no-op pane changes nothing.
    open spec fn render_post(&self, pre: Grid, post: Grid, ctx: PaneContext) -> bool {
        post == pre
    }

    fn render(&self, _ctx: &PaneContext, _buffer: &mut Buffer) {
    }

    fn handle_event(&mut self, ctx: &PaneContext, event: &Event) -> (r: EventResult) {
        self.apply_event(ctx, event)
    }
}

/// The closed set of pane implementations a layout tree can hold.
pub enum PaneKind {
    /// A selectable read-only text pane.
    Text(TextPane),
    /// An editable multi-line input pane.
    Input(InputPane),
    /// A pane that paints nothing.
    Noop(NoopRenderer),
}

/// What one event call does to a pane of any kind: the kind is
/// preserved and the pane changes as its own event relation says; a
/// no-op pane answers quietly.
pub open spec fn pane_event_post(
    pre: PaneKind,
    post: PaneKind,
    ctx: PaneContext,
    event: Event,
    r: EventResult,
) -> bool {
    match (pre, post) {
        (PaneKind::Text(a), PaneKind::Text(b)) => TextPane::event_post(a, b, ctx, event, r),
        (PaneKind::Input(a), PaneKind::Input(b)) => InputPane::event_post(a, b, ctx, event, r),
        (PaneKind::Noop(_), PaneKind::Noop(_)) => r == EventResult::Quiet,
        _ => false,
    }
}

impl PaneKind {
    /// Hand one event to the pane this kind holds.
    pub fn apply_event(&mut self, ctx: &PaneContext, event: &Event) -> (r: EventResult)
        ensures
            pane_event_post(*old(self), *final(self), *ctx, *event, r),
    {
        match self {
            PaneKind::Text(p) => p.apply_event(ctx, event),
            PaneKind::Input(p) => p.apply_event(ctx, event),
            PaneKind::Noop(p) => p.apply_event(ctx, event),
        }
    }
}

impl PaneRenderer for PaneKind {
    /// The effect of whichever pane this kind holds.
    open spec fn render_post(&self, pre: Grid, post: Grid, ctx: PaneContext) -> bool {
        match self {
            PaneKind::Text(p) => p.render_post(pre, post, ctx),
            PaneKind::Input(p) => p.render_post(pre, post, ctx),
            PaneKind::Noop(p) => p.render_post(pre, post, ctx),
        }
    }

    fn render(&self, ctx: &PaneContext, buffer: &mut Buffer) {
        match self {
            PaneKind::Text(p) => p.render(ctx, buffer),
            PaneKind::Input(p) => p.render(ctx, buffer),
            PaneKind::Noop(p) => p.render(ctx, buffer),
        }
    }

    fn handle_event(&mut self, ctx: &PaneContext, event: &Event) -> (r: EventResult) {
        self.apply_event(ctx, event)
    }
}

/// Whether two layout trees have the same shape: the same splits with
/// the same directions, gutters and child sizing, and the same pane
/// ids at the leaves — only the pane contents may differ.
pub open spec fn same_skeleton(a: LayoutNode, b: LayoutNode) -> bool
    decreases a,
{
    match (a, b) {
        (LayoutNode::Pane { id: id1, .. }, LayoutNode::Pane { id: id2, .. }) => id1 == id2,
        (
            LayoutNode::Split { dir: d1, gutter: g1, children: c1 },
            LayoutNode::Split { dir: d2, gutter: g2, children: c2 },
        ) => {
            &&& d1 == d2
            &&& g1 == g2
            &&& c1@.len() == c2@.len()
            &&& forall|i: int|
                #![auto]
                0 <= i < c1@.len() ==> c1@[i].size == c2@[i].size && same_skeleton(
                    *c1@[i].node,
                    *c2@[i].node,
                )
        },
        _ => false,
    }
}

/// Every tree has its own skeleton.
pub proof fn lemma_same_skeleton_refl(a: LayoutNode)
    ensures
        same_skeleton(a, a),
    decreases a,
{
    match a {
        LayoutNode::Pane { .. } => {},
        LayoutNode::Split { children, .. } => {
            assert forall|i: int| #![auto] 0 <= i < children@.len() implies same_skeleton(
                *children@[i].node,
                *children@[i].node,
            ) by {
                lemma_same_skeleton_refl(*children@[i].node);
            }
        },
    }
}

/// Trees with the same skeleton produce the same leaf rectangles.
pub proof fn lemma_same_skeleton_compute(a: LayoutNode, b: LayoutNode, rect: Rect)
    requires
        same_skeleton(a, b),
    ensures
        spec_compute(a, rect) == spec_compute(b, rect),
    decreases a,
{
    match (a, b) {
        (LayoutNode::Pane { .. }, LayoutNode::Pane { .. }) => {},
        (
            LayoutNode::Split { dir: d1, gutter: g1, children: c1 },
            LayoutNode::Split { dir: d2, gutter: g2, children: c2 },
        ) => {
            assert(c1@.map_values(|c: Child| c.size) =~= c2@.map_values(|c: Child| c.size));
            let sizes = crate::layout::child_sizes(
                c1@.map_values(|c: Child| c.size),
                crate::layout::spec_avail(d1, g1, c1@.len() as int, rect),
            );
            lemma_same_skeleton_compute_kids(
                c1@,
                c2@,
                d1,
                g1,
                rect,
                sizes,
                crate::layout::axis_start(d1, rect),
            );
        },
        _ => {},
    }
}

/// Child lists with the same skeleton produce the same leaf
/// rectangles, walked from any cursor.
proof fn lemma_same_skeleton_compute_kids(
    c1: Seq<Child>,
    c2: Seq<Child>,
    dir: crate::layout::SplitDir,
    gutter: u32,
    rect: Rect,
    sizes: Seq<int>,
    cursor: int,
)
    requires
        c1.len() == c2.len(),
        forall|i: int|
            #![auto]
            0 <= i < c1.len() ==> c1[i].size == c2[i].size && same_skeleton(
                *c1[i].node,
                *c2[i].node,
            ),
    ensures
        crate::layout::spec_compute_kids(c1, dir, gutter, rect, sizes, cursor)
            == crate::layout::spec_compute_kids(c2, dir, gutter, rect, sizes, cursor),
    decreases c1,
{
    if c1.len() > 0 {
        let len = sizes[0];
        let r = crate::layout::child_rect(dir, rect, cursor, len);
        lemma_same_skeleton_compute(*c1[0].node, *c2[0].node, r);
        assert(forall|i: int|
            #![auto]
            0 <= i < c1.drop_first().len() ==> c1.drop_first()[i] == c1[i + 1]
                && c2.drop_first()[i] == c2[i + 1]);
        lemma_same_skeleton_compute_kids(
            c1.drop_first(),
            c2.drop_first(),
            dir,
            gutter,
            rect,
            sizes.drop_first(),
            crate::layout::sat32(crate::layout::sat32(cursor + len) + gutter),
        );
    }
}

/// The same skeleton keeps a tree well formed.
pub proof fn lemma_same_skeleton_wf(a: LayoutNode, b: LayoutNode)
    requires
        same_skeleton(a, b),
        a.wf(),
    ensures
        b.wf(),
    decreases a,
{
    match (a, b) {
        (
            LayoutNode::Split { children: c1, .. },
            LayoutNode::Split { children: c2, .. },
        ) => {
            assert forall|i: int| 0 <= i < c2@.len() implies #[trigger] c2@[i].size.wf()
                && c2@[i].node.wf() by {
                lemma_same_skeleton_wf(*c1@[i].node, *c2@[i].node);
            }
        },
        _ => {},
    }
}

/// The rectangle the dispatcher hands a pane, looked up in the cached
/// list: the first entry for its id, or the zero rectangle.
pub open spec fn ctx_rect_of(rects: Seq<(usize, Rect)>, id: usize) -> Rect {
    match spec_rect_of(rects, id, 0) {
        Some(r) => r,
        None => Rect { x: 0u32, y: 0u32, w: 0u32, h: 0u32 },
    }
}

/// What forwarding one event does to a layout tree: every leaf's pane
/// is handed the event once, with its id, its cached rectangle and its
/// focus flag, and changes as its own event relation says; splits keep
/// their direction, gutter and child sizing; `needs` is true exactly
/// when some leaf answered `Render`.
pub open spec fn forward_post(
    pre: LayoutNode,
    post: LayoutNode,
    rects: Seq<(usize, Rect)>,
    focused: Option<usize>,
    event: Event,
    needs: bool,
) -> bool
    decreases pre,
{
    match (pre, post) {
        (LayoutNode::Pane { id: i1, renderer: p1 }, LayoutNode::Pane { id: i2, renderer: p2 }) => {
            &&& i1 == i2
            &&& pane_event_post(
                p1,
                p2,
                PaneContext { id: i1, rect: ctx_rect_of(rects, i1), focused: focused == Some(i1) },
                event,
                if needs {
                    EventResult::Render
                } else {
                    EventResult::Quiet
                },
            )
        },
        (
            LayoutNode::Split { dir: d1, gutter: g1, children: c1 },
            LayoutNode::Split { dir: d2, gutter: g2, children: c2 },
        ) => {
            &&& d1 == d2
            &&& g1 == g2
            &&& c1@.len() == c2@.len()
            &&& exists|flags: Seq<bool>|
                #![trigger flags.len()]
                flags.len() == c1@.len() && needs == (exists|j: int|
                    #![trigger flags[j]]
                    0 <= j < flags.len() && flags[j]) && forall|i: int|
                    #![trigger flags[i]]
                    0 <= i < c1@.len() ==> c1@[i].size == c2@[i].size && forward_post(
                        *c1@[i].node,
                        *c2@[i].node,
                        rects,
                        focused,
                        event,
                        flags[i],
                    )
        },
        _ => false,
    }
}

/// The `i`-th child of a split node (an arbitrary child elsewhere).
pub open spec fn flags_child(node: LayoutNode, i: int) -> Child {
    match node {
        LayoutNode::Split { children, .. } => children@[i],
        _ => arbitrary(),
    }
}

/// Whether any cached pane rectangle covers the cell.
pub open spec fn covered_by_any(rects: Seq<(usize, Rect)>, cx: int, cy: int) -> bool {
    exists|k: int| 0 <= k < rects.len() && rect_covers(#[trigger] rects[k].1, cx, cy)
}

/// The first pane rectangle recorded for an id, if any.
pub open spec fn spec_rect_of(rects: Seq<(usize, Rect)>, id: usize, i: int) -> Option<Rect>
    decreases rects.len() - i,
    when 0 <= i
{
    if i >= rects.len() {
        None
    } else if rects[i].0 == id {
        Some(rects[i].1)
    } else {
        spec_rect_of(rects, id, i + 1)
    }
}

/// The first recorded pane whose rectangle holds a position, if any.
pub open spec fn spec_pane_at(rects: Seq<(usize, Rect)>, x: u16, y: u16, i: int) -> Option<usize>
    decreases rects.len() - i,
    when 0 <= i
{
    if i >= rects.len() {
        None
    } else if rects[i].1.spec_contains(Point(x, y)) {
        Some(rects[i].0)
    } else {
        spec_pane_at(rects, x, y, i + 1)
    }
}

/// A rectangle looked up by id is one of the cached rectangles.
proof fn lemma_rect_of_member(rects: Seq<(usize, Rect)>, id: usize, i: int)
    requires
        0 <= i,
        spec_rect_of(rects, id, i) is Some,
    ensures
        exists|k: int|
            i <= k < rects.len() && #[trigger] rects[k] == (id, spec_rect_of(rects, id, i).unwrap()),
    decreases rects.len() - i,
{
    if i < rects.len() {
        if rects[i].0 == id {
            assert(rects[i as int] == (id, spec_rect_of(rects, id, i).unwrap()));
        } else {
            lemma_rect_of_member(rects, id, i + 1);
        }
    }
}

/// What one render walk does to the grid: every leaf with a cached
/// rectangle paints as its own paint relation says, with its id, its
/// cached rectangle and its focus flag, in tree order — witnessed by
/// the chain of grids between consecutive children; a leaf without a
/// cached rectangle and the splits themselves paint nothing.
pub open spec fn render_walk(
    node: LayoutNode,
    rects: Seq<(usize, Rect)>,
    focused: Option<usize>,
    g_in: Grid,
    g_out: Grid,
) -> bool
    decreases node,
{
    match node {
        LayoutNode::Pane { id, renderer } => {
            match spec_rect_of(rects, id, 0) {
                Some(rect) => renderer.render_post(
                    g_in,
                    g_out,
                    PaneContext { id, rect, focused: focused == Some(id) },
                ),
                None => g_out == g_in,
            }
        },
        LayoutNode::Split { children, .. } => exists|grids: Seq<Grid>|
            #![trigger grids.len()]
            grids.len() == children@.len() + 1 && grids[0] == g_in && grids[children@.len() as int]
                == g_out && forall|i: int|
                #![trigger grids[i]]
                0 <= i < children@.len() ==> render_walk(
                    *children@[i].node,
                    rects,
                    focused,
                    grids[i],
                    grids[i + 1],
                ),
    }
}

/// The focus-aware dispatcher: it recomputes the leaf rectangles of a
/// layout tree every pass, tracks keyboard focus, renders every leaf
/// through the pane contract and forwards events to every leaf.  The
/// rectangle map is a derived cache, rebuilt from the layout engine
/// each pass, never a source of truth.
pub struct RenderContext {
    /// The currently focused pane ID.
    pub focused_pane: Option<usize>,
    /// Cached pane rectangles from the last computation.
    pub pane_rects: Vec<(usize, Rect)>,
}

impl RenderContext {
    /// A fresh context: nothing focused, no cached rectangles.
    pub fn new() -> (r: RenderContext)
        ensures
            r.focused_pane is None,
            r.pane_rects@ == Seq::<(usize, Rect)>::empty(),
    {
        RenderContext { focused_pane: None, pane_rects: Vec::new() }
    }

    /// Give a pane keyboard focus.
    pub fn set_focused_pane(&mut self, pane_id: usize)
        ensures
            final(self).focused_pane == Some(pane_id),
            final(self).pane_rects == old(self).pane_rects,
    {
        self.focused_pane = Some(pane_id);
    }

    /// Drop keyboard focus.
    pub fn clear_focus(&mut self)
        ensures
            final(self).focused_pane is None,
            final(self).pane_rects == old(self).pane_rects,
    {
        self.focused_pane = None;
    }

    /// Whether a pane holds keyboard focus.
    pub fn is_focused(&self, pane_id: usize) -> (r: bool)
        ensures
            r == (self.focused_pane == Some(pane_id)),
    {
        match self.focused_pane {
            Some(id) => id == pane_id,
            None => false,
        }
    }

    /// The first cached pane whose rectangle holds a position, if any.
    pub fn pane_at_position(&self, x: u16, y: u16) -> (r: Option<usize>)
        ensures
            r == spec_pane_at(self.pane_rects@, x, y, 0),
    {
        let n = self.pane_rects.len();
        let mut i: usize = 0;
        while i < n
            invariant
                n == self.pane_rects@.len(),
                i <= n,
                spec_pane_at(self.pane_rects@, x, y, 0) == spec_pane_at(
                    self.pane_rects@,
                    x,
                    y,
                    i as int,
                ),
            decreases n - i,
        {
            let (pane_id, rect) = self.pane_rects[i];
            if rect.contains(Point::new(x, y)) {
                return Some(pane_id);
            }
            i = i + 1;
        }
        None
    }

    /// The first cached rectangle recorded for a pane id, if any.
    fn rect_of(&self, id: usize) -> (r: Option<Rect>)
        ensures
            r == spec_rect_of(self.pane_rects@, id, 0),
    {
        let n = self.pane_rects.len();
        let mut i: usize = 0;
        while i < n
            invariant
                n == self.pane_rects@.len(),
                i <= n,
                spec_rect_of(self.pane_rects@, id, 0) == spec_rect_of(
                    self.pane_rects@,
                    id,
                    i as int,
                ),
            decreases n - i,
        {
            let (pane_id, rect) = self.pane_rects[i];
            if pane_id == id {
                return Some(rect);
            }
            i = i + 1;
        }
        None
    }

    /// Render a layout tree into a buffer: the leaf rectangles are
    /// recomputed from the layout engine and cached, then every leaf
    /// paints into its rectangle through the pane contract; cells no
    /// computed pane rectangle covers — the gutters and any slack — are
    /// left alone.
    pub fn render(&mut self, layout: &LayoutNode, buffer: &mut Buffer)
        requires
            layout.wf(),
            old(buffer)@.wf(),
        ensures
            final(self).pane_rects@ == spec_compute(
                *layout,
                Rect { x: 0u32, y: 0u32, w: old(buffer).width as u32, h: old(buffer).height as u32 },
            ),
            final(self).focused_pane == old(self).focused_pane,
            final(buffer)@.wf(),
            final(buffer).width == old(buffer).width,
            final(buffer).height == old(buffer).height,
            forall|cx: int, cy: int|
                #![trigger final(buffer)@.at(cx, cy)]
                0 <= cx < old(buffer).width && 0 <= cy < old(buffer).height && !covered_by_any(
                    spec_compute(
                        *layout,
                        Rect {
                            x: 0u32,
                            y: 0u32,
                            w: old(buffer).width as u32,
                            h: old(buffer).height as u32,
                        },
                    ),
                    cx,
                    cy,
                ) ==> final(buffer)@.at(cx, cy) == old(buffer)@.at(cx, cy),
            render_walk(
                *layout,
                spec_compute(
                    *layout,
                    Rect {
                        x: 0u32,
                        y: 0u32,
                        w: old(buffer).width as u32,
                        h: old(buffer).height as u32,
                    },
                ),
                old(self).focused_pane,
                old(buffer)@,
                final(buffer)@,
            ),
    {
        let rect = buffer.area();
        let panes = layout.compute(rect);
        self.pane_rects = panes;
        self.render_node(layout, buffer);
    }

    /// Walk the tree depth first, painting every leaf into its cached
    /// rectangle through the pane contract, in tree order; splits have
    /// no visual representation of their own, so cells no cached pane
    /// rectangle covers are left alone.
    #[verifier::loop_isolation(false)]
    fn render_node(&self, node: &LayoutNode, buffer: &mut Buffer)
        requires
            old(buffer)@.wf(),
        ensures
            final(buffer)@.wf(),
            final(buffer).width == old(buffer).width,
            final(buffer).height == old(buffer).height,
            render_walk(*node, self.pane_rects@, self.focused_pane, old(buffer)@, final(buffer)@),
            forall|cx: int, cy: int|
                #![trigger final(buffer)@.at(cx, cy)]
                0 <= cx < old(buffer).width && 0 <= cy < old(buffer).height && !covered_by_any(
                    self.pane_rects@,
                    cx,
                    cy,
                ) ==> final(buffer)@.at(cx, cy) == old(buffer)@.at(cx, cy),
        decreases *node,
    {
        match node {
            LayoutNode::Pane { id, renderer } => {
                match self.rect_of(*id) {
                    Some(rect) => {
                        let ctx = PaneContext { id: *id, rect, focused: self.is_focused(*id) };
                        renderer.render(&ctx, buffer);
                        proof {
                            lemma_rect_of_member(self.pane_rects@, *id, 0);
                            assert forall|cx: int, cy: int|
                                0 <= cx < old(buffer).width && 0 <= cy < old(buffer).height
                                    && !covered_by_any(self.pane_rects@, cx, cy) implies buffer@.at(
                                cx,
                                cy,
                            ) == old(buffer)@.at(cx, cy) by {
                                if rect_covers(rect, cx, cy) {
                                    let k = choose|k: int|
                                        0 <= k < self.pane_rects@.len()
                                            && #[trigger] self.pane_rects@[k] == (*id, rect);
                                    assert(rect_covers(self.pane_rects@[k].1, cx, cy));
                                }
                            }
                        }
                    },
                    None => {},
                }
            },
            LayoutNode::Split { children, .. } => {
                let ghost g_start = buffer@;
                let ghost mut grids: Seq<Grid> = seq![g_start];
                let n = children.len();
                for i in 0..n
                    invariant
                        buffer@.wf(),
                        buffer.width == old(buffer).width,
                        buffer.height == old(buffer).height,
                        grids.len() == i + 1,
                        grids[0] == g_start,
                        grids[i as int] == buffer@,
                        forall|j: int|
                            #![trigger grids[j]]
                            0 <= j < i ==> render_walk(
                                *children@[j].node,
                                self.pane_rects@,
                                self.focused_pane,
                                grids[j],
                                grids[j + 1],
                            ),
                        forall|cx: int, cy: int|
                            #![trigger buffer@.at(cx, cy)]
                            0 <= cx < old(buffer).width && 0 <= cy < old(buffer).height
                                && !covered_by_any(self.pane_rects@, cx, cy) ==> buffer@.at(cx, cy)
                                == old(buffer)@.at(cx, cy),
                {
                    let ghost g_prev = buffer@;
                    self.render_node(&children[i].node, buffer);
                    proof {
                        let ghost grids0 = grids;
                        grids = grids.push(buffer@);
                        assert(grids[i as int + 1] == buffer@);
                        assert(forall|j: int| 0 <= j <= i ==> #[trigger] grids[j] == grids0[j]);
                        assert(render_walk(
                            *children@[i as int].node,
                            self.pane_rects@,
                            self.focused_pane,
                            grids[i as int],
                            grids[i as int + 1],
                        ));
                    }
                }
                proof {
                    assert(grids.len() == children@.len() + 1);
                    assert(grids[children@.len() as int] == buffer@);
                    assert(render_walk(
                        *node,
                        self.pane_rects@,
                        self.focused_pane,
                        g_start,
                        buffer@,
                    )) by {
                        assert(grids.len() == children@.len() + 1 && grids[0] == g_start
                            && grids[children@.len() as int] == buffer@ && forall|i: int|
                            #![trigger grids[i]]
                            0 <= i < children@.len() ==> render_walk(
                                *children@[i].node,
                                self.pane_rects@,
                                self.focused_pane,
                                grids[i],
                                grids[i + 1],
                            ));
                    }
                }
            },
        }
    }

    /// Forward one event to the layout tree.  The leaf rectangles are
    /// recomputed and cached first.  A button press over a pane switches
    /// focus to it and, when that changes the focus, requests a
    /// re-render.  The event then reaches every leaf through the pane
    /// contract, regardless of focus, and the answer is true exactly
    /// when focus switched or some leaf requested a re-render.  The
    /// tree keeps its shape; only pane contents change, each as its own
    /// event relation says.
    pub fn forward_event(&mut self, layout: &mut LayoutNode, event: &Event, screen_rect: Rect) -> (r:
        bool)
        requires
            old(layout).wf(),
        ensures
            final(layout).wf(),
            same_skeleton(*old(layout), *final(layout)),
            final(self).pane_rects@ == spec_compute(*old(layout), screen_rect),
            final(self).pane_rects@ == spec_compute(*final(layout), screen_rect),
            ({
                let hit = match event {
                    Event::Mouse(m) => match m.kind {
                        MouseEventKind::Down(_) => spec_pane_at(
                            spec_compute(*old(layout), screen_rect),
                            m.x,
                            m.y,
                            0,
                        ),
                        _ => None,
                    },
                    _ => None,
                };
                let focus_changed = hit is Some && old(self).focused_pane != hit;
                &&& final(self).focused_pane == (if hit is Some {
                    hit
                } else {
                    old(self).focused_pane
                })
                &&& exists|needs: bool|
                    #![trigger forward_post(
                        *old(layout),
                        *final(layout),
                        spec_compute(*old(layout), screen_rect),
                        final(self).focused_pane,
                        *event,
                        needs,
                    )]
                    forward_post(
                        *old(layout),
                        *final(layout),
                        spec_compute(*old(layout), screen_rect),
                        final(self).focused_pane,
                        *event,
                        needs,
                    ) && r == (focus_changed || needs)
            }),
    {
        let panes = layout.compute(screen_rect);
        self.pane_rects = panes;
        let mut focus_changed = false;
        match event {
            Event::Mouse(mouse_event) => {
                match mouse_event.kind {
                    MouseEventKind::Down(_) => {
                        match self.pane_at_position(mouse_event.x, mouse_event.y) {
                            Some(pane_id) => {
                                let was_focused = self.is_focused(pane_id);
                                self.focused_pane = Some(pane_id);
                                if !was_focused {
                                    focus_changed = true;
                                }
                            },
                            None => {},
                        }
                    },
                    _ => {},
                }
            },
            _ => {},
        }
        let (needs, _changed) = Self::forward_event_node(self, layout, event);
        proof {
            lemma_same_skeleton_compute(*old(layout), *layout, screen_rect);
        }
        focus_changed || needs
    }

    /// Forward one event to every leaf of a subtree, in place, and say
    /// whether any leaf requested a re-render.
    fn forward_event_node(&self, layout: &mut LayoutNode, event: &Event) -> (r: (bool, bool))
        requires
            old(layout).wf(),
        ensures
            final(layout).wf(),
            same_skeleton(*old(layout), *final(layout)),
            forward_post(
                *old(layout),
                *final(layout),
                self.pane_rects@,
                self.focused_pane,
                *event,
                r.0,
            ),
        decreases *old(layout),
    {
        let mut taken = LayoutNode::Pane { id: 0, renderer: PaneKind::Noop(NoopRenderer) };
        core::mem::swap(layout, &mut taken);
        let (new_node, needs) = self.forward_event_value(taken, event);
        proof {
            lemma_same_skeleton_wf(*old(layout), new_node);
        }
        *layout = new_node;
        (needs, true)
    }

    /// Forward one event to every leaf of a subtree taken by value,
    /// returning the updated subtree and whether any leaf requested a
    /// re-render.
    #[verifier::loop_isolation(false)]
    fn forward_event_value(&self, node: LayoutNode, event: &Event) -> (r: (LayoutNode, bool))
        ensures
            same_skeleton(node, r.0),
            forward_post(node, r.0, self.pane_rects@, self.focused_pane, *event, r.1),
        decreases node,
    {
        match node {
            LayoutNode::Pane { id, renderer } => {
                let mut renderer = renderer;
                let rect = match self.rect_of(id) {
                    Some(rect) => rect,
                    None => Rect { x: 0, y: 0, w: 0, h: 0 },
                };
                let ctx = PaneContext { id, rect, focused: self.is_focused(id) };
                let res = renderer.apply_event(&ctx, event);
                let needs = matches!(res, EventResult::Render);
                proof {
                    assert((if needs {
                        EventResult::Render
                    } else {
                        EventResult::Quiet
                    }) == res);
                }
                (LayoutNode::Pane { id, renderer }, needs)
            },
            LayoutNode::Split { dir, gutter, children } => {
                let ghost orig = children@;
                let mut children = children;
                let mut needs = false;
                let ghost mut flags: Seq<bool> = Seq::empty();
                let n = children.len();
                let mut i: usize = 0;
                while i < n
                    invariant
                        children@.len() == n,
                        n == orig.len(),
                        i <= n,
                        flags.len() == i,
                        needs == (exists|j: int| 0 <= j < i && flags[j]),
                        forall|j: int|
                            #![auto]
                            i <= j < n ==> children@[j] == orig[j],
                        forall|j: int|
                            #![auto]
                            0 <= j < i ==> children@[j].size == orig[j].size && same_skeleton(
                                *orig[j].node,
                                *children@[j].node,
                            ) && forward_post(
                                *orig[j].node,
                                *children@[j].node,
                                self.pane_rects@,
                                self.focused_pane,
                                *event,
                                flags[j],
                            ),
                    decreases n - i,
                {
                    let child = children.remove(i);
                    proof {
                        assert(child == orig[i as int]);
                        assert(decreases_to!(orig[i as int] => *orig[i as int].node));
                    }
                    let size = child.size;
                    let (new_node, child_needs) = self.forward_event_value(*child.node, event);
                    children.insert(i, Child { node: Box::new(new_node), size });
                    let ghost needs0 = needs;
                    let ghost flags0 = flags;
                    needs = needs || child_needs;
                    proof {
                        flags = flags.push(child_needs);
                        assert(flags[i as int] == child_needs);
                        assert(forall|j: int| 0 <= j < i ==> #[trigger] flags[j] == flags0[j]);
                        if needs0 {
                            let w = choose|j: int| 0 <= j < i && flags0[j];
                            assert(flags[w]);
                        }
                        if needs {
                            assert(exists|j: int| 0 <= j < i + 1 && flags[j]) by {
                                if child_needs {
                                    assert(flags[i as int]);
                                } else {
                                    let w = choose|j: int| 0 <= j < i && flags0[j];
                                    assert(flags[w]);
                                }
                            }
                        }
                    }
                    i = i + 1;
                }
                let result = LayoutNode::Split { dir, gutter, children };
                proof {
                    let rects = self.pane_rects@;
                    let focused = self.focused_pane;
                    assert(forward_post(node, result, rects, focused, *event, needs)) by {
                        assert(flags.len() == orig.len());
                        assert(needs == (exists|j: int| 0 <= j < flags.len() && flags[j]));
                        assert(forall|i: int|
                            #![auto]
                            0 <= i < orig.len() ==> orig[i].size == flags_child(result, i).size
                                && forward_post(
                                *orig[i].node,
                                *flags_child(result, i).node,
                                rects,
                                focused,
                                *event,
                                flags[i],
                            ));
                    };
                }
                (result, needs)
            },
        }
    }
}

} // verus!
