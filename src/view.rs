//! Views (wedges between a shallow and a steep line) and the bump history
//! that each boundary line keeps.
//!
//! Bumps live in an arena shared by all views of one quadrant sweep; a view
//! refers to the newest bump of each chain by index, and every bump refers to
//! an older one, so chains are shared between views without copying.
use vstd::prelude::*;
use vstd::view::View as _;

use crate::geometry::{coord_ok, Line};

verus! {

/// One touch point in the history of a boundary line.
#[derive(Clone, Copy, Debug, PartialEq, Eq, Structural)]
pub struct ViewBump {
    pub x: i64,
    pub y: i64,
    /// Index of the previous bump of the same chain in the arena.
    pub parent: Option<usize>,
}

impl ViewBump {
    pub fn new(x: i64, y: i64, parent: Option<usize>) -> (r: Self)
        ensures
            r == (ViewBump { x, y, parent }),
    {
        ViewBump { x, y, parent }
    }
}

/// A wedge of vision between two lines, with the head of each bump chain.
#[derive(Clone, Copy, Debug, PartialEq, Eq, Structural)]
pub struct View {
    pub shallow_line: Line,
    pub steep_line: Line,
    pub shallow_bump: Option<usize>,
    pub steep_bump: Option<usize>,
}

impl View {
    pub fn new(shallow_line: Line, steep_line: Line) -> (r: Self)
        ensures
            r == (View { shallow_line, steep_line, shallow_bump: None, steep_bump: None }),
    {
        View { shallow_line, steep_line, shallow_bump: None, steep_bump: None }
    }
}

/// A link to an arena entry older than position `n`.
pub open spec fn link_ok(link: Option<usize>, n: int) -> bool {
    match link {
        Some(p) => p < n,
        None => true,
    }
}

pub open spec fn link_rank(link: Option<usize>) -> int {
    match link {
        Some(p) => p + 1,
        None => 0,
    }
}

/// Every bump has bounded coordinates and links only to older bumps.
pub open spec fn arena_wf(arena: Seq<ViewBump>) -> bool {
    forall|i: int|
        0 <= i < arena.len() ==> coord_ok(#[trigger] arena[i].x as int) && coord_ok(arena[i].y as int)
            && link_ok(arena[i].parent, i)
}

pub open spec fn view_wf(v: View, n: int) -> bool {
    v.shallow_line.wf() && v.steep_line.wf() && link_ok(v.shallow_bump, n) && link_ok(
        v.steep_bump,
        n,
    )
}

/// The arena is well formed and every view links into it.
pub open spec fn views_wf(views: Seq<View>, arena: Seq<ViewBump>) -> bool {
    arena_wf(arena) && forall|i: int| 0 <= i < views.len() ==> view_wf(#[trigger] views[i], arena.len() as int)
}

/// Walks a chain from `link` back to its oldest bump, moving the start of
/// `l` to each bump found strictly above the line as it stands then.
pub open spec fn pull_shallow(l: Line, arena: Seq<ViewBump>, link: Option<usize>) -> Line
    decreases link_rank(link),
{
    match link {
        Some(c) => if c < arena.len() && link_ok(arena[c as int].parent, c as int) {
            let b = arena[c as int];
            let next = if l.slope_at(b.x as int, b.y as int) < 0 {
                Line { xi: b.x, yi: b.y, ..l }
            } else {
                l
            };
            pull_shallow(next, arena, b.parent)
        } else {
            l
        },
        None => l,
    }
}

/// As `pull_shallow`, for bumps strictly below the line.
pub open spec fn pull_steep(l: Line, arena: Seq<ViewBump>, link: Option<usize>) -> Line
    decreases link_rank(link),
{
    match link {
        Some(c) => if c < arena.len() && link_ok(arena[c as int].parent, c as int) {
            let b = arena[c as int];
            let next = if l.slope_at(b.x as int, b.y as int) > 0 {
                Line { xi: b.x, yi: b.y, ..l }
            } else {
                l
            };
            pull_steep(next, arena, b.parent)
        } else {
            l
        },
        None => l,
    }
}

/// The arena after a bump at `(x, y)` is added to the shallow chain of `v`.
pub open spec fn arena_after_shallow(v: View, arena: Seq<ViewBump>, x: i64, y: i64) -> Seq<ViewBump> {
    arena.push(ViewBump { x, y, parent: v.shallow_bump })
}

/// The arena after a bump at `(x, y)` is added to the steep chain of `v`.
pub open spec fn arena_after_steep(v: View, arena: Seq<ViewBump>, x: i64, y: i64) -> Seq<ViewBump> {
    arena.push(ViewBump { x, y, parent: v.steep_bump })
}

/// `v` with its shallow line tightened to end at `(x, y)`, its start pulled
/// by the steep chain.
pub open spec fn shallow_bumped(v: View, arena: Seq<ViewBump>, x: i64, y: i64) -> View {
    View {
        shallow_line: pull_shallow(
            Line { xf: x, yf: y, ..v.shallow_line },
            arena_after_shallow(v, arena, x, y),
            v.steep_bump,
        ),
        shallow_bump: Some(arena.len() as usize),
        ..v
    }
}

/// `v` with its steep line tightened to end at `(x, y)`, its start pulled by
/// the shallow chain.
pub open spec fn steep_bumped(v: View, arena: Seq<ViewBump>, x: i64, y: i64) -> View {
    View {
        steep_line: pull_steep(
            Line { xf: x, yf: y, ..v.steep_line },
            arena_after_steep(v, arena, x, y),
            v.shallow_bump,
        ),
        steep_bump: Some(arena.len() as usize),
        ..v
    }
}

/// The two lines coincide and pass through a unit corner next to the origin:
/// the wedge has no width left.
pub open spec fn degenerate(v: View) -> bool {
    v.shallow_line.collinear_with(v.steep_line) && (v.shallow_line.slope_at(0, 1) == 0
        || v.shallow_line.slope_at(1, 0) == 0)
}

/// The list with view `k` dropped if it is degenerate.
pub open spec fn settle(views: Seq<View>, k: int) -> Seq<View> {
    if degenerate(views[k]) {
        views.remove(k)
    } else {
        views
    }
}

pub proof fn lemma_pull_shallow_wf(l: Line, arena: Seq<ViewBump>, link: Option<usize>)
    requires
        l.wf(),
        arena_wf(arena),
    ensures
        pull_shallow(l, arena, link).wf(),
        pull_shallow(l, arena, link).xf == l.xf,
        pull_shallow(l, arena, link).yf == l.yf,
    decreases link_rank(link),
{
    if let Some(c) = link {
        if c < arena.len() && link_ok(arena[c as int].parent, c as int) {
            let b = arena[c as int];
            let next = if l.slope_at(b.x as int, b.y as int) < 0 {
                Line { xi: b.x, yi: b.y, ..l }
            } else {
                l
            };
            lemma_pull_shallow_wf(next, arena, b.parent);
        }
    }
}

pub proof fn lemma_pull_steep_wf(l: Line, arena: Seq<ViewBump>, link: Option<usize>)
    requires
        l.wf(),
        arena_wf(arena),
    ensures
        pull_steep(l, arena, link).wf(),
        pull_steep(l, arena, link).xf == l.xf,
        pull_steep(l, arena, link).yf == l.yf,
    decreases link_rank(link),
{
    if let Some(c) = link {
        if c < arena.len() && link_ok(arena[c as int].parent, c as int) {
            let b = arena[c as int];
            let next = if l.slope_at(b.x as int, b.y as int) > 0 {
                Line { xi: b.x, yi: b.y, ..l }
            } else {
                l
            };
            lemma_pull_steep_wf(next, arena, b.parent);
        }
    }
}

/// Tightens the shallow line of view `k` to end at `(x, y)`, records the bump,
/// and re-derives the line's start from the steep chain.
pub fn add_shallow_bump(
    x: i64,
    y: i64,
    active_views: &mut Vec<View>,
    arena: &mut Vec<ViewBump>,
    view_index: usize,
)
    requires
        views_wf(old(active_views)@, old(arena)@),
        view_index < old(active_views)@.len(),
        coord_ok(x as int),
        coord_ok(y as int),
    ensures
        final(arena)@ == arena_after_shallow(old(active_views)@[view_index as int], old(arena)@, x, y),
        final(active_views)@ == old(active_views)@.update(
            view_index as int,
            shallow_bumped(old(active_views)@[view_index as int], old(arena)@, x, y),
        ),
        views_wf(final(active_views)@, final(arena)@),
{
    let v = active_views[view_index];
    let ghost a0 = arena@;
    let head = arena.len();
    arena.push(ViewBump::new(x, y, v.shallow_bump));
    let mut line = Line { xf: x, yf: y, ..v.shallow_line };
    let mut cur = v.steep_bump;
    assert(arena_wf(arena@)) by {
        assert forall|i: int| 0 <= i < arena@.len() implies coord_ok(#[trigger] arena@[i].x as int)
            && coord_ok(arena@[i].y as int) && link_ok(arena@[i].parent, i) by {
            if i < a0.len() {
                assert(arena@[i] == a0[i]);
            }
        }
    }
    while cur.is_some()
        invariant
            arena_wf(arena@),
            line.wf(),
            link_ok(cur, arena@.len() as int),
            pull_shallow(line, arena@, cur) == pull_shallow(
                Line { xf: x, yf: y, ..v.shallow_line },
                arena@,
                v.steep_bump,
            ),
        decreases link_rank(cur),
    {
        let c = cur.unwrap();
        let b = arena[c];
        if line.p_above(b.x, b.y) {
            line.xi = b.x;
            line.yi = b.y;
        }
        cur = b.parent;
    }
    let nv = View { shallow_line: line, shallow_bump: Some(head), ..v };
    proof {
        lemma_pull_shallow_wf(Line { xf: x, yf: y, ..v.shallow_line }, arena@, v.steep_bump);
    }
    active_views.set(view_index, nv);
    assert forall|i: int| 0 <= i < active_views@.len() implies view_wf(
        #[trigger] active_views@[i],
        arena@.len() as int,
    ) by {
        if i != view_index {
            assert(view_wf(old(active_views)@[i], a0.len() as int));
        }
    }
}

/// Tightens the steep line of view `k` to end at `(x, y)`, records the bump,
/// and re-derives the line's start from the shallow chain.
pub fn add_steep_bump(
    x: i64,
    y: i64,
    active_views: &mut Vec<View>,
    arena: &mut Vec<ViewBump>,
    view_index: usize,
)
    requires
        views_wf(old(active_views)@, old(arena)@),
        view_index < old(active_views)@.len(),
        coord_ok(x as int),
        coord_ok(y as int),
    ensures
        final(arena)@ == arena_after_steep(old(active_views)@[view_index as int], old(arena)@, x, y),
        final(active_views)@ == old(active_views)@.update(
            view_index as int,
            steep_bumped(old(active_views)@[view_index as int], old(arena)@, x, y),
        ),
        views_wf(final(active_views)@, final(arena)@),
{
    let v = active_views[view_index];
    let ghost a0 = arena@;
    let head = arena.len();
    arena.push(ViewBump::new(x, y, v.steep_bump));
    let mut line = Line { xf: x, yf: y, ..v.steep_line };
    let mut cur = v.shallow_bump;
    assert(arena_wf(arena@)) by {
        assert forall|i: int| 0 <= i < arena@.len() implies coord_ok(#[trigger] arena@[i].x as int)
            && coord_ok(arena@[i].y as int) && link_ok(arena@[i].parent, i) by {
            if i < a0.len() {
                assert(arena@[i] == a0[i]);
            }
        }
    }
    while cur.is_some()
        invariant
            arena_wf(arena@),
            line.wf(),
            link_ok(cur, arena@.len() as int),
            pull_steep(line, arena@, cur) == pull_steep(
                Line { xf: x, yf: y, ..v.steep_line },
                arena@,
                v.shallow_bump,
            ),
        decreases link_rank(cur),
    {
        let c = cur.unwrap();
        let b = arena[c];
        if line.p_below(b.x, b.y) {
            line.xi = b.x;
            line.yi = b.y;
        }
        cur = b.parent;
    }
    let nv = View { steep_line: line, steep_bump: Some(head), ..v };
    proof {
        lemma_pull_steep_wf(Line { xf: x, yf: y, ..v.steep_line }, arena@, v.shallow_bump);
    }
    active_views.set(view_index, nv);
    assert forall|i: int| 0 <= i < active_views@.len() implies view_wf(
        #[trigger] active_views@[i],
        arena@.len() as int,
    ) by {
        if i != view_index {
            assert(view_wf(old(active_views)@[i], a0.len() as int));
        }
    }
}

/// Drops view `k` when it has collapsed to zero width; tells whether it stays.
pub fn check_view(active_views: &mut Vec<View>, view_index: usize) -> (kept: bool)
    requires
        view_index < old(active_views)@.len(),
        old(active_views)@[view_index as int].shallow_line.wf(),
        old(active_views)@[view_index as int].steep_line.wf(),
    ensures
        kept == !degenerate(old(active_views)@[view_index as int]),
        final(active_views)@ == settle(old(active_views)@, view_index as int),
{
    let shallow_line = active_views[view_index].shallow_line;
    let steep_line = active_views[view_index].steep_line;
    if shallow_line.line_collinear(&steep_line) && (shallow_line.p_collinear(0, 1)
        || shallow_line.p_collinear(1, 0)) {
        active_views.remove(view_index);
        false
    } else {
        true
    }
}

} // verus!
