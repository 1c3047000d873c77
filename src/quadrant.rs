//! The sweep over one quadrant: diagonal bands of cells, tested against an
//! ordered list of views that obstacles narrow, split or close.
//!
//! The spec functions here describe the sweep step by step; the executable
//! functions are proved to follow them exactly.
use vstd::prelude::*;
use vstd::view::View as _;

use crate::geometry::Line;
use crate::view::{
    add_shallow_bump, add_steep_bump, arena_after_shallow, arena_after_steep, check_view,
    degenerate, settle, shallow_bumped, steep_bumped, view_wf, views_wf, View, ViewBump,
};
use crate::visited::CoordSet;
use crate::Coord;

verus! {

/// One quadrant around an origin: the direction of growth on each axis and
/// how many cells the sweep reaches along each.
#[derive(Clone, Copy, Debug, PartialEq, Eq, Structural)]
pub struct Quadrant {
    pub start_x: i32,
    pub start_y: i32,
    pub dx: i32,
    pub dy: i32,
    pub extent_x: i32,
    pub extent_y: i32,
}

impl Quadrant {
    pub open spec fn wf(self) -> bool {
        &&& self.dx == 1 || self.dx == -1
        &&& self.dy == 1 || self.dy == -1
        &&& 0 <= self.extent_x
        &&& 0 <= self.extent_y
    }
}

/// The absolute coordinate of the quadrant-local cell `(x, y)`.
pub open spec fn abs_cell(q: Quadrant, x: int, y: int) -> Coord {
    Coord {
        x: (if q.dx > 0 { q.start_x + x } else { q.start_x - x }) as i32,
        y: (if q.dy > 0 { q.start_y + y } else { q.start_y - y }) as i32,
    }
}

/// The local cell `(x, y)` lies within the quadrant's extents.
pub open spec fn in_extent(q: Quadrant, x: int, y: int) -> bool {
    0 <= x <= q.extent_x && 0 <= y <= q.extent_y
}

/// The far corner of the quadrant, before it is narrowed to `i32`.
pub open spec fn far_x(q: Quadrant) -> int {
    if q.dx > 0 {
        q.start_x + q.extent_x
    } else {
        q.start_x - q.extent_x
    }
}

pub open spec fn far_y(q: Quadrant) -> int {
    if q.dy > 0 {
        q.start_y + q.extent_y
    } else {
        q.start_y - q.extent_y
    }
}

/// The window of `set` holds every cell that the quadrant can reach.
pub open spec fn window_covers(set: CoordSet, q: Quadrant) -> bool {
    &&& i32::MIN <= far_x(q) <= i32::MAX
    &&& i32::MIN <= far_y(q) <= i32::MAX
    &&& set.in_window(Coord { x: q.start_x, y: q.start_y })
    &&& set.in_window(Coord { x: far_x(q) as i32, y: far_y(q) as i32 })
}

/// The view that spans the whole quadrant before any obstacle is met.
pub open spec fn initial_view(q: Quadrant) -> View {
    View {
        shallow_line: Line { xi: 0, yi: 1, xf: q.extent_x as i64, yf: 0 },
        steep_line: Line { xi: 1, yi: 0, xf: 0, yf: q.extent_y as i64 },
        shallow_bump: None,
        steep_bump: None,
    }
}

/// The first view from position `k` on whose steep line passes strictly
/// above the bottom-right corner of cell `(x, y)`; `views.len()` if none.
pub open spec fn advance(views: Seq<View>, k: int, x: int, y: int) -> int
    decreases views.len() - k,
{
    if 0 <= k < views.len() && views[k].steep_line.slope_at(x + 1, y) >= 0 {
        advance(views, k + 1, x, y)
    } else {
        k
    }
}

/// The view that cell `(x, y)` falls in, if any.
pub open spec fn seen_by(views: Seq<View>, x: int, y: int) -> bool {
    let k = advance(views, 0, x, y);
    k < views.len() && views[k].shallow_line.slope_at(x, y + 1) > 0
}

/// The views and the bump arena after an obstacle at cell `(x, y)` is met
/// inside view `k`.
pub open spec fn blocked_views(views: Seq<View>, arena: Seq<ViewBump>, k: int, x: i64, y: i64) -> (
    Seq<View>,
    Seq<ViewBump>,
) {
    let v = views[k];
    let top = (y + 1) as i64;
    let right = (x + 1) as i64;
    let shallow_clear = v.shallow_line.slope_at(right as int, y as int) < 0;
    let steep_clear = v.steep_line.slope_at(x as int, top as int) > 0;
    if shallow_clear && steep_clear {
        (views.remove(k), arena)
    } else if shallow_clear {
        (
            settle(views.update(k, shallow_bumped(v, arena, x, top)), k),
            arena_after_shallow(v, arena, x, top),
        )
    } else if steep_clear {
        (
            settle(views.update(k, steep_bumped(v, arena, right, y)), k),
            arena_after_steep(v, arena, right, y),
        )
    } else {
        let lower = steep_bumped(v, arena, right, y);
        let grown = arena_after_steep(v, arena, right, y);
        let split = settle(views.insert(k, v).update(k, lower), k);
        let upper_index = if degenerate(lower) {
            k
        } else {
            k + 1
        };
        (
            settle(split.update(upper_index, shallow_bumped(v, grown, x, top)), upper_index),
            arena_after_shallow(v, grown, x, top),
        )
    }
}

/// The sweep's state: active views, bump arena, cells seen so far.
pub type SweepState = (Seq<View>, Seq<ViewBump>, Set<Coord>);

/// The state after local cell `(x, y)` is examined.
pub open spec fn step_cell(
    q: Quadrant,
    blk: spec_fn(Coord) -> bool,
    s: SweepState,
    x: i64,
    y: i64,
) -> SweepState {
    if seen_by(s.0, x as int, y as int) {
        let c = abs_cell(q, x as int, y as int);
        if blk(c) {
            let r = blocked_views(s.0, s.1, advance(s.0, 0, x as int, y as int), x, y);
            (r.0, r.1, s.2.insert(c))
        } else {
            (s.0, s.1, s.2.insert(c))
        }
    } else {
        s
    }
}

/// `order` lists the members of `set`, each once.
pub open spec fn lists(order: Seq<Coord>, set: Set<Coord>) -> bool {
    order.no_duplicates() && forall|c: Coord| #[trigger] set.contains(c) <==> order.contains(c)
}

pub proof fn lemma_lists_push(order: Seq<Coord>, set: Set<Coord>, c: Coord)
    requires
        lists(order, set),
        !set.contains(c),
    ensures
        lists(order.push(c), set.insert(c)),
{
    let o2 = order.push(c);
    assert(o2[order.len() as int] == c);
    assert forall|d: Coord| #[trigger] set.insert(c).contains(d) <==> o2.contains(d) by {
        if set.contains(d) {
            let i = choose|i: int| 0 <= i < order.len() && order[i] == d;
            assert(o2[i] == d);
        }
        if o2.contains(d) && d != c {
            let i = choose|i: int| 0 <= i < o2.len() && o2[i] == d;
            assert(order[i] == d);
        }
    }
}

pub proof fn lemma_remove_wf(views: Seq<View>, arena: Seq<ViewBump>, k: int)
    requires
        views_wf(views, arena),
        0 <= k < views.len(),
    ensures
        views_wf(views.remove(k), arena),
{
    assert forall|i: int| 0 <= i < views.remove(k).len() implies view_wf(
        #[trigger] views.remove(k)[i],
        arena.len() as int,
    ) by {
        if i < k {
            assert(view_wf(views[i], arena.len() as int));
        } else {
            assert(view_wf(views[i + 1], arena.len() as int));
        }
    }
}

/// Examines local cell `(x, y)`: records it when a view sees it, asks whether
/// it is blocked, and narrows, splits or closes that view when it is.
pub fn visit_coord<F: Fn(Coord) -> bool>(
    visited: &mut CoordSet,
    order: &mut Vec<Coord>,
    q: Quadrant,
    x: i64,
    y: i64,
    active_views: &mut Vec<View>,
    arena: &mut Vec<ViewBump>,
    func_tile_blocked: &F,
    Ghost(blk): Ghost<spec_fn(Coord) -> bool>,
)
    requires
        q.wf(),
        in_extent(q, x as int, y as int),
        views_wf(old(active_views)@, old(arena)@),
        old(visited).wf(),
        window_covers(*old(visited), q),
        lists(old(order)@, old(visited)@),
        forall|c: Coord| func_tile_blocked.requires((c,)),
        forall|c: Coord, b: bool| func_tile_blocked.ensures((c,), b) ==> b == blk(c),
    ensures
        (final(active_views)@, final(arena)@, final(visited)@) == step_cell(
            q,
            blk,
            (old(active_views)@, old(arena)@, old(visited)@),
            x,
            y,
        ),
        views_wf(final(active_views)@, final(arena)@),
        final(visited).wf(),
        final(visited).same_window(*old(visited)),
        lists(final(order)@, final(visited)@),
        final(order)@.len() >= old(order)@.len(),
        forall|i: int| 0 <= i < old(order)@.len() ==> final(order)@[i] == old(order)@[i],
{
    let ghost v0 = active_views@;
    let mut view_index: usize = 0;
    while view_index < active_views.len() && active_views[view_index].steep_line.p_below_or_collinear(
        x + 1,
        y,
    )
        invariant
            view_index <= active_views@.len(),
            active_views@ == v0,
            views_wf(v0, arena@),
            in_extent(q, x as int, y as int),
            window_covers(*visited, q),
            advance(v0, view_index as int, x as int, y as int) == advance(v0, 0, x as int, y as int),
        decreases active_views@.len() - view_index,
    {
        assert(view_wf(v0[view_index as int], arena@.len() as int));
        view_index += 1;
    }
    if view_index < active_views.len() {
        assert(view_wf(v0[view_index as int], arena@.len() as int));
    }
    if view_index == active_views.len() || active_views[view_index].shallow_line.p_above_or_collinear(
        x,
        y + 1,
    ) {
        return;
    }
    let cx: i32 = if q.dx > 0 {
        (q.start_x as i64 + x) as i32
    } else {
        (q.start_x as i64 - x) as i32
    };
    let cy: i32 = if q.dy > 0 {
        (q.start_y as i64 + y) as i32
    } else {
        (q.start_y as i64 - y) as i32
    };
    let c = Coord { x: cx, y: cy };
    assert(c == abs_cell(q, x as int, y as int));
    if !visited.contains(c) {
        proof {
            lemma_lists_push(order@, visited@, c);
        }
        visited.insert(c);
        order.push(c);
    }
    let is_blocked = func_tile_blocked(c);
    if !is_blocked {
        return;
    }
    let v = active_views[view_index];
    let shallow_clear = v.shallow_line.p_above(x + 1, y);
    let steep_clear = v.steep_line.p_below(x, y + 1);
    if shallow_clear && steep_clear {
        proof {
            lemma_remove_wf(v0, arena@, view_index as int);
        }
        active_views.remove(view_index);
    } else if shallow_clear {
        add_shallow_bump(x, y + 1, active_views, arena, view_index);
        let ghost vs = active_views@;
        check_view(active_views, view_index);
        proof {
            if degenerate(vs[view_index as int]) {
                lemma_remove_wf(vs, arena@, view_index as int);
            }
        }
    } else if steep_clear {
        add_steep_bump(x + 1, y, active_views, arena, view_index);
        let ghost vs = active_views@;
        check_view(active_views, view_index);
        proof {
            if degenerate(vs[view_index as int]) {
                lemma_remove_wf(vs, arena@, view_index as int);
            }
        }
    } else {
        let shallow_view_index = view_index;
        let mut steep_view_index = view_index + 1;
        active_views.insert(shallow_view_index, v);
        assert forall|i: int| 0 <= i < active_views@.len() implies view_wf(
            #[trigger] active_views@[i],
            arena@.len() as int,
        ) by {
            if i < view_index {
                assert(view_wf(v0[i], arena@.len() as int));
            } else if i > view_index {
                assert(view_wf(v0[i - 1], arena@.len() as int));
            }
        }
        add_steep_bump(x + 1, y, active_views, arena, shallow_view_index);
        let ghost vs = active_views@;
        if !check_view(active_views, shallow_view_index) {
            steep_view_index -= 1;
        }
        proof {
            if degenerate(vs[view_index as int]) {
                lemma_remove_wf(vs, arena@, view_index as int);
            }
        }
        assert(active_views@[steep_view_index as int] == v);
        add_shallow_bump(x, y + 1, active_views, arena, steep_view_index);
        let ghost ws = active_views@;
        check_view(active_views, steep_view_index);
        proof {
            if degenerate(ws[steep_view_index as int]) {
                lemma_remove_wf(ws, arena@, steep_view_index as int);
            }
        }
    }
}

/// The first band position of band `i`.
pub open spec fn band_first(q: Quadrant, i: int) -> int {
    if 0 > i - q.extent_x {
        0
    } else {
        i - q.extent_x
    }
}

/// The last band position of band `i`.
pub open spec fn band_last(q: Quadrant, i: int) -> int {
    if i < q.extent_y {
        i
    } else {
        q.extent_y as int
    }
}

/// The state after the cells of band `i` from position `j` on are examined,
/// stopping early once no view is left.
pub open spec fn run_band(q: Quadrant, blk: spec_fn(Coord) -> bool, s: SweepState, i: int, j: int) -> SweepState
    decreases band_last(q, i) + 1 - j,
{
    if j <= band_last(q, i) && s.0.len() > 0 {
        run_band(q, blk, step_cell(q, blk, s, (i - j) as i64, j as i64), i, j + 1)
    } else {
        s
    }
}

/// The state after bands `i` to `extent_x + extent_y` are examined, stopping
/// early once no view is left.
pub open spec fn run_bands(q: Quadrant, blk: spec_fn(Coord) -> bool, s: SweepState, i: int) -> SweepState
    decreases q.extent_x + q.extent_y + 1 - i,
{
    if i <= q.extent_x + q.extent_y && s.0.len() > 0 {
        run_bands(q, blk, run_band(q, blk, s, i, band_first(q, i)), i + 1)
    } else {
        s
    }
}

/// The whole sweep of quadrant `q`, from the single full view, adding the
/// cells seen to `seen`.
pub open spec fn sweep(q: Quadrant, blk: spec_fn(Coord) -> bool, seen: Set<Coord>) -> Set<Coord> {
    run_bands(q, blk, (seq![initial_view(q)], Seq::empty(), seen), 1).2
}

/// The cells that the sweep of quadrant `q` sees.
pub open spec fn quadrant_seen(q: Quadrant, blk: spec_fn(Coord) -> bool) -> Set<Coord> {
    sweep(q, blk, Set::empty())
}

proof fn lemma_step_seen(q: Quadrant, blk: spec_fn(Coord) -> bool, s: SweepState, x: i64, y: i64)
    ensures
        ({
            let e = step_cell(q, blk, (s.0, s.1, Set::empty()), x, y);
            let t = step_cell(q, blk, s, x, y);
            t.0 == e.0 && t.1 == e.1 && t.2 == s.2.union(e.2)
        }),
{
    let e = step_cell(q, blk, (s.0, s.1, Set::empty()), x, y);
    let t = step_cell(q, blk, s, x, y);
    assert(t.2 =~= s.2.union(e.2));
}

proof fn lemma_band_seen(q: Quadrant, blk: spec_fn(Coord) -> bool, s: SweepState, i: int, j: int)
    ensures
        ({
            let e = run_band(q, blk, (s.0, s.1, Set::empty()), i, j);
            let t = run_band(q, blk, s, i, j);
            t.0 == e.0 && t.1 == e.1 && t.2 == s.2.union(e.2)
        }),
    decreases band_last(q, i) + 1 - j,
{
    if j <= band_last(q, i) && s.0.len() > 0 {
        let x = (i - j) as i64;
        let y = j as i64;
        let e1 = step_cell(q, blk, (s.0, s.1, Set::empty()), x, y);
        let t1 = step_cell(q, blk, s, x, y);
        lemma_step_seen(q, blk, s, x, y);
        lemma_band_seen(q, blk, t1, i, j + 1);
        lemma_band_seen(q, blk, e1, i, j + 1);
        let e = run_band(q, blk, (s.0, s.1, Set::empty()), i, j);
        let t = run_band(q, blk, s, i, j);
        let r = run_band(q, blk, (e1.0, e1.1, Set::empty()), i, j + 1);
        assert(t.2 =~= s.2.union(e.2)) by {
            assert(e.2 == e1.2.union(r.2));
            assert(t.2 == t1.2.union(r.2));
        }
    } else {
        assert(s.2 =~= s.2.union(Set::empty()));
    }
}

proof fn lemma_bands_seen(q: Quadrant, blk: spec_fn(Coord) -> bool, s: SweepState, i: int)
    ensures
        ({
            let e = run_bands(q, blk, (s.0, s.1, Set::empty()), i);
            let t = run_bands(q, blk, s, i);
            t.0 == e.0 && t.1 == e.1 && t.2 == s.2.union(e.2)
        }),
    decreases q.extent_x + q.extent_y + 1 - i,
{
    if i <= q.extent_x + q.extent_y && s.0.len() > 0 {
        let b = band_first(q, i);
        let e1 = run_band(q, blk, (s.0, s.1, Set::empty()), i, b);
        let t1 = run_band(q, blk, s, i, b);
        lemma_band_seen(q, blk, s, i, b);
        lemma_bands_seen(q, blk, t1, i + 1);
        lemma_bands_seen(q, blk, e1, i + 1);
        let e = run_bands(q, blk, (s.0, s.1, Set::empty()), i);
        let t = run_bands(q, blk, s, i);
        let r = run_bands(q, blk, (e1.0, e1.1, Set::empty()), i + 1);
        assert(t.2 =~= s.2.union(e.2)) by {
            assert(e.2 == e1.2.union(r.2));
            assert(t.2 == t1.2.union(r.2));
        }
    } else {
        assert(s.2 =~= s.2.union(Set::empty()));
    }
}

/// What a sweep adds to a set of seen cells does not depend on that set.
pub proof fn lemma_sweep_union(q: Quadrant, blk: spec_fn(Coord) -> bool, seen: Set<Coord>)
    ensures
        sweep(q, blk, seen) == seen.union(quadrant_seen(q, blk)),
{
    lemma_bands_seen(q, blk, (seq![initial_view(q)], Seq::empty(), seen), 1);
}

/// Sweeps quadrant `q`: adds each cell seen to `visited`, and appends to
/// `order` those not in `visited` before.
pub fn check_quadrant<F: Fn(Coord) -> bool>(
    visited: &mut CoordSet,
    order: &mut Vec<Coord>,
    q: Quadrant,
    func_tile_blocked: &F,
    Ghost(blk): Ghost<spec_fn(Coord) -> bool>,
)
    requires
        q.wf(),
        old(visited).wf(),
        window_covers(*old(visited), q),
        lists(old(order)@, old(visited)@),
        forall|c: Coord| func_tile_blocked.requires((c,)),
        forall|c: Coord, b: bool| func_tile_blocked.ensures((c,), b) ==> b == blk(c),
    ensures
        final(visited)@ == old(visited)@.union(quadrant_seen(q, blk)),
        final(visited).wf(),
        final(visited).same_window(*old(visited)),
        lists(final(order)@, final(visited)@),
        final(order)@.len() >= old(order)@.len(),
        forall|i: int| 0 <= i < old(order)@.len() ==> final(order)@[i] == old(order)@[i],
{
    let ghost visited0 = *visited;
    let ghost order0 = order@;
    let mut active_views: Vec<View> = Vec::new();
    let shallow_line = Line { xi: 0, yi: 1, xf: q.extent_x as i64, yf: 0 };
    let steep_line = Line { xi: 1, yi: 0, xf: 0, yf: q.extent_y as i64 };
    active_views.push(View::new(shallow_line, steep_line));
    let mut arena: Vec<ViewBump> = Vec::new();
    assert(active_views@ =~= seq![initial_view(q)]);
    let ghost target = run_bands(q, blk, (active_views@, arena@, visited@), 1);
    proof {
        lemma_sweep_union(q, blk, visited@);
    }
    let max_i: i64 = q.extent_x as i64 + q.extent_y as i64;
    let mut i: i64 = 1;
    while i != max_i + 1 && active_views.len() > 0
        invariant
            q.wf(),
            1 <= i <= max_i + 1,
            max_i == q.extent_x + q.extent_y,
            run_bands(q, blk, (active_views@, arena@, visited@), i as int) == target,
            views_wf(active_views@, arena@),
            visited.wf(),
            visited.same_window(visited0),
            window_covers(*visited, q),
            lists(order@, visited@),
            order@.len() >= order0.len(),
            forall|k: int| 0 <= k < order0.len() ==> order@[k] == order0[k],
            forall|c: Coord| func_tile_blocked.requires((c,)),
            forall|c: Coord, b: bool| func_tile_blocked.ensures((c,), b) ==> b == blk(c),
        decreases max_i + 1 - i,
    {
        let start_j: i64 = if 0 > i - q.extent_x as i64 {
            0
        } else {
            i - q.extent_x as i64
        };
        let max_j: i64 = if i < q.extent_y as i64 {
            i
        } else {
            q.extent_y as i64
        };
        assert(run_bands(q, blk, (active_views@, arena@, visited@), i as int) == run_bands(
            q,
            blk,
            run_band(q, blk, (active_views@, arena@, visited@), i as int, start_j as int),
            i + 1,
        ));
        let mut j: i64 = start_j;
        while j != max_j + 1 && active_views.len() > 0
            invariant
                q.wf(),
                1 <= i <= max_i,
                max_i == q.extent_x + q.extent_y,
                start_j == band_first(q, i as int),
                max_j == band_last(q, i as int),
                start_j <= j <= max_j + 1,
                run_bands(
                    q,
                    blk,
                    run_band(q, blk, (active_views@, arena@, visited@), i as int, j as int),
                    i + 1,
                ) == target,
                views_wf(active_views@, arena@),
                visited.wf(),
                visited.same_window(visited0),
                window_covers(*visited, q),
                lists(order@, visited@),
                order@.len() >= order0.len(),
                forall|k: int| 0 <= k < order0.len() ==> order@[k] == order0[k],
                forall|c: Coord| func_tile_blocked.requires((c,)),
                forall|c: Coord, b: bool| func_tile_blocked.ensures((c,), b) ==> b == blk(c),
            decreases max_j + 1 - j,
        {
            let x = i - j;
            let y = j;
            let ghost s = (active_views@, arena@, visited@);
            let ghost prev = order@;
            visit_coord(
                visited,
                order,
                q,
                x,
                y,
                &mut active_views,
                &mut arena,
                func_tile_blocked,
                Ghost(blk),
            );
            assert(run_band(q, blk, s, i as int, j as int) == run_band(
                q,
                blk,
                step_cell(q, blk, s, x, y),
                i as int,
                j + 1,
            ));
            assert forall|k: int| 0 <= k < order0.len() implies order@[k] == order0[k] by {
                assert(prev[k] == order0[k]);
            }
            j += 1;
        }
        i += 1;
    }
}

/// Cell `c` lies in the rectangle between the quadrant's origin and its far
/// corner.
pub open spec fn in_box(q: Quadrant, c: Coord) -> bool {
    &&& if q.dx > 0 {
        q.start_x <= c.x <= far_x(q)
    } else {
        far_x(q) <= c.x <= q.start_x
    }
    &&& if q.dy > 0 {
        q.start_y <= c.y <= far_y(q)
    } else {
        far_y(q) <= c.y <= q.start_y
    }
}

/// The far corner of the quadrant is an `i32` coordinate.
pub open spec fn far_fits(q: Quadrant) -> bool {
    i32::MIN <= far_x(q) <= i32::MAX && i32::MIN <= far_y(q) <= i32::MAX
}

proof fn lemma_band_in_box(q: Quadrant, blk: spec_fn(Coord) -> bool, s: SweepState, i: int, j: int)
    requires
        q.wf(),
        far_fits(q),
        band_first(q, i) <= j,
        forall|c: Coord| #[trigger] s.2.contains(c) ==> in_box(q, c),
    ensures
        forall|c: Coord| #[trigger] run_band(q, blk, s, i, j).2.contains(c) ==> in_box(q, c),
    decreases band_last(q, i) + 1 - j,
{
    if j <= band_last(q, i) && s.0.len() > 0 {
        let t = step_cell(q, blk, s, (i - j) as i64, j as i64);
        assert(in_box(q, abs_cell(q, i - j, j)));
        assert forall|c: Coord| #[trigger] t.2.contains(c) implies in_box(q, c) by {
            if !s.2.contains(c) {
                assert(c == abs_cell(q, i - j, j));
            }
        }
        lemma_band_in_box(q, blk, t, i, j + 1);
        assert(run_band(q, blk, s, i, j) == run_band(q, blk, t, i, j + 1));
    } else {
        assert(run_band(q, blk, s, i, j) == s);
    }
}

proof fn lemma_bands_in_box(q: Quadrant, blk: spec_fn(Coord) -> bool, s: SweepState, i: int)
    requires
        q.wf(),
        far_fits(q),
        forall|c: Coord| #[trigger] s.2.contains(c) ==> in_box(q, c),
    ensures
        forall|c: Coord| #[trigger] run_bands(q, blk, s, i).2.contains(c) ==> in_box(q, c),
    decreases q.extent_x + q.extent_y + 1 - i,
{
    if i <= q.extent_x + q.extent_y && s.0.len() > 0 {
        lemma_band_in_box(q, blk, s, i, band_first(q, i));
        lemma_bands_in_box(q, blk, run_band(q, blk, s, i, band_first(q, i)), i + 1);
        assert(run_bands(q, blk, s, i) == run_bands(
            q,
            blk,
            run_band(q, blk, s, i, band_first(q, i)),
            i + 1,
        ));
    } else {
        assert(run_bands(q, blk, s, i) == s);
    }
}

/// Every cell that a quadrant sweep sees lies between the origin and the far
/// corner of the quadrant.
pub proof fn lemma_quadrant_in_box(q: Quadrant, blk: spec_fn(Coord) -> bool)
    requires
        q.wf(),
        far_fits(q),
    ensures
        forall|c: Coord| #[trigger] quadrant_seen(q, blk).contains(c) ==> in_box(q, c),
{
    lemma_bands_in_box(q, blk, (seq![initial_view(q)], Seq::empty(), Set::empty()), 1);
}

/// The local x coordinate of absolute cell `c` in quadrant `q`.
pub open spec fn local_x(q: Quadrant, c: Coord) -> int {
    if q.dx > 0 {
        c.x - q.start_x
    } else {
        q.start_x - c.x
    }
}

/// The local y coordinate of absolute cell `c` in quadrant `q`.
pub open spec fn local_y(q: Quadrant, c: Coord) -> int {
    if q.dy > 0 {
        c.y - q.start_y
    } else {
        q.start_y - c.y
    }
}

/// Whether the full initial view sees local cell `(x, y)`: every cell but the
/// origin, when both extents are positive; nothing otherwise.
pub open spec fn open_view_sees(q: Quadrant, x: int, y: int) -> bool {
    q.extent_x > 0 && q.extent_y > 0 && (x != 0 || y != 0)
}

/// What a sweep of `q` sees when no cell is an obstacle.
pub open spec fn open_quadrant(q: Quadrant) -> Set<Coord> {
    Set::new(
        |c: Coord|
            in_extent(q, local_x(q, c), local_y(q, c)) && open_view_sees(
                q,
                local_x(q, c),
                local_y(q, c),
            ),
    )
}

proof fn lemma_initial_sees(q: Quadrant, x: int, y: int)
    requires
        q.wf(),
        in_extent(q, x, y),
    ensures
        seen_by(seq![initial_view(q)], x, y) == open_view_sees(q, x, y),
{
    let vs = seq![initial_view(q)];
    let ex = q.extent_x as int;
    let ey = q.extent_y as int;
    assert(vs[0].steep_line.slope_at(x + 1, y) == -(ey * x) - y) by (nonlinear_arith)
        requires
            vs[0].steep_line.slope_at(x + 1, y) == ey * (0 - (x + 1)) - (0 - 1) * (ey - y),
    ;
    assert(vs[0].shallow_line.slope_at(x, y + 1) == x + ex * y) by (nonlinear_arith)
        requires
            vs[0].shallow_line.slope_at(x, y + 1) == (0 - 1) * (ex - x) - (ex - 0) * (0 - (y + 1)),
    ;
    assert(0 <= ey * x) by (nonlinear_arith)
        requires
            0 <= ey,
            0 <= x,
    ;
    assert(0 <= ex * y) by (nonlinear_arith)
        requires
            0 <= ex,
            0 <= y,
    ;
    if ex > 0 && y > 0 {
        assert(ex * y > 0) by (nonlinear_arith)
            requires
                ex > 0,
                y > 0,
        ;
    }
    if ey > 0 && x > 0 {
        assert(ey * x > 0) by (nonlinear_arith)
            requires
                ey > 0,
                x > 0,
        ;
    }
    if ex == 0 {
        assert(ex * y == 0) by (nonlinear_arith)
            requires
                ex == 0,
        ;
    }
    if ey == 0 {
        assert(ey * x == 0) by (nonlinear_arith)
            requires
                ey == 0,
        ;
    }
    assert(advance(vs, 1, x, y) == 1);
    if vs[0].steep_line.slope_at(x + 1, y) >= 0 {
        assert(advance(vs, 0, x, y) == advance(vs, 1, x, y));
    } else {
        assert(advance(vs, 0, x, y) == 0);
    }
}

proof fn lemma_abs_local(q: Quadrant, c: Coord)
    requires
        q.wf(),
    ensures
        abs_cell(q, local_x(q, c), local_y(q, c)) == c,
{
}

proof fn lemma_open_band(q: Quadrant, blk: spec_fn(Coord) -> bool, s: SweepState, i: int, j: int)
    requires
        q.wf(),
        far_fits(q),
        forall|c: Coord| !#[trigger] blk(c),
        s.0 == seq![initial_view(q)],
        band_first(q, i) <= j,
    ensures
        run_band(q, blk, s, i, j).0 == s.0,
        forall|c: Coord| #[trigger]
            run_band(q, blk, s, i, j).2.contains(c) <==> (s.2.contains(c) || (open_quadrant(
                q,
            ).contains(c) && local_x(q, c) + local_y(q, c) == i && local_y(q, c) >= j)),
    decreases band_last(q, i) + 1 - j,
{
    if j <= band_last(q, i) && s.0.len() > 0 {
        let x = i - j;
        let y = j;
        let t = step_cell(q, blk, s, x as i64, y as i64);
        let cell = abs_cell(q, x, y);
        lemma_initial_sees(q, x, y);
        assert(local_x(q, cell) == x && local_y(q, cell) == y);
        assert(t.0 == s.0);
        assert(t.2 == if open_view_sees(q, x, y) {
            s.2.insert(cell)
        } else {
            s.2
        });
        lemma_open_band(q, blk, t, i, j + 1);
        assert(run_band(q, blk, s, i, j) == run_band(q, blk, t, i, j + 1));
        assert forall|c: Coord| #[trigger]
            run_band(q, blk, s, i, j).2.contains(c) <==> (s.2.contains(c) || (open_quadrant(
                q,
            ).contains(c) && local_x(q, c) + local_y(q, c) == i && local_y(q, c) >= j)) by {
            if local_x(q, c) == x && local_y(q, c) == y {
                lemma_abs_local(q, c);
            }
        }
    } else {
        assert(run_band(q, blk, s, i, j) == s);
    }
}

proof fn lemma_open_bands(q: Quadrant, blk: spec_fn(Coord) -> bool, s: SweepState, i: int)
    requires
        q.wf(),
        far_fits(q),
        forall|c: Coord| !#[trigger] blk(c),
        s.0 == seq![initial_view(q)],
    ensures
        forall|c: Coord| #[trigger]
            run_bands(q, blk, s, i).2.contains(c) <==> (s.2.contains(c) || (open_quadrant(
                q,
            ).contains(c) && local_x(q, c) + local_y(q, c) >= i)),
    decreases q.extent_x + q.extent_y + 1 - i,
{
    if i <= q.extent_x + q.extent_y && s.0.len() > 0 {
        let t = run_band(q, blk, s, i, band_first(q, i));
        lemma_open_band(q, blk, s, i, band_first(q, i));
        lemma_open_bands(q, blk, t, i + 1);
        assert(run_bands(q, blk, s, i) == run_bands(q, blk, t, i + 1));
    } else {
        assert(run_bands(q, blk, s, i) == s);
    }
}

/// With no obstacle anywhere, a quadrant sweep sees every cell within its
/// extents but the origin, when both extents are positive, and nothing
/// otherwise.
pub proof fn lemma_open_quadrant(q: Quadrant, blk: spec_fn(Coord) -> bool)
    requires
        q.wf(),
        far_fits(q),
        forall|c: Coord| !#[trigger] blk(c),
    ensures
        quadrant_seen(q, blk) == open_quadrant(q),
{
    lemma_open_bands(q, blk, (seq![initial_view(q)], Seq::empty(), Set::empty()), 1);
    assert(quadrant_seen(q, blk) =~= open_quadrant(q));
}

} // verus!
