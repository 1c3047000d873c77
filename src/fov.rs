//! The field of view from an origin: the origin itself and the four quadrant
//! sweeps around it, sharing one set of visited cells.
use vstd::prelude::*;

use crate::quadrant::{
    check_quadrant, far_fits, lemma_lists_push, lemma_open_quadrant, lemma_quadrant_in_box, lemma_sweep_union, lists,
    open_quadrant,
    quadrant_seen, sweep, window_covers, Quadrant,
};
use crate::visited::CoordSet;
use crate::{Coord, PPFOVTile};

verus! {

/// The origin lies on the map and the radius is not negative.
pub open spec fn valid_query(start_x: int, start_y: int, map_width: int, map_height: int, radius: int) -> bool {
    0 <= start_x < map_width && 0 <= start_y < map_height && 0 <= radius
}

/// How far a sweep reaches towards the low end of an axis.
pub open spec fn low_extent(start: int, radius: int) -> int {
    if start < radius {
        start
    } else {
        radius
    }
}

/// How far a sweep reaches towards the high end of an axis of `size` cells.
pub open spec fn high_extent(start: int, size: int, radius: int) -> int {
    if size - start - 1 < radius {
        size - start - 1
    } else {
        radius
    }
}

/// The quadrant growing in direction `(dx, dy)` from the origin.
pub open spec fn quadrant_of(
    start_x: i32,
    start_y: i32,
    map_width: i32,
    map_height: i32,
    radius: i32,
    dx: i32,
    dy: i32,
) -> Quadrant {
    Quadrant {
        start_x,
        start_y,
        dx,
        dy,
        extent_x: (if dx > 0 {
            high_extent(start_x as int, map_width as int, radius as int)
        } else {
            low_extent(start_x as int, radius as int)
        }) as i32,
        extent_y: (if dy > 0 {
            high_extent(start_y as int, map_height as int, radius as int)
        } else {
            low_extent(start_y as int, radius as int)
        }) as i32,
    }
}

/// The four quadrants, in the order in which they are swept.
pub open spec fn quadrants(start_x: i32, start_y: i32, map_width: i32, map_height: i32, radius: i32) -> Seq<Quadrant> {
    seq![
        quadrant_of(start_x, start_y, map_width, map_height, radius, 1i32, 1i32),
        quadrant_of(start_x, start_y, map_width, map_height, radius, 1i32, -1i32),
        quadrant_of(start_x, start_y, map_width, map_height, radius, -1i32, -1i32),
        quadrant_of(start_x, start_y, map_width, map_height, radius, -1i32, 1i32),
    ]
}

/// The cells visible from `(start_x, start_y)` when `blk` tells which cells
/// are obstacles: the origin, and what each quadrant sweep sees.
pub open spec fn fov_model(
    start_x: i32,
    start_y: i32,
    map_width: i32,
    map_height: i32,
    radius: i32,
    blk: spec_fn(Coord) -> bool,
) -> Set<Coord> {
    let qs = quadrants(start_x, start_y, map_width, map_height, radius);
    set![Coord { x: start_x, y: start_y }].union(quadrant_seen(qs[0], blk)).union(
        quadrant_seen(qs[1], blk),
    ).union(quadrant_seen(qs[2], blk)).union(quadrant_seen(qs[3], blk))
}

/// What `f` answers for cell `c`, for a predicate that answers one way only.
pub open spec fn blocked_at<F: Fn(Coord) -> bool>(f: F, c: Coord) -> bool {
    f.ensures((c,), true)
}

/// `f` answers each cell one way only.
pub open spec fn stable_predicate<F: Fn(Coord) -> bool>(f: F) -> bool {
    forall|c: Coord, b: bool| #[trigger] f.ensures((c,), b) ==> b == blocked_at(f, c)
}

/// Whether `g` reports an obstacle at cell `c`, for a lookup that answers one
/// way only.
pub open spec fn obstacle_at<G: Fn(Coord) -> PPFOVTile>(g: G, c: Coord) -> bool {
    g.ensures((c,), PPFOVTile::Obstacle)
}

/// `g` reports one tile only for each cell.
pub open spec fn stable_lookup<G: Fn(Coord) -> PPFOVTile>(g: G) -> bool {
    forall|c: Coord, t: PPFOVTile| #[trigger] g.ensures((c,), t) ==> (t == PPFOVTile::Obstacle) == obstacle_at(g, c)
}

fn make_quadrant(
    start_x: i32,
    start_y: i32,
    map_width: i32,
    map_height: i32,
    radius: i32,
    dx: i32,
    dy: i32,
) -> (q: Quadrant)
    requires
        valid_query(start_x as int, start_y as int, map_width as int, map_height as int, radius as int),
        dx == 1 || dx == -1,
        dy == 1 || dy == -1,
    ensures
        q == quadrant_of(start_x, start_y, map_width, map_height, radius, dx, dy),
        q.wf(),
{
    let min_extent_x = if start_x < radius { start_x } else { radius };
    let max_extent_x = if map_width - start_x - 1 < radius {
        map_width - start_x - 1
    } else {
        radius
    };
    let min_extent_y = if start_y < radius { start_y } else { radius };
    let max_extent_y = if map_height - start_y - 1 < radius {
        map_height - start_y - 1
    } else {
        radius
    };
    Quadrant {
        start_x,
        start_y,
        dx,
        dy,
        extent_x: if dx > 0 { max_extent_x } else { min_extent_x },
        extent_y: if dy > 0 { max_extent_y } else { min_extent_y },
    }
}

proof fn lemma_covers(
    set: CoordSet,
    start_x: i32,
    start_y: i32,
    map_width: i32,
    map_height: i32,
    radius: i32,
    dx: i32,
    dy: i32,
)
    requires
        valid_query(start_x as int, start_y as int, map_width as int, map_height as int, radius as int),
        dx == 1 || dx == -1,
        dy == 1 || dy == -1,
        set.min_x() == start_x - low_extent(start_x as int, radius as int),
        set.min_y() == start_y - low_extent(start_y as int, radius as int),
        set.spec_width() == low_extent(start_x as int, radius as int) + high_extent(
            start_x as int,
            map_width as int,
            radius as int,
        ) + 1,
        set.spec_height() == low_extent(start_y as int, radius as int) + high_extent(
            start_y as int,
            map_height as int,
            radius as int,
        ) + 1,
    ensures
        window_covers(set, quadrant_of(start_x, start_y, map_width, map_height, radius, dx, dy)),
{
}

/// Computes the field of view with `blk` as the obstacle predicate's meaning.
fn visible_cells<F: Fn(Coord) -> bool>(
    start_x: i32,
    start_y: i32,
    map_width: i32,
    map_height: i32,
    radius: i32,
    func_tile_blocked: &F,
    Ghost(blk): Ghost<spec_fn(Coord) -> bool>,
) -> (visible: Vec<Coord>)
    requires
        valid_query(start_x as int, start_y as int, map_width as int, map_height as int, radius as int),
        forall|c: Coord| func_tile_blocked.requires((c,)),
        forall|c: Coord, b: bool| func_tile_blocked.ensures((c,), b) ==> b == blk(c),
    ensures
        visible@.no_duplicates(),
        visible@.len() > 0,
        visible@[0] == (Coord { x: start_x, y: start_y }),
        forall|c: Coord| #[trigger]
            visible@.contains(c) ==> 0 <= c.x < map_width && 0 <= c.y < map_height,
        forall|c: Coord|
            #[trigger] visible@.contains(c) <==> fov_model(
                start_x,
                start_y,
                map_width,
                map_height,
                radius,
                blk,
            ).contains(c),
{
    proof {
        lemma_visible_on_map(start_x, start_y, map_width, map_height, radius, blk);
    }
    let origin = Coord { x: start_x, y: start_y };
    let q0 = make_quadrant(start_x, start_y, map_width, map_height, radius, 1, 1);
    let q1 = make_quadrant(start_x, start_y, map_width, map_height, radius, 1, -1);
    let q2 = make_quadrant(start_x, start_y, map_width, map_height, radius, -1, -1);
    let q3 = make_quadrant(start_x, start_y, map_width, map_height, radius, -1, 1);
    // One window spans all four quadrants: from the low extents to the high ones.
    let mut visited = CoordSet::new(
        start_x - q2.extent_x,
        start_y - q2.extent_y,
        (q2.extent_x + q0.extent_x + 1) as u32,
        (q2.extent_y + q0.extent_y + 1) as u32,
    );
    let mut order: Vec<Coord> = Vec::new();
    proof {
        assert(lists(order@, visited@));
        lemma_lists_push(order@, visited@, origin);
        lemma_covers(visited, start_x, start_y, map_width, map_height, radius, 1i32, 1i32);
        lemma_covers(visited, start_x, start_y, map_width, map_height, radius, 1i32, -1i32);
        lemma_covers(visited, start_x, start_y, map_width, map_height, radius, -1i32, -1i32);
        lemma_covers(visited, start_x, start_y, map_width, map_height, radius, -1i32, 1i32);
    }
    order.push(origin);
    visited.insert(origin);
    let ghost first = order@[0];
    assert(visited@ =~= set![origin]);
    check_quadrant(&mut visited, &mut order, q0, func_tile_blocked, Ghost(blk));
    check_quadrant(&mut visited, &mut order, q1, func_tile_blocked, Ghost(blk));
    check_quadrant(&mut visited, &mut order, q2, func_tile_blocked, Ghost(blk));
    check_quadrant(&mut visited, &mut order, q3, func_tile_blocked, Ghost(blk));
    assert(visited@ == fov_model(start_x, start_y, map_width, map_height, radius, blk));
    assert(order@[0] == first);
    assert forall|c: Coord| #[trigger] order@.contains(c) implies 0 <= c.x < map_width && 0 <= c.y
        < map_height by {
        assert(visited@.contains(c));
    }
    order
}

/// The cells visible from `(start_x, start_y)` on a map of `map_width` by
/// `map_height` cells within `radius` cells along each axis, where
/// `func_tile_blocked` tells which cells are obstacles. Each visible cell is
/// listed once, the origin first.
pub fn field_of_view<F: Fn(Coord) -> bool>(
    start_x: i32,
    start_y: i32,
    map_width: i32,
    map_height: i32,
    radius: i32,
    func_tile_blocked: F,
) -> (visible: Vec<Coord>)
    requires
        valid_query(start_x as int, start_y as int, map_width as int, map_height as int, radius as int),
        forall|c: Coord| func_tile_blocked.requires((c,)),
        stable_predicate(func_tile_blocked),
    ensures
        visible@.no_duplicates(),
        visible@.len() > 0,
        visible@[0] == (Coord { x: start_x, y: start_y }),
        forall|c: Coord| #[trigger]
            visible@.contains(c) ==> 0 <= c.x < map_width && 0 <= c.y < map_height,
        forall|c: Coord|
            #[trigger] visible@.contains(c) <==> fov_model(
                start_x,
                start_y,
                map_width,
                map_height,
                radius,
                |d: Coord| blocked_at(func_tile_blocked, d),
            ).contains(c),
{
    visible_cells(
        start_x,
        start_y,
        map_width,
        map_height,
        radius,
        &func_tile_blocked,
        Ghost(|d: Coord| blocked_at(func_tile_blocked, d)),
    )
}

/// As `field_of_view`, with `get_tile` telling the tile at each cell.
pub fn build_fov_set<G: Fn(Coord) -> PPFOVTile + Copy>(
    start: Coord,
    map_width: i32,
    map_height: i32,
    radius: i32,
    get_tile: G,
) -> (visible: Vec<Coord>)
    requires
        valid_query(start.x as int, start.y as int, map_width as int, map_height as int, radius as int),
        forall|c: Coord| get_tile.requires((c,)),
        stable_lookup(get_tile),
    ensures
        visible@.no_duplicates(),
        visible@.len() > 0,
        visible@[0] == start,
        forall|c: Coord| #[trigger]
            visible@.contains(c) ==> 0 <= c.x < map_width && 0 <= c.y < map_height,
        forall|c: Coord|
            #[trigger] visible@.contains(c) <==> fov_model(
                start.x,
                start.y,
                map_width,
                map_height,
                radius,
                |d: Coord| obstacle_at(get_tile, d),
            ).contains(c),
{
    let blocked = move |c: Coord| -> (b: bool)
        requires
            get_tile.requires((c,)),
        ensures
            b == obstacle_at(get_tile, c),
        {
            match get_tile(c) {
                PPFOVTile::Obstacle => true,
                PPFOVTile::Empty => false,
            }
        };
    visible_cells(
        start.x,
        start.y,
        map_width,
        map_height,
        radius,
        &blocked,
        Ghost(|d: Coord| obstacle_at(get_tile, d)),
    )
}

/// The origin is always visible, whatever the radius.
pub proof fn lemma_origin_visible(
    start_x: i32,
    start_y: i32,
    map_width: i32,
    map_height: i32,
    radius: i32,
    blk: spec_fn(Coord) -> bool,
)
    ensures
        fov_model(start_x, start_y, map_width, map_height, radius, blk).contains(
            Coord { x: start_x, y: start_y },
        ),
{
}

proof fn lemma_quadrant_on_map(
    start_x: i32,
    start_y: i32,
    map_width: i32,
    map_height: i32,
    radius: i32,
    dx: i32,
    dy: i32,
    blk: spec_fn(Coord) -> bool,
)
    requires
        valid_query(start_x as int, start_y as int, map_width as int, map_height as int, radius as int),
        dx == 1 || dx == -1,
        dy == 1 || dy == -1,
    ensures
        forall|c: Coord|
            #[trigger] quadrant_seen(
                quadrant_of(start_x, start_y, map_width, map_height, radius, dx, dy),
                blk,
            ).contains(c) ==> 0 <= c.x < map_width && 0 <= c.y < map_height,
{
    let q = quadrant_of(start_x, start_y, map_width, map_height, radius, dx, dy);
    assert(q.wf() && far_fits(q));
    lemma_quadrant_in_box(q, blk);
}

/// Every visible cell lies on the map.
pub proof fn lemma_visible_on_map(
    start_x: i32,
    start_y: i32,
    map_width: i32,
    map_height: i32,
    radius: i32,
    blk: spec_fn(Coord) -> bool,
)
    requires
        valid_query(start_x as int, start_y as int, map_width as int, map_height as int, radius as int),
    ensures
        forall|c: Coord|
            #[trigger] fov_model(start_x, start_y, map_width, map_height, radius, blk).contains(c)
                ==> 0 <= c.x < map_width && 0 <= c.y < map_height,
{
    lemma_quadrant_on_map(start_x, start_y, map_width, map_height, radius, 1i32, 1i32, blk);
    lemma_quadrant_on_map(start_x, start_y, map_width, map_height, radius, 1i32, -1i32, blk);
    lemma_quadrant_on_map(start_x, start_y, map_width, map_height, radius, -1i32, -1i32, blk);
    lemma_quadrant_on_map(start_x, start_y, map_width, map_height, radius, -1i32, 1i32, blk);
}

/// Sweeps the quadrants of `qs` in turn, each adding what it sees to one
/// shared set.
pub open spec fn sweep_each(qs: Seq<Quadrant>, blk: spec_fn(Coord) -> bool, seen: Set<Coord>) -> Set<Coord>
    decreases qs.len(),
{
    if qs.len() == 0 {
        seen
    } else {
        sweep_each(qs.drop_first(), blk, sweep(qs[0], blk, seen))
    }
}

proof fn lemma_sweep_each(qs: Seq<Quadrant>, blk: spec_fn(Coord) -> bool, seen: Set<Coord>)
    ensures
        forall|c: Coord| #[trigger]
            sweep_each(qs, blk, seen).contains(c) <==> (seen.contains(c) || exists|k: int|
                0 <= k < qs.len() && quadrant_seen(qs[k], blk).contains(c)),
    decreases qs.len(),
{
    if qs.len() > 0 {
        let rest = qs.drop_first();
        let next = sweep(qs[0], blk, seen);
        lemma_sweep_union(qs[0], blk, seen);
        lemma_sweep_each(rest, blk, next);
        assert(sweep_each(qs, blk, seen) == sweep_each(rest, blk, next));
        assert forall|c: Coord| #[trigger]
            sweep_each(qs, blk, seen).contains(c) <==> (seen.contains(c) || exists|k: int|
                0 <= k < qs.len() && quadrant_seen(qs[k], blk).contains(c)) by {
            if exists|k: int| 0 <= k < rest.len() && quadrant_seen(rest[k], blk).contains(c) {
                let k = choose|k: int| 0 <= k < rest.len() && quadrant_seen(rest[k], blk).contains(c);
                assert(quadrant_seen(qs[k + 1], blk).contains(c));
            }
            if exists|k: int| 0 <= k < qs.len() && quadrant_seen(qs[k], blk).contains(c) {
                let k = choose|k: int| 0 <= k < qs.len() && quadrant_seen(qs[k], blk).contains(c);
                if k > 0 {
                    assert(quadrant_seen(rest[k - 1], blk).contains(c));
                } else {
                    assert(next.contains(c));
                }
            }
        }
    }
}

/// Sweeping the four quadrants one after another, with one shared set of
/// visited cells that starts with the origin, gives the visible set whatever
/// order the quadrants are taken in.
pub proof fn lemma_quadrant_order_irrelevant(
    start_x: i32,
    start_y: i32,
    map_width: i32,
    map_height: i32,
    radius: i32,
    blk: spec_fn(Coord) -> bool,
    order: Seq<Quadrant>,
)
    requires
        order.len() == 4,
        forall|k: int|
            0 <= k < 4 ==> order.contains(
                #[trigger] quadrants(start_x, start_y, map_width, map_height, radius)[k],
            ),
        forall|k: int|
            0 <= k < 4 ==> quadrants(start_x, start_y, map_width, map_height, radius).contains(
                #[trigger] order[k],
            ),
    ensures
        sweep_each(order, blk, set![Coord { x: start_x, y: start_y }]) == fov_model(
            start_x,
            start_y,
            map_width,
            map_height,
            radius,
            blk,
        ),
{
    let qs = quadrants(start_x, start_y, map_width, map_height, radius);
    let origin = set![Coord { x: start_x, y: start_y }];
    let model = fov_model(start_x, start_y, map_width, map_height, radius, blk);
    lemma_sweep_each(order, blk, origin);
    assert forall|c: Coord| #[trigger]
        sweep_each(order, blk, origin).contains(c) <==> model.contains(c) by {
        if exists|k: int| 0 <= k < 4 && quadrant_seen(order[k], blk).contains(c) {
            let k = choose|k: int| 0 <= k < 4 && quadrant_seen(order[k], blk).contains(c);
            assert(qs.contains(order[k]));
            let m = choose|m: int| 0 <= m < 4 && qs[m] == order[k];
            assert(quadrant_seen(qs[m], blk).contains(c));
        }
        if exists|m: int| 0 <= m < 4 && quadrant_seen(qs[m], blk).contains(c) {
            let m = choose|m: int| 0 <= m < 4 && quadrant_seen(qs[m], blk).contains(c);
            assert(order.contains(qs[m]));
            let k = choose|k: int| 0 <= k < 4 && order[k] == qs[m];
            assert(quadrant_seen(order[k], blk).contains(c));
        }
        if model.contains(c) && c != (Coord { x: start_x, y: start_y }) {
            if quadrant_seen(qs[0], blk).contains(c) {
                assert(exists|m: int| 0 <= m < 4 && quadrant_seen(qs[m], blk).contains(c));
            } else if quadrant_seen(qs[1], blk).contains(c) {
                assert(exists|m: int| 0 <= m < 4 && quadrant_seen(qs[m], blk).contains(c));
            } else if quadrant_seen(qs[2], blk).contains(c) {
                assert(exists|m: int| 0 <= m < 4 && quadrant_seen(qs[m], blk).contains(c));
            } else {
                assert(exists|m: int| 0 <= m < 4 && quadrant_seen(qs[m], blk).contains(c));
            }
        }
    }
    assert(sweep_each(order, blk, origin) =~= model);
}

/// The cells of the map within `radius` of the origin along each axis.
pub open spec fn chebyshev_disc(start_x: i32, start_y: i32, map_width: i32, map_height: i32, radius: i32) -> Set<Coord> {
    Set::new(
        |c: Coord|
            0 <= c.x < map_width && 0 <= c.y < map_height && start_x - radius <= c.x <= start_x
                + radius && start_y - radius <= c.y <= start_y + radius,
    )
}

proof fn lemma_open_quadrant_of(
    start_x: i32,
    start_y: i32,
    map_width: i32,
    map_height: i32,
    radius: i32,
    dx: i32,
    dy: i32,
    blk: spec_fn(Coord) -> bool,
)
    requires
        valid_query(start_x as int, start_y as int, map_width as int, map_height as int, radius as int),
        dx == 1 || dx == -1,
        dy == 1 || dy == -1,
        forall|c: Coord| !#[trigger] blk(c),
    ensures
        quadrant_seen(quadrant_of(start_x, start_y, map_width, map_height, radius, dx, dy), blk)
            == open_quadrant(quadrant_of(start_x, start_y, map_width, map_height, radius, dx, dy)),
{
    let q = quadrant_of(start_x, start_y, map_width, map_height, radius, dx, dy);
    assert(q.wf() && far_fits(q));
    lemma_open_quadrant(q, blk);
}

/// With no obstacle anywhere, the visible set is every cell of the map
/// within `radius` of the origin along each axis. This holds when the radius
/// is zero, or when the map is at least two cells wide and two cells tall.
pub proof fn lemma_open_map_sees_disc(
    start_x: i32,
    start_y: i32,
    map_width: i32,
    map_height: i32,
    radius: i32,
    blk: spec_fn(Coord) -> bool,
)
    requires
        valid_query(start_x as int, start_y as int, map_width as int, map_height as int, radius as int),
        forall|c: Coord| !#[trigger] blk(c),
        radius == 0 || (map_width >= 2 && map_height >= 2),
    ensures
        fov_model(start_x, start_y, map_width, map_height, radius, blk) == chebyshev_disc(
            start_x,
            start_y,
            map_width,
            map_height,
            radius,
        ),
{
    let qs = quadrants(start_x, start_y, map_width, map_height, radius);
    lemma_open_quadrant_of(start_x, start_y, map_width, map_height, radius, 1i32, 1i32, blk);
    lemma_open_quadrant_of(start_x, start_y, map_width, map_height, radius, 1i32, -1i32, blk);
    lemma_open_quadrant_of(start_x, start_y, map_width, map_height, radius, -1i32, -1i32, blk);
    lemma_open_quadrant_of(start_x, start_y, map_width, map_height, radius, -1i32, 1i32, blk);
    let model = fov_model(start_x, start_y, map_width, map_height, radius, blk);
    let disc = chebyshev_disc(start_x, start_y, map_width, map_height, radius);
    let lo_x = low_extent(start_x as int, radius as int);
    let hi_x = high_extent(start_x as int, map_width as int, radius as int);
    let lo_y = low_extent(start_y as int, radius as int);
    let hi_y = high_extent(start_y as int, map_height as int, radius as int);
    assert forall|c: Coord| #[trigger] model.contains(c) <==> disc.contains(c) by {
        if disc.contains(c) && c != (Coord { x: start_x, y: start_y }) {
            let right = c.x > start_x || (c.x == start_x && hi_x > 0);
            let down = c.y > start_y || (c.y == start_y && hi_y > 0);
            if right && down {
                assert(open_quadrant(qs[0]).contains(c));
            } else if right {
                assert(open_quadrant(qs[1]).contains(c));
            } else if down {
                assert(open_quadrant(qs[3]).contains(c));
            } else {
                assert(open_quadrant(qs[2]).contains(c));
            }
        }
    }
    assert(model =~= disc);
}

/// With no obstacle anywhere, on a map at least two cells wide and two cells
/// tall, a larger radius keeps every cell that a smaller one makes visible.
pub proof fn lemma_open_map_radius_monotone(
    start_x: i32,
    start_y: i32,
    map_width: i32,
    map_height: i32,
    radius: i32,
    larger: i32,
    blk: spec_fn(Coord) -> bool,
)
    requires
        valid_query(start_x as int, start_y as int, map_width as int, map_height as int, radius as int),
        radius <= larger,
        forall|c: Coord| !#[trigger] blk(c),
        map_width >= 2,
        map_height >= 2,
    ensures
        fov_model(start_x, start_y, map_width, map_height, radius, blk).subset_of(
            fov_model(start_x, start_y, map_width, map_height, larger, blk),
        ),
{
    lemma_open_map_sees_disc(start_x, start_y, map_width, map_height, radius, blk);
    lemma_open_map_sees_disc(start_x, start_y, map_width, map_height, larger, blk);
}

} // verus!
