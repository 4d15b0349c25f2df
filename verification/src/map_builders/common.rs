//! Carving primitives shared by map-generation strategies: room interiors,
//! corridor segments, and the cosmetic pruning of fully enclosed walls.
use vstd::prelude::*;
use vstd::arithmetic::div_mod::lemma_fundamental_div_mod_converse;
use crate::map::{GameMap, TileType, lemma_idx_inj};
use crate::rect::Rect;

verus! {

/// A coordinate pair lies in the carved interior of `room`.
pub open spec fn room_covers(room: Rect, x: int, y: int) -> bool {
    room.x1 <= x < room.x2 && room.y1 <= y < room.y2
}

/// Carves the interior of `room` to floor, leaving every other tile as
/// it was.
pub fn apply_room_to_map(map: &mut GameMap, room: &Rect)
    requires
        old(map).wf(),
        0 <= room.x1 <= room.x2 <= old(map).width,
        0 <= room.y1 <= room.y2 <= old(map).height,
    ensures
        *final(map) == (GameMap { tiles: final(map).tiles, ..*old(map) }),
        final(map).wf(),
        final(map).tiles@.len() == old(map).tiles@.len(),
        forall|i: int| 0 <= i < final(map).tiles@.len() ==> final(map).tiles@[i]
            == TileType::Floor || final(map).tiles@[i] == old(map).tiles@[i],
        forall|x: int, y: int| room_covers(*room, x, y) ==> final(map).tiles@[#[trigger] old(
            map,
        ).idx_of(x, y)] == TileType::Floor,
        forall|x: int, y: int| old(map).in_bounds(x, y) && !room_covers(*room, x, y)
            ==> final(map).tiles@[#[trigger] old(map).idx_of(x, y)] == old(map).tiles@[old(
            map,
        ).idx_of(x, y)],
{
    let mut y = room.y1;
    while y < room.y2
        invariant
            map.wf(),
            *map == (GameMap { tiles: map.tiles, ..*old(map) }),
            map.tiles@.len() == old(map).tiles@.len(),
            room.y1 <= y <= room.y2,
            0 <= room.x1 <= room.x2 <= map.width,
            0 <= room.y1,
            room.y2 <= map.height,
            forall|i: int| 0 <= i < map.tiles@.len() ==> map.tiles@[i] == TileType::Floor
                || map.tiles@[i] == old(map).tiles@[i],
            forall|xx: int, yy: int| room_covers(*room, xx, yy) && yy < y ==> map.tiles@[
                #[trigger] old(map).idx_of(xx, yy)] == TileType::Floor,
            forall|xx: int, yy: int| old(map).in_bounds(xx, yy) && !room_covers(*room, xx, yy)
                ==> map.tiles@[#[trigger] old(map).idx_of(xx, yy)] == old(map).tiles@[old(
                map,
            ).idx_of(xx, yy)],
        decreases room.y2 - y,
    {
        let mut x = room.x1;
        while x < room.x2
            invariant
                map.wf(),
                *map == (GameMap { tiles: map.tiles, ..*old(map) }),
                map.tiles@.len() == old(map).tiles@.len(),
                room.y1 <= y < room.y2,
                room.x1 <= x <= room.x2,
                0 <= room.x1 <= room.x2 <= map.width,
                0 <= room.y1,
                room.y2 <= map.height,
                forall|i: int| 0 <= i < map.tiles@.len() ==> map.tiles@[i] == TileType::Floor
                    || map.tiles@[i] == old(map).tiles@[i],
                forall|xx: int, yy: int| room_covers(*room, xx, yy) && yy < y ==> map.tiles@[
                    #[trigger] old(map).idx_of(xx, yy)] == TileType::Floor,
                forall|xx: int, yy: int| room_covers(*room, xx, yy) && yy == y && xx < x
                    ==> map.tiles@[#[trigger] old(map).idx_of(xx, yy)] == TileType::Floor,
                forall|xx: int, yy: int| old(map).in_bounds(xx, yy) && !room_covers(*room, xx, yy)
                    ==> map.tiles@[#[trigger] old(map).idx_of(xx, yy)] == old(map).tiles@[old(
                    map,
                ).idx_of(xx, yy)],
            decreases room.x2 - x,
        {
            let ghost prev = *map;
            map.set_tile(x, y, TileType::Floor);
            proof {
                let w = map.width as int;
                let hh = map.height as int;
                assert forall|xx: int, yy: int| old(map).in_bounds(xx, yy) implies map.tiles@[
                    #[trigger] old(map).idx_of(xx, yy)] == if xx == x as int && yy == y as int {
                    TileType::Floor
                } else {
                    prev.tiles@[old(map).idx_of(xx, yy)]
                } by {
                    old(map).lemma_idx_of_bounds(xx, yy);
                    if old(map).idx_of(xx, yy) == old(map).idx_of(x as int, y as int) {
                        lemma_idx_inj(w, hh, xx, yy, x as int, y as int);
                    }
                }
            }
            x += 1;
        }
        y += 1;
    }
}

/// Carves a one-tile-wide vertical corridor at column `x`, spanning the
/// rows between `y1` and `y2` inclusive, in either order.
pub fn apply_vertical_corridor(map: &mut GameMap, x: i32, y1: i32, y2: i32)
    requires
        old(map).wf(),
        0 <= x < old(map).width,
        0 <= y1 < old(map).height,
        0 <= y2 < old(map).height,
    ensures
        *final(map) == (GameMap { tiles: final(map).tiles, ..*old(map) }),
        final(map).wf(),
        final(map).tiles@.len() == old(map).tiles@.len(),
        forall|i: int| 0 <= i < final(map).tiles@.len() ==> final(map).tiles@[i]
            == TileType::Floor || final(map).tiles@[i] == old(map).tiles@[i],
        forall|yy: int| min_int(y1 as int, y2 as int) <= yy <= max_int(y1 as int, y2 as int)
            ==> final(map).tiles@[#[trigger] old(map).idx_of(x as int, yy)] == TileType::Floor,
        forall|xx: int, yy: int| old(map).in_bounds(xx, yy) && !(xx == x && min_int(
            y1 as int,
            y2 as int,
        ) <= yy <= max_int(y1 as int, y2 as int)) ==> final(map).tiles@[#[trigger] old(
            map,
        ).idx_of(xx, yy)] == old(map).tiles@[old(map).idx_of(xx, yy)],
{
    let lo: i32 = if y1 < y2 { y1 } else { y2 };
    let hi: i32 = if y1 < y2 { y2 } else { y1 };
    let mut y = lo;
    while y <= hi
        invariant
            map.wf(),
            *map == (GameMap { tiles: map.tiles, ..*old(map) }),
            map.tiles@.len() == old(map).tiles@.len(),
            lo <= y <= hi + 1,
            0 <= lo,
            hi < map.height,
            0 <= x < map.width,
            forall|i: int| 0 <= i < map.tiles@.len() ==> map.tiles@[i] == TileType::Floor
                || map.tiles@[i] == old(map).tiles@[i],
            forall|yy: int| lo <= yy < y ==> map.tiles@[#[trigger] old(map).idx_of(x as int, yy)]
                == TileType::Floor,
            forall|xx: int, yy: int| old(map).in_bounds(xx, yy) && !(xx == x && lo <= yy <= hi)
                ==> map.tiles@[#[trigger] old(map).idx_of(xx, yy)] == old(map).tiles@[old(
                map,
            ).idx_of(xx, yy)],
        decreases hi + 1 - y,
    {
        let ghost prev = *map;
        map.set_tile(x, y, TileType::Floor);
        proof {
            let w = map.width as int;
            let hh = map.height as int;
            assert forall|xx: int, yy: int| old(map).in_bounds(xx, yy) implies map.tiles@[
                #[trigger] old(map).idx_of(xx, yy)] == if xx == x as int && yy == y as int {
                TileType::Floor
            } else {
                prev.tiles@[old(map).idx_of(xx, yy)]
            } by {
                old(map).lemma_idx_of_bounds(xx, yy);
                if old(map).idx_of(xx, yy) == old(map).idx_of(x as int, y as int) {
                    lemma_idx_inj(w, hh, xx, yy, x as int, y as int);
                }
            }
        }
        y += 1;
    }
}

/// Carves a one-tile-wide horizontal corridor at row `y`, spanning the
/// columns between `x1` and `x2` inclusive, in either order.
pub fn apply_horizontal_corridor(map: &mut GameMap, x1: i32, x2: i32, y: i32)
    requires
        old(map).wf(),
        0 <= x1 < old(map).width,
        0 <= x2 < old(map).width,
        0 <= y < old(map).height,
    ensures
        *final(map) == (GameMap { tiles: final(map).tiles, ..*old(map) }),
        final(map).wf(),
        final(map).tiles@.len() == old(map).tiles@.len(),
        forall|i: int| 0 <= i < final(map).tiles@.len() ==> final(map).tiles@[i]
            == TileType::Floor || final(map).tiles@[i] == old(map).tiles@[i],
        forall|xx: int| min_int(x1 as int, x2 as int) <= xx <= max_int(x1 as int, x2 as int)
            ==> final(map).tiles@[#[trigger] old(map).idx_of(xx, y as int)] == TileType::Floor,
        forall|xx: int, yy: int| old(map).in_bounds(xx, yy) && !(yy == y && min_int(
            x1 as int,
            x2 as int,
        ) <= xx <= max_int(x1 as int, x2 as int)) ==> final(map).tiles@[#[trigger] old(
            map,
        ).idx_of(xx, yy)] == old(map).tiles@[old(map).idx_of(xx, yy)],
{
    let lo: i32 = if x1 < x2 { x1 } else { x2 };
    let hi: i32 = if x1 < x2 { x2 } else { x1 };
    let mut x = lo;
    while x <= hi
        invariant
            map.wf(),
            *map == (GameMap { tiles: map.tiles, ..*old(map) }),
            map.tiles@.len() == old(map).tiles@.len(),
            lo <= x <= hi + 1,
            0 <= lo,
            hi < map.width,
            0 <= y < map.height,
            forall|i: int| 0 <= i < map.tiles@.len() ==> map.tiles@[i] == TileType::Floor
                || map.tiles@[i] == old(map).tiles@[i],
            forall|xx: int| lo <= xx < x ==> map.tiles@[#[trigger] old(map).idx_of(xx, y as int)]
                == TileType::Floor,
            forall|xx: int, yy: int| old(map).in_bounds(xx, yy) && !(yy == y && lo <= xx <= hi)
                ==> map.tiles@[#[trigger] old(map).idx_of(xx, yy)] == old(map).tiles@[old(
                map,
            ).idx_of(xx, yy)],
        decreases hi + 1 - x,
    {
        let ghost prev = *map;
        map.set_tile(x, y, TileType::Floor);
        proof {
            let w = map.width as int;
            let hh = map.height as int;
            assert forall|xx: int, yy: int| old(map).in_bounds(xx, yy) implies map.tiles@[
                #[trigger] old(map).idx_of(xx, yy)] == if xx == x as int && yy == y as int {
                TileType::Floor
            } else {
                prev.tiles@[old(map).idx_of(xx, yy)]
            } by {
                old(map).lemma_idx_of_bounds(xx, yy);
                if old(map).idx_of(xx, yy) == old(map).idx_of(x as int, y as int) {
                    lemma_idx_inj(w, hh, xx, yy, x as int, y as int);
                }
            }
        }
        x += 1;
    }
}

pub open spec fn min_int(a: int, b: int) -> int {
    if a < b {
        a
    } else {
        b
    }
}

pub open spec fn max_int(a: int, b: int) -> int {
    if a < b {
        b
    } else {
        a
    }
}

/// The tile and its full 3x3 neighborhood are walls, strictly inside
/// the border.
pub open spec fn wall_enclosed(m: GameMap, x: int, y: int) -> bool {
    &&& 1 <= x <= m.width - 2
    &&& 1 <= y <= m.height - 2
    &&& m.tiles@[m.idx_of(x - 1, y - 1)] == TileType::Wall
    &&& m.tiles@[m.idx_of(x, y - 1)] == TileType::Wall
    &&& m.tiles@[m.idx_of(x + 1, y - 1)] == TileType::Wall
    &&& m.tiles@[m.idx_of(x - 1, y)] == TileType::Wall
    &&& m.tiles@[m.idx_of(x, y)] == TileType::Wall
    &&& m.tiles@[m.idx_of(x + 1, y)] == TileType::Wall
    &&& m.tiles@[m.idx_of(x - 1, y + 1)] == TileType::Wall
    &&& m.tiles@[m.idx_of(x, y + 1)] == TileType::Wall
    &&& m.tiles@[m.idx_of(x + 1, y + 1)] == TileType::Wall
}

/// Converts every wall tile whose whole 3x3 neighborhood is wall into
/// floor; a cosmetic pass with no effect on reachability.
pub fn remove_useless_walls(map: &mut GameMap)
    requires
        old(map).wf(),
    ensures
        *final(map) == (GameMap { tiles: final(map).tiles, ..*old(map) }),
        final(map).wf(),
        final(map).tiles@.len() == old(map).tiles@.len(),
        forall|x: int, y: int| old(map).in_bounds(x, y) ==> final(map).tiles@[#[trigger] old(
            map,
        ).idx_of(x, y)] == if wall_enclosed(*old(map), x, y) {
            TileType::Floor
        } else {
            old(map).tiles@[old(map).idx_of(x, y)]
        },
        forall|i: int| 0 <= i < final(map).tiles@.len() ==> final(map).tiles@[i]
            == TileType::Floor || final(map).tiles@[i] == old(map).tiles@[i],
{
    let n = map.tiles.len();
    let mut new_tiles: Vec<TileType> = Vec::new();
    let mut i: usize = 0;
    while i < n
        invariant
            map.wf(),
            *map == *old(map),
            n == map.tiles@.len(),
            i <= n,
            new_tiles@.len() == i,
            forall|j: int| 0 <= j < i ==> new_tiles@[j] == if wall_enclosed(
                *old(map),
                j % (old(map).width as int),
                j / (old(map).width as int),
            ) {
                TileType::Floor
            } else {
                old(map).tiles@[j]
            },
        decreases n - i,
    {
        let (x, y) = map.idx_xy(i);
        let enclosed: bool = if x < 1 || x > map.width - 2 || y < 1 || y > map.height - 2 {
            false
        } else {
            map.is_wall(x - 1, y - 1) && map.is_wall(x, y - 1) && map.is_wall(x + 1, y - 1)
                && map.is_wall(x - 1, y) && map.is_wall(x, y) && map.is_wall(x + 1, y)
                && map.is_wall(x - 1, y + 1) && map.is_wall(x, y + 1) && map.is_wall(x + 1, y + 1)
        };
        assert(enclosed == wall_enclosed(*map, x as int, y as int));
        if enclosed {
            new_tiles.push(TileType::Floor);
        } else {
            new_tiles.push(map.tiles[i]);
        }
        i += 1;
    }
    map.tiles = new_tiles;
    proof {
        let w = map.width as int;
        let hh = map.height as int;
        assert forall|x: int, y: int| old(map).in_bounds(x, y) implies map.tiles@[#[trigger] old(
            map,
        ).idx_of(x, y)] == if wall_enclosed(*old(map), x, y) {
            TileType::Floor
        } else {
            old(map).tiles@[old(map).idx_of(x, y)]
        } by {
            old(map).lemma_idx_of_bounds(x, y);
            lemma_fundamental_div_mod_converse(y * w + x, w, y, x);
        }
    }
}

} // verus!
