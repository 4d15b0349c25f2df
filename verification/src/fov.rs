//! Field of view: which tiles a viewer standing on an open tile can see,
//! bounded by Euclidean range and blocked by opaque (wall) tiles.
//!
//! Sight is decided by walking the straight line between viewer and
//! tile; `line_of_sight` is the specification of that walk and
//! `field_of_view` returns exactly the in-bounds, in-range tiles whose
//! walk crosses no wall.
use vstd::prelude::*;
use crate::components::Point;
use crate::map::{GameMap, TileType};

verus! {

/// `(x, y)` lies within Euclidean distance `range` of `(ox, oy)`.
pub open spec fn within_range(ox: int, oy: int, x: int, y: int, range: int) -> bool {
    (x - ox) * (x - ox) + (y - oy) * (y - oy) <= range * range
}

/// A point within Euclidean `range` is within `range` on each axis.
pub proof fn lemma_range_component_bound(ox: int, oy: int, x: int, y: int, range: int)
    requires
        range >= 0,
        within_range(ox, oy, x, y, range),
    ensures
        -range <= x - ox <= range,
        -range <= y - oy <= range,
{
    assert(-range <= x - ox <= range && -range <= y - oy <= range) by (nonlinear_arith)
        requires range >= 0 && (x - ox) * (x - ox) + (y - oy) * (y - oy) <= range * range;
}

/// One state of the straight-line walk from `(x0, y0)` to `(x1, y1)`:
/// whether, continuing from `(x, y)` with error term `err` and `fuel`
/// steps left, the walk reaches the target without crossing a wall or
/// leaving the working window. Strictly intermediate tiles must be
/// in bounds and transparent; the endpoints themselves may be opaque.
pub open spec fn walk_clear(
    tiles: Seq<TileType>,
    w: int,
    h: int,
    x0: int,
    y0: int,
    x1: int,
    y1: int,
    x: int,
    y: int,
    err: int,
    dx: int,
    dy: int,
    sx: int,
    sy: int,
    fuel: int,
) -> bool
    decreases fuel,
{
    if fuel <= 0 {
        false
    } else if x == x1 && y == y1 {
        true
    } else if !(x == x0 && y == y0) && (!(0 <= x < w && 0 <= y < h) || tiles[y * w + x]
        == TileType::Wall) {
        false
    } else {
        let e2 = 2 * err;
        let err1 = if e2 >= dy {
            err + dy
        } else {
            err
        };
        let x2 = if e2 >= dy {
            x + sx
        } else {
            x
        };
        let err2 = if e2 <= dx {
            err1 + dx
        } else {
            err1
        };
        let y2 = if e2 <= dx {
            y + sy
        } else {
            y
        };
        if x2 < -0x1000 || x2 > 0x1000 || y2 < -0x1000 || y2 > 0x1000 {
            false
        } else {
            walk_clear(tiles, w, h, x0, y0, x1, y1, x2, y2, err2, dx, dy, sx, sy, fuel - 1)
        }
    }
}

/// The straight line from `(x0, y0)` to `(x1, y1)` crosses no wall.
pub open spec fn line_of_sight(
    tiles: Seq<TileType>,
    w: int,
    h: int,
    x0: int,
    y0: int,
    x1: int,
    y1: int,
) -> bool {
    let dx = if x1 >= x0 {
        x1 - x0
    } else {
        x0 - x1
    };
    let dy = -(if y1 >= y0 {
        y1 - y0
    } else {
        y0 - y1
    });
    let sx: int = if x0 < x1 {
        1
    } else {
        -1
    };
    let sy: int = if y0 < y1 {
        1
    } else {
        -1
    };
    walk_clear(tiles, w, h, x0, y0, x1, y1, x0, y0, dx + dy, dx, dy, sx, sy, dx - dy + 1)
}

/// Decides `line_of_sight` by walking the line.
fn line_clear(map: &GameMap, x0: i32, y0: i32, x1: i32, y1: i32) -> (r: bool)
    requires
        map.wf(),
        map.in_bounds(x0 as int, y0 as int),
        map.in_bounds(x1 as int, y1 as int),
    ensures
        r == line_of_sight(
            map.tiles@,
            map.width as int,
            map.height as int,
            x0 as int,
            y0 as int,
            x1 as int,
            y1 as int,
        ),
{
    let dx: i64 = if x1 >= x0 {
        (x1 - x0) as i64
    } else {
        (x0 - x1) as i64
    };
    let dy: i64 = -(if y1 >= y0 {
        (y1 - y0) as i64
    } else {
        (y0 - y1) as i64
    });
    let sx: i32 = if x0 < x1 {
        1
    } else {
        -1
    };
    let sy: i32 = if y0 < y1 {
        1
    } else {
        -1
    };
    let mut err: i64 = dx + dy;
    let mut x = x0;
    let mut y = y0;
    let mut fuel: i64 = dx - dy + 1;
    loop
        invariant
            map.wf(),
            -0x1000 <= x <= 0x1000,
            -0x1000 <= y <= 0x1000,
            -0x80000 <= err <= 0x80000,
            0 <= dx <= 0x20000,
            -0x20000 <= dy <= 0,
            fuel <= 0x40001,
            sx == 1 || sx == -1,
            sy == 1 || sy == -1,
            line_of_sight(
                map.tiles@,
                map.width as int,
                map.height as int,
                x0 as int,
                y0 as int,
                x1 as int,
                y1 as int,
            ) == walk_clear(
                map.tiles@,
                map.width as int,
                map.height as int,
                x0 as int,
                y0 as int,
                x1 as int,
                y1 as int,
                x as int,
                y as int,
                err as int,
                dx as int,
                dy as int,
                sx as int,
                sy as int,
                fuel as int,
            ),
        decreases fuel,
    {
        if fuel <= 0 {
            return false;
        }
        if x == x1 && y == y1 {
            return true;
        }
        let intermediate = !(x == x0 && y == y0);
        if intermediate {
            if x < 0 || x >= map.width || y < 0 || y >= map.height {
                return false;
            }
            if map.is_wall(x, y) {
                return false;
            }
        }
        let e2: i64 = 2 * err;
        if e2 >= dy {
            err = err + dy;
            x = x + sx;
        }
        if e2 <= dx {
            err = err + dx;
            y = y + sy;
        }
        if x < -0x1000 || x > 0x1000 || y < -0x1000 || y > 0x1000 {
            return false;
        }
        fuel = fuel - 1;
    }
}

/// Computes the set of tiles visible from `origin` within `range`: a
/// tile is in the result iff it is in bounds, within Euclidean range of
/// the origin, and in the origin's line of sight.
pub fn field_of_view(map: &GameMap, origin: Point, range: i32) -> (r: Vec<Point>)
    requires
        map.wf(),
        map.in_bounds(origin.x as int, origin.y as int),
        0 <= range <= 0x1000,
    ensures
        forall|k: int| #![trigger r@[k]] 0 <= k < r@.len() ==> map.in_bounds(
            r@[k].x as int,
            r@[k].y as int,
        ) && within_range(origin.x as int, origin.y as int, r@[k].x as int, r@[k].y as int, range as int)
            && line_of_sight(
            map.tiles@,
            map.width as int,
            map.height as int,
            origin.x as int,
            origin.y as int,
            r@[k].x as int,
            r@[k].y as int,
        ),
        forall|x2: int, y2: int|
            map.in_bounds(x2, y2) && within_range(origin.x as int, origin.y as int, x2, y2, range as int)
                && line_of_sight(
                map.tiles@,
                map.width as int,
                map.height as int,
                origin.x as int,
                origin.y as int,
                x2,
                y2,
            ) ==> exists|k: int|
                0 <= k < r@.len() && (#[trigger] r@[k]) == (Point { x: x2 as i32, y: y2 as i32 }),
{
    let ghost ox = origin.x as int;
    let ghost oy = origin.y as int;
    let mut result: Vec<Point> = Vec::new();
    proof {
        assert forall|x2: int, y2: int|
            map.in_bounds(x2, y2) && within_range(ox, oy, x2, y2, range as int) && line_of_sight(
                map.tiles@,
                map.width as int,
                map.height as int,
                ox,
                oy,
                x2,
                y2,
            ) && y2 - oy < -range implies exists|k: int|
            0 <= k < result@.len() && (#[trigger] result@[k]) == (Point {
                x: x2 as i32,
                y: y2 as i32,
            }) by {
            lemma_range_component_bound(ox, oy, x2, y2, range as int);
        }
    }
    let mut dy: i32 = -range;
    while dy <= range
        invariant
            map.wf(),
            map.in_bounds(ox, oy),
            origin.x as int == ox,
            origin.y as int == oy,
            0 <= range <= 0x1000,
            -range <= dy <= range + 1,
            forall|k: int| #![trigger result@[k]] 0 <= k < result@.len() ==> map.in_bounds(
                result@[k].x as int,
                result@[k].y as int,
            ) && within_range(ox, oy, result@[k].x as int, result@[k].y as int, range as int)
                && line_of_sight(
                map.tiles@,
                map.width as int,
                map.height as int,
                ox,
                oy,
                result@[k].x as int,
                result@[k].y as int,
            ),
            forall|x2: int, y2: int|
                map.in_bounds(x2, y2) && within_range(ox, oy, x2, y2, range as int)
                    && line_of_sight(map.tiles@, map.width as int, map.height as int, ox, oy, x2, y2)
                    && y2 - oy < dy ==> exists|k: int|
                    0 <= k < result@.len() && (#[trigger] result@[k]) == (Point {
                        x: x2 as i32,
                        y: y2 as i32,
                    }),
        decreases range + 1 - dy,
    {
        proof {
            assert forall|x2: int, y2: int|
                map.in_bounds(x2, y2) && within_range(ox, oy, x2, y2, range as int)
                    && line_of_sight(map.tiles@, map.width as int, map.height as int, ox, oy, x2, y2)
                    && (y2 - oy < dy || (y2 - oy == dy && x2
                    - ox < -range)) implies exists|k: int|
                0 <= k < result@.len() && (#[trigger] result@[k]) == (Point {
                    x: x2 as i32,
                    y: y2 as i32,
                }) by {
                lemma_range_component_bound(ox, oy, x2, y2, range as int);
            }
        }
        let mut dx: i32 = -range;
        while dx <= range
            invariant
                map.wf(),
                map.in_bounds(ox, oy),
                origin.x as int == ox,
                origin.y as int == oy,
                0 <= range <= 0x1000,
                -range <= dy <= range,
                -range <= dx <= range + 1,
                forall|k: int| #![trigger result@[k]] 0 <= k < result@.len() ==> map.in_bounds(
                    result@[k].x as int,
                    result@[k].y as int,
                ) && within_range(ox, oy, result@[k].x as int, result@[k].y as int, range as int)
                    && line_of_sight(
                    map.tiles@,
                    map.width as int,
                    map.height as int,
                    ox,
                    oy,
                    result@[k].x as int,
                    result@[k].y as int,
                ),
                forall|x2: int, y2: int|
                    map.in_bounds(x2, y2) && within_range(ox, oy, x2, y2, range as int)
                        && line_of_sight(map.tiles@, map.width as int, map.height as int, ox, oy, x2, y2)
                    && (y2 - oy < dy || (y2 - oy == dy
                        && x2 - ox < dx)) ==> exists|k: int|
                        0 <= k < result@.len() && (#[trigger] result@[k]) == (Point {
                            x: x2 as i32,
                            y: y2 as i32,
                        }),
            decreases range + 1 - dx,
        {
            proof {
                let dxi: int = dx as int;
                let dyi: int = dy as int;
                let ri: int = range as int;
                assert(0 <= dxi * dxi <= 0x1000000) by (nonlinear_arith)
                    requires -0x1000 <= dxi <= 0x1000;
                assert(0 <= dyi * dyi <= 0x1000000) by (nonlinear_arith)
                    requires -0x1000 <= dyi <= 0x1000;
                assert(0 <= ri * ri <= 0x1000000) by (nonlinear_arith)
                    requires 0 <= ri <= 0x1000;
            }
            let ghost result_pre = result@;
            let in_range = dx * dx + dy * dy <= range * range;
            let x = origin.x + dx;
            let y = origin.y + dy;
            let mut pushed = false;
            if in_range {
                if x >= 0 && x < map.width && y >= 0 && y < map.height {
                    if line_clear(map, origin.x, origin.y, x, y) {
                        result.push(Point { x, y });
                        pushed = true;
                    }
                }
            }
            proof {
                assert forall|x2: int, y2: int|
                    map.in_bounds(x2, y2) && within_range(ox, oy, x2, y2, range as int)
                        && line_of_sight(map.tiles@, map.width as int, map.height as int, ox, oy, x2, y2)
                    && (y2 - oy < dy || (y2 - oy == dy
                        && x2 - ox < dx + 1)) implies exists|k: int|
                    0 <= k < result@.len() && (#[trigger] result@[k]) == (Point {
                        x: x2 as i32,
                        y: y2 as i32,
                    }) by {
                    if y2 - oy == dy && x2 - ox == dx {
                        // This very candidate: it is in range, in bounds
                        // and sighted, so it was pushed this iteration.
                        assert(x2 == x as int && y2 == y as int);
                        assert(result@[result@.len() - 1] == (Point { x: x2 as i32, y: y2 as i32 }));
                    } else {
                        let k = choose|k: int|
                            0 <= k < result_pre.len() && (#[trigger] result_pre[k]) == (Point {
                                x: x2 as i32,
                                y: y2 as i32,
                            });
                        assert(result@[k] == (Point { x: x2 as i32, y: y2 as i32 }));
                    }
                }
            }
            dx += 1;
        }
        proof {
            assert forall|x2: int, y2: int|
                map.in_bounds(x2, y2) && within_range(ox, oy, x2, y2, range as int)
                    && line_of_sight(map.tiles@, map.width as int, map.height as int, ox, oy, x2, y2)
                    && y2 - oy < dy + 1 implies exists|
                k: int,
            |
                0 <= k < result@.len() && (#[trigger] result@[k]) == (Point {
                    x: x2 as i32,
                    y: y2 as i32,
                }) by {
                lemma_range_component_bound(ox, oy, x2, y2, range as int);
            }
        }
        dy += 1;
    }
    proof {
        assert forall|x2: int, y2: int|
            map.in_bounds(x2, y2) && within_range(ox, oy, x2, y2, range as int) && line_of_sight(
                map.tiles@,
                map.width as int,
                map.height as int,
                ox,
                oy,
                x2,
                y2,
            ) implies exists|k: int|
            0 <= k < result@.len() && (#[trigger] result@[k]) == (Point {
                x: x2 as i32,
                y: y2 as i32,
            }) by {
            lemma_range_component_bound(ox, oy, x2, y2, range as int);
        }
    }
    result
}

} // verus!
