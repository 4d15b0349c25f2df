//! The default generation strategy: randomized non-overlapping rooms,
//! L-shaped corridors between consecutive room centers, a staircase at the
//! center of the last room, and a cosmetic wall-pruning pass.
//!
//! The contract of `rooms_and_corridors` carries the generator's central
//! guarantees: every pair of room centers is connected by a walk over
//! non-wall tiles, exactly one staircase exists and sits at the last
//! room's center, rooms never overlap, and the starting position is the
//! first room's center.
use vstd::prelude::*;
use crate::components::Position;
use crate::map::{GameMap, TileType};
use crate::map_builders::common::{
    apply_horizontal_corridor, apply_room_to_map, apply_vertical_corridor, max_int, min_int,
    remove_useless_walls, room_covers, wall_enclosed,
};
use crate::reachability::{
    lemma_horizontal_reachable, lemma_reachable_monotone, lemma_reachable_refl,
    lemma_reachable_sym, lemma_reachable_trans, lemma_vertical_reachable, pt_in_bounds,
    reachable, tile_walkable,
};
use crate::map_builders::MapBuilder;
use crate::rect::Rect;
use crate::rng::Rng;
use crate::spawner::fill_room;
use crate::item_use_system::{item_exclusive, unique_equipped};
use crate::world::{World, live_slots_preserved};

verus! {

/// Whether generation keeps intermediate snapshots for the map-reveal
/// animation of the front end.
pub const SHOW_MAPGEN_ANIMATION: bool = false;

pub struct SimpleMapBuilder {
    pub map: GameMap,
    pub starting_position: Position,
    pub depth: i32,
    pub history: Vec<GameMap>,
}

/// The room sits strictly inside the map border and is non-degenerate.
pub open spec fn room_ok(m: GameMap, r: Rect) -> bool {
    &&& 1 <= r.x1 < r.x2
    &&& r.x2 <= m.width - 1
    &&& 1 <= r.y1 < r.y2
    &&& r.y2 <= m.height - 1
}

/// Every tile is still plain wall or floor.
pub open spec fn no_stairs(tiles: Seq<TileType>) -> bool {
    forall|i: int| 0 <= i < tiles.len() ==> #[trigger] tiles[i] == TileType::Wall || tiles[i]
        == TileType::Floor
}

/// All recorded rooms sit inside the border, pairwise non-overlapping.
pub open spec fn rooms_ok(m: GameMap) -> bool {
    &&& forall|k: int| 0 <= k < m.rooms@.len() ==> room_ok(m, #[trigger] m.rooms@[k])
    &&& forall|j: int, k: int| 0 <= j < k < m.rooms@.len() ==> !#[trigger] m.rooms@[j].spec_intersect(
        m.rooms@[k],
    )
}

/// The center of every recorded room is walkable.
pub open spec fn centers_walkable(m: GameMap) -> bool {
    forall|k: int| 0 <= k < m.rooms@.len() ==> tile_walkable(
        m.tiles@,
        m.width as int,
        (#[trigger] m.rooms@[k]).spec_center(),
    )
}

/// Every room center can be walked to from every other room center.
pub open spec fn centers_connected(m: GameMap) -> bool {
    forall|j: int, k: int| 0 <= j < m.rooms@.len() && 0 <= k < m.rooms@.len() ==> reachable(
        m.tiles@,
        m.width as int,
        m.height as int,
        (#[trigger] m.rooms@[j]).spec_center(),
        (#[trigger] m.rooms@[k]).spec_center(),
    )
}

/// A staircase down sits exactly at `(sx, sy)` and nowhere else.
pub open spec fn single_stairs_at(m: GameMap, sx: int, sy: int) -> bool {
    forall|i: int| 0 <= i < m.tiles@.len() ==> ((#[trigger] m.tiles@[i] == TileType::StairsDown)
        <==> i == m.idx_of(sx, sy))
}

/// The center of a non-degenerate room lies in its carved interior.
proof fn lemma_center_in_room(r: Rect)
    requires
        r.x1 < r.x2,
        r.y1 < r.y2,
        0 <= r.x1,
        0 <= r.y1,
    ensures
        room_covers(r, r.spec_center().0, r.spec_center().1),
{
    let cx = (r.x1 + r.x2) / 2;
    let cy = (r.y1 + r.y2) / 2;
    assert(r.x1 <= cx && cx < r.x2) by (nonlinear_arith)
        requires cx == (r.x1 + r.x2) / 2 && 0 <= r.x1 < r.x2;
    assert(r.y1 <= cy && cy < r.y2) by (nonlinear_arith)
        requires cy == (r.y1 + r.y2) / 2 && 0 <= r.y1 < r.y2;
}

impl SimpleMapBuilder {
    pub fn new(new_depth: i32) -> (b: SimpleMapBuilder)
        ensures
            b.map.wf(),
            b.map.depth == new_depth,
            b.depth == new_depth,
            b.map.rooms@.len() == 0,
            forall|i: int| 0 <= i < b.map.tiles@.len() ==> b.map.tiles@[i] == TileType::Wall,
            b.map.width == 80,
            b.map.height == 40,
            b.starting_position == (Position { x: 0, y: 0 }),
            b.history@.len() == 0,
    {
        SimpleMapBuilder {
            map: GameMap::new(new_depth),
            starting_position: Position { x: 0, y: 0 },
            depth: new_depth,
            history: Vec::new(),
        }
    }

    /// Records a fully revealed copy of the map under construction, when
    /// the animation toggle asks for one. Cosmetic only.
    pub fn take_snapshot(&mut self)
        ensures
            *final(self) == (SimpleMapBuilder { history: final(self).history, ..*old(self) }),
            final(self).history@.len() >= old(self).history@.len(),
    {
        if SHOW_MAPGEN_ANIMATION {
            let mut snapshot = self.map.clone();
            let n = snapshot.revealed_tiles.len();
            let mut i: usize = 0;
            while i < n
                invariant
                    i <= n,
                    snapshot.revealed_tiles@.len() == n,
                decreases n - i,
            {
                snapshot.revealed_tiles.set(i, true);
                i += 1;
            }
            self.history.push(snapshot);
        }
    }

    /// Places up to `max_rooms` random non-overlapping rooms, connects
    /// consecutive rooms with an L-shaped corridor, places the staircase
    /// at the last room's center and prunes fully enclosed walls.
    #[verifier::rlimit(100)]
    #[verifier::spinoff_prover]
    pub fn rooms_and_corridors(&mut self, rng: &mut Rng, max_rooms: i32, min_size: i32, max_size: i32)
        requires
            old(self).map.wf(),
            old(self).map.rooms@.len() == 0,
            forall|i: int| 0 <= i < old(self).map.tiles@.len() ==> old(self).map.tiles@[i]
                == TileType::Wall,
            1 <= max_rooms,
            1 <= min_size,
            min_size < max_size,
            max_size + 3 <= old(self).map.width,
            max_size + 3 <= old(self).map.height,
        ensures
            final(self).map.wf(),
            final(self).map == (GameMap {
                tiles: final(self).map.tiles,
                rooms: final(self).map.rooms,
                ..old(self).map
            }),
            final(self).depth == old(self).depth,
            final(self).history@.len() >= old(self).history@.len(),
            1 <= final(self).map.rooms@.len() <= max_rooms,
            rooms_ok(final(self).map),
            centers_connected(final(self).map),
            single_stairs_at(
                final(self).map,
                final(self).map.rooms@.last().spec_center().0,
                final(self).map.rooms@.last().spec_center().1,
            ),
            final(self).starting_position == (Position {
                x: final(self).map.rooms@[0].spec_center().0 as i32,
                y: final(self).map.rooms@[0].spec_center().1 as i32,
            }),
    {
        self.take_snapshot();
        // Room placement: sample, reject on overlap, carve on success.
        let mut count: i32 = 0;
        while count < max_rooms
            invariant
                self.map.wf(),
                self.map == (GameMap {
                    tiles: self.map.tiles,
                    rooms: self.map.rooms,
                    ..old(self).map
                }),
                self.depth == old(self).depth,
                self.starting_position == old(self).starting_position,
                self.history@.len() >= old(self).history@.len(),
                0 <= count <= max_rooms,
                count > 0 ==> self.map.rooms@.len() >= 1,
                self.map.rooms@.len() <= count,
                1 <= min_size,
                min_size < max_size,
                max_size + 3 <= self.map.width,
                max_size + 3 <= self.map.height,
                rooms_ok(self.map),
                no_stairs(self.map.tiles@),
                centers_walkable(self.map),
            decreases max_rooms - count,
        {
            let w = rng.range(min_size, max_size);
            let h = rng.range(min_size, max_size);
            let x = rng.range(1, self.map.width - w - 1);
            let y = rng.range(1, self.map.height - h - 1);

            let new_room = Rect::new(x, y, w, h);
            let mut place_room = true;

            let nrooms = self.map.rooms.len();
            let mut ri: usize = 0;
            while ri < nrooms
                invariant
                    nrooms == self.map.rooms@.len(),
                    ri <= nrooms,
                    nrooms == 0 ==> place_room,
                    place_room ==> forall|j: int| 0 <= j < ri ==> !new_room.spec_intersect(
                        #[trigger] self.map.rooms@[j],
                    ),
                decreases nrooms - ri,
            {
                if new_room.intersect(&self.map.rooms[ri]) {
                    place_room = false;
                }
                ri += 1;
            }

            if place_room {
                let ghost before = self.map;
                apply_room_to_map(&mut self.map, &new_room);
                proof {
                    let m = self.map;
                    let w_i = m.width as int;
                    let h_i = m.height as int;
                    assert forall|k: int| 0 <= k < m.rooms@.len() implies tile_walkable(
                        m.tiles@,
                        w_i,
                        (#[trigger] m.rooms@[k]).spec_center(),
                    ) by {
                        let c = m.rooms@[k].spec_center();
                        lemma_center_in_room(m.rooms@[k]);
                        before.lemma_idx_of_bounds(c.0, c.1);
                        assert(before.tiles@[before.idx_of(c.0, c.1)] != TileType::Wall);
                    }
                    lemma_center_in_room(new_room);
                    let nc = new_room.spec_center();
                    assert(m.tiles@[before.idx_of(nc.0, nc.1)] == TileType::Floor);
                    before.lemma_idx_of_bounds(nc.0, nc.1);
                }
                self.map.rooms.push(new_room);
                proof {
                    assert forall|j: int, k: int| 0 <= j < k < self.map.rooms@.len() implies !(
                    #[trigger] self.map.rooms@[j]).spec_intersect(#[trigger] self.map.rooms@[k]) by {
                        if k < self.map.rooms@.len() - 1 {
                        } else {
                            assert(!new_room.spec_intersect(self.map.rooms@[j]));
                        }
                    }
                }
            }
            self.take_snapshot();
            count += 1;
        }

        // Corridors: connect each room to its predecessor with one
        // horizontal and one vertical segment between their centers.
        let nrooms = self.map.rooms.len();
        proof {
            let m = self.map;
            let c0 = m.rooms@[0].spec_center();
            lemma_center_in_room(m.rooms@[0]);
            lemma_reachable_refl(m.tiles@, m.width as int, m.height as int, c0);
        }
        let mut i: usize = 1;
        while i < nrooms
            invariant
                self.map.wf(),
                self.map == (GameMap {
                    tiles: self.map.tiles,
                    rooms: self.map.rooms,
                    ..old(self).map
                }),
                self.depth == old(self).depth,
                self.starting_position == old(self).starting_position,
                self.history@.len() >= old(self).history@.len(),
                1 <= i,
                nrooms == self.map.rooms@.len(),
                nrooms >= 1,
                i <= nrooms || i == 1,
                rooms_ok(self.map),
                no_stairs(self.map.tiles@),
                centers_walkable(self.map),
                forall|k: int| 0 <= k < i && k < nrooms ==> reachable(
                    self.map.tiles@,
                    self.map.width as int,
                    self.map.height as int,
                    self.map.rooms@[0].spec_center(),
                    (#[trigger] self.map.rooms@[k]).spec_center(),
                ),
            decreases nrooms - i,
        {
            let room_cur = self.map.rooms[i];
            let room_prev = self.map.rooms[i - 1];
            let (cx1, cy1) = room_cur.center();
            let (cx2, cy2) = room_prev.center();
            let ghost m0 = self.map;
            let ghost t0 = self.map.tiles@;
            let ghost w_i = self.map.width as int;
            let ghost h_i = self.map.height as int;
            proof {
                lemma_center_in_room(room_cur);
                lemma_center_in_room(room_prev);
            }
            apply_horizontal_corridor(&mut self.map, cx1, cx2, cy1);
            let ghost t1 = self.map.tiles@;
            let ghost mid = self.map;
            apply_vertical_corridor(&mut self.map, cx2, cy1, cy2);
            let ghost t2 = self.map.tiles@;
            proof {
                let c_cur = room_cur.spec_center();
                let c_prev = room_prev.spec_center();
                let c0 = self.map.rooms@[0].spec_center();
                // Carving never walls a tile in: reachability is kept.
                assert(forall|idx: int| 0 <= idx < t0.len() && t0[idx] != TileType::Wall
                    ==> #[trigger] t2[idx] != TileType::Wall);
                // The horizontal segment is walkable end to end.
                assert forall|xx: int| min_int(cx1 as int, cx2 as int) <= xx <= max_int(
                    cx1 as int,
                    cx2 as int,
                ) implies pt_in_bounds(w_i, h_i, (xx, cy1 as int)) && tile_walkable(
                    t2,
                    w_i,
                    (xx, cy1 as int),
                ) by {
                    m0.lemma_idx_of_bounds(xx, cy1 as int);
                    assert(t1[m0.idx_of(xx, cy1 as int)] == TileType::Floor);
                    assert(t2[m0.idx_of(xx, cy1 as int)] != TileType::Wall);
                }
                lemma_horizontal_reachable(
                    t2,
                    w_i,
                    h_i,
                    min_int(cx1 as int, cx2 as int),
                    max_int(cx1 as int, cx2 as int),
                    cy1 as int,
                );
                let r_h: bool = reachable(t2, w_i, h_i, (cx1 as int, cy1 as int), (cx2 as int, cy1 as int));
                if cx1 <= cx2 {
                    assert(r_h);
                } else {
                    lemma_reachable_sym(t2, w_i, h_i, (cx2 as int, cy1 as int), (cx1 as int, cy1 as int));
                    assert(r_h);
                }
                // The vertical segment is walkable end to end.
                assert forall|yy: int| min_int(cy1 as int, cy2 as int) <= yy <= max_int(
                    cy1 as int,
                    cy2 as int,
                ) implies pt_in_bounds(w_i, h_i, (cx2 as int, yy)) && tile_walkable(
                    t2,
                    w_i,
                    (cx2 as int, yy),
                ) by {
                    mid.lemma_idx_of_bounds(cx2 as int, yy);
                    assert(t2[mid.idx_of(cx2 as int, yy)] == TileType::Floor);
                }
                lemma_vertical_reachable(
                    t2,
                    w_i,
                    h_i,
                    cx2 as int,
                    min_int(cy1 as int, cy2 as int),
                    max_int(cy1 as int, cy2 as int),
                );
                let r_v: bool = reachable(t2, w_i, h_i, (cx2 as int, cy1 as int), (cx2 as int, cy2 as int));
                if cy1 <= cy2 {
                    assert(r_v);
                } else {
                    lemma_reachable_sym(t2, w_i, h_i, (cx2 as int, cy2 as int), (cx2 as int, cy1 as int));
                    assert(r_v);
                }
                lemma_reachable_trans(
                    t2,
                    w_i,
                    h_i,
                    (cx1 as int, cy1 as int),
                    (cx2 as int, cy1 as int),
                    (cx2 as int, cy2 as int),
                );
                assert(reachable(t2, w_i, h_i, c_cur, c_prev));
                // Earlier connections survive the carving.
                assert forall|k: int| 0 <= k < i + 1 && k < nrooms implies reachable(
                    t2,
                    w_i,
                    h_i,
                    c0,
                    (#[trigger] self.map.rooms@[k]).spec_center(),
                ) by {
                    if k < i {
                        lemma_reachable_monotone(
                            t0,
                            t2,
                            w_i,
                            h_i,
                            c0,
                            self.map.rooms@[k].spec_center(),
                        );
                    } else {
                        lemma_reachable_monotone(t0, t2, w_i, h_i, c0, c_prev);
                        lemma_reachable_sym(t2, w_i, h_i, c_cur, c_prev);
                        lemma_reachable_trans(t2, w_i, h_i, c0, c_prev, c_cur);
                    }
                }
                // Centers stay walkable.
                assert forall|k: int| 0 <= k < self.map.rooms@.len() implies tile_walkable(
                    t2,
                    w_i,
                    (#[trigger] self.map.rooms@[k]).spec_center(),
                ) by {
                    let c = self.map.rooms@[k].spec_center();
                    lemma_center_in_room(self.map.rooms@[k]);
                    mid.lemma_idx_of_bounds(c.0, c.1);
                    assert(t0[mid.idx_of(c.0, c.1)] != TileType::Wall);
                }
            }
            self.take_snapshot();
            i += 1;
        }

        // Staircase down at the center of the last placed room.
        let nrooms = self.map.rooms.len();
        let last_room = self.map.rooms[nrooms - 1];
        let (sx, sy) = last_room.center();
        let ghost t_pre_stairs = self.map.tiles@;
        let ghost pre_stairs = self.map;
        proof {
            lemma_center_in_room(last_room);
        }
        self.map.set_tile(sx, sy, TileType::StairsDown);
        proof {
            let w_i = self.map.width as int;
            let h_i = self.map.height as int;
            let c0 = self.map.rooms@[0].spec_center();
            let t = self.map.tiles@;
            assert forall|k: int| 0 <= k < self.map.rooms@.len() implies reachable(
                t,
                w_i,
                h_i,
                c0,
                (#[trigger] self.map.rooms@[k]).spec_center(),
            ) by {
                lemma_reachable_monotone(
                    t_pre_stairs,
                    t,
                    w_i,
                    h_i,
                    c0,
                    self.map.rooms@[k].spec_center(),
                );
            }
            assert(single_stairs_at(self.map, sx as int, sy as int));
        }

        // Cosmetic pass: open up fully enclosed wall blocks.
        let ghost t_pre_prune = self.map.tiles@;
        let ghost pre_prune = self.map;
        remove_useless_walls(&mut self.map);
        proof {
            let w_i = self.map.width as int;
            let h_i = self.map.height as int;
            let c0 = self.map.rooms@[0].spec_center();
            let t = self.map.tiles@;
            assert forall|k: int| 0 <= k < self.map.rooms@.len() implies reachable(
                t,
                w_i,
                h_i,
                c0,
                (#[trigger] self.map.rooms@[k]).spec_center(),
            ) by {
                lemma_reachable_monotone(
                    t_pre_prune,
                    t,
                    w_i,
                    h_i,
                    c0,
                    self.map.rooms@[k].spec_center(),
                );
            }
            // The staircase is not a wall, so the pruning pass keeps it,
            // and it turns walls into floor only: uniqueness is kept.
            assert forall|ii: int| 0 <= ii < t.len() implies ((#[trigger] t[ii]
                == TileType::StairsDown) <==> ii == self.map.idx_of(sx as int, sy as int)) by {
                let xx = ii % w_i;
                let yy = ii / w_i;
                crate::map::lemma_idx_xy_bounds(w_i, h_i, ii);
                assert(pre_prune.idx_of(xx, yy) == ii);
                assert(t[pre_prune.idx_of(xx, yy)] == if wall_enclosed(pre_prune, xx, yy) {
                    TileType::Floor
                } else {
                    t_pre_prune[pre_prune.idx_of(xx, yy)]
                });
            }
        }

        // The player enters at the center of the first room.
        let first_room = self.map.rooms[0];
        let (px, py) = first_room.center();
        self.starting_position = Position { x: px, y: py };

        proof {
            // Pairwise connectivity follows from connectivity to the
            // first room's center.
            let m = self.map;
            let w_i = m.width as int;
            let h_i = m.height as int;
            let c0 = m.rooms@[0].spec_center();
            assert forall|j: int, k: int|
                0 <= j < m.rooms@.len() && 0 <= k < m.rooms@.len() implies reachable(
                m.tiles@,
                w_i,
                h_i,
                (#[trigger] m.rooms@[j]).spec_center(),
                (#[trigger] m.rooms@[k]).spec_center(),
            ) by {
                let cj = m.rooms@[j].spec_center();
                let ck = m.rooms@[k].spec_center();
                assert(reachable(m.tiles@, w_i, h_i, c0, cj));
                assert(reachable(m.tiles@, w_i, h_i, c0, ck));
                lemma_reachable_sym(m.tiles@, w_i, h_i, c0, cj);
                lemma_reachable_trans(m.tiles@, w_i, h_i, cj, c0, ck);
            }
        }
    }
}

impl MapBuilder for SimpleMapBuilder {
    open spec fn builder_ready(&self) -> bool {
        &&& self.map.wf()
        &&& self.map.rooms@.len() == 0
        &&& forall|i: int| 0 <= i < self.map.tiles@.len() ==> self.map.tiles@[i] == TileType::Wall
        &&& self.map.width >= 11
        &&& self.map.height >= 11
        &&& self.map.depth == self.depth
        &&& 1 <= self.depth <= 0x0100_0000
    }

    open spec fn built(&self) -> bool {
        &&& self.map.wf()
        &&& 1 <= self.map.rooms@.len()
        &&& rooms_ok(self.map)
        &&& centers_connected(self.map)
        &&& single_stairs_at(
            self.map,
            self.map.rooms@.last().spec_center().0,
            self.map.rooms@.last().spec_center().1,
        )
        &&& self.starting_position == (Position {
            x: self.map.rooms@[0].spec_center().0 as i32,
            y: self.map.rooms@[0].spec_center().1 as i32,
        })
        &&& self.map.depth == self.depth
        &&& 1 <= self.depth <= 0x0100_0000
    }

    open spec fn spec_map(&self) -> GameMap {
        self.map
    }

    open spec fn spec_starting_position(&self) -> Position {
        self.starting_position
    }

    fn build_map(&mut self, rng: &mut Rng) {
        self.rooms_and_corridors(rng, 10, 4, 8);
    }

    fn spawn_entities(&mut self, world: &mut World, rng: &mut Rng) {
        let n = self.map.rooms.len();
        let mut i: usize = 1;
        while i < n
            invariant
                world.wf(),
                live_slots_preserved(*old(world), *world),
                forall|q: int| 0 <= q < world@.len() && (#[trigger] world@[q]).alive ==> (q < old(
                    world,
                )@.len() && old(world)@[q].alive && world@[q] == old(world)@[q]) || exists|k: int|
                    1 <= k < self.map.rooms@.len() && crate::spawner::room_spawn_ok(
                        world@[q],
                        self.map.rooms@[k],
                    ),
                item_exclusive(old(world)@) ==> item_exclusive(world@),
                unique_equipped(old(world)@) ==> unique_equipped(world@),
                *self == *old(self),
                old(self).built(),
                n == self.map.rooms@.len(),
                1 <= i,
                i <= n,
            decreases n - i,
        {
            let room = self.map.rooms[i];
            let ghost w_pre = world@;
            fill_room(world, rng, &room, self.depth);
            proof {
                assert forall|q: int|
                    0 <= q < world@.len() && (#[trigger] world@[q]).alive implies (q < old(
                    world,
                )@.len() && old(world)@[q].alive && world@[q] == old(world)@[q]) || exists|k: int|
                    1 <= k < self.map.rooms@.len() && crate::spawner::room_spawn_ok(
                        world@[q],
                        self.map.rooms@[k],
                    ) by {
                    if q < w_pre.len() && w_pre[q].alive && world@[q] == w_pre[q] {
                        if !(q < old(world)@.len() && old(world)@[q].alive && w_pre[q] == old(
                            world,
                        )@[q]) {
                            let k = choose|k: int|
                                1 <= k < self.map.rooms@.len() && crate::spawner::room_spawn_ok(
                                    w_pre[q],
                                    self.map.rooms@[k],
                                );
                            assert(crate::spawner::room_spawn_ok(world@[q], self.map.rooms@[k]));
                        }
                    } else {
                        assert(crate::spawner::room_spawn_ok(world@[q], self.map.rooms@[i as int]));
                    }
                }
            }
            i += 1;
        }
        proof {
            assert forall|q: int|
                0 <= q < world@.len() && (#[trigger] world@[q]).alive implies (q < old(
                world,
            )@.len() && old(world)@[q].alive && world@[q] == old(world)@[q]) || exists|k: int|
                1 <= k < old(self).spec_map().rooms@.len() && crate::spawner::room_spawn_ok(
                    world@[q],
                    old(self).spec_map().rooms@[k],
                ) by {
                if !(q < old(world)@.len() && old(world)@[q].alive && world@[q] == old(
                    world,
                )@[q]) {
                    let k = choose|k: int|
                        1 <= k < self.map.rooms@.len() && crate::spawner::room_spawn_ok(
                            world@[q],
                            self.map.rooms@[k],
                        );
                    assert(1 <= k < old(self).spec_map().rooms@.len()
                        && crate::spawner::room_spawn_ok(world@[q], old(self).spec_map().rooms@[k]));
                }
            }
        }
    }

    fn get_map(&mut self) -> (m: GameMap) {
        let mut out = GameMap::new(self.depth);
        core::mem::swap(&mut out, &mut self.map);
        out
    }

    fn get_starting_position(&mut self) -> (p: Position) {
        self.starting_position
    }

    fn get_map_history(&self) -> Vec<GameMap> {
        self.history.clone()
    }
}

} // verus!
