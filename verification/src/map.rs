//! The dungeon map: a grid of tiles with visibility, blocking and occupancy
//! bookkeeping, plus the room list recorded by the generator.
use vstd::prelude::*;
use crate::rect::Rect;
use crate::world::Entity;

verus! {

pub const MAPWIDTH: usize = 80;
pub const MAPHEIGHT: usize = 40;
pub const MAPCOUNT: usize = MAPWIDTH * MAPHEIGHT;
pub const OFFSET_X: usize = 0;
pub const OFFSET_Y: usize = 11;

#[derive(Clone, Copy, PartialEq, Eq, Structural, Debug)]
pub enum TileType {
    Wall,
    Floor,
    StairsDown,
    StairsUp,
}

#[derive(Clone)]
/// The dungeon level the simulation runs on.
///
/// `blocked` and `tile_content` are derived data, rebuilt from entity
/// positions once per turn by the spatial indexer.
pub struct GameMap {
    pub tiles: Vec<TileType>,
    pub width: i32,
    pub height: i32,
    pub revealed_tiles: Vec<bool>,
    pub visible_tiles: Vec<bool>,
    pub blocked: Vec<bool>,
    pub depth: i32,
    pub tile_content: Vec<Vec<Entity>>,
    pub rooms: Vec<Rect>,
}

pub proof fn lemma_xy_idx_bounds(w: int, h: int, x: int, y: int)
    requires
        0 <= x < w,
        0 <= y < h,
    ensures
        0 <= y * w + x < w * h,
{
    assert(y * w + x < w * h) by (nonlinear_arith)
        requires 0 <= x < w && 0 <= y < h;
    assert(0 <= y * w + x) by (nonlinear_arith)
        requires 0 <= x && 0 <= y && 0 < w;
}

pub proof fn lemma_idx_xy_bounds(w: int, h: int, idx: int)
    requires
        0 < w,
        0 < h,
        0 <= idx < w * h,
    ensures
        0 <= idx % w < w,
        0 <= idx / w < h,
        (idx / w) * w + idx % w == idx,
{
    assert(0 <= idx % w < w && (idx / w) * w + idx % w == idx) by (nonlinear_arith)
        requires 0 < w && 0 <= idx;
    assert(idx / w < h) by (nonlinear_arith)
        requires 0 < w && 0 < h && 0 <= idx < w * h;
    assert(0 <= idx / w) by (nonlinear_arith)
        requires 0 < w && 0 <= idx;
}

fn filled_tiles(n: usize, t: TileType) -> (v: Vec<TileType>)
    ensures
        v@.len() == n,
        forall|i: int| 0 <= i < n ==> v@[i] == t,
{
    let mut v: Vec<TileType> = Vec::new();
    let mut i: usize = 0;
    while i < n
        invariant
            i <= n,
            v@.len() == i,
            forall|j: int| 0 <= j < i ==> v@[j] == t,
        decreases n - i,
    {
        v.push(t);
        i += 1;
    }
    v
}

fn filled_bools(n: usize, b: bool) -> (v: Vec<bool>)
    ensures
        v@.len() == n,
        forall|i: int| 0 <= i < n ==> v@[i] == b,
{
    let mut v: Vec<bool> = Vec::new();
    let mut i: usize = 0;
    while i < n
        invariant
            i <= n,
            v@.len() == i,
            forall|j: int| 0 <= j < i ==> v@[j] == b,
        decreases n - i,
    {
        v.push(b);
        i += 1;
    }
    v
}

fn empty_contents(n: usize) -> (v: Vec<Vec<Entity>>)
    ensures
        v@.len() == n,
        forall|i: int| 0 <= i < n ==> v@[i]@ == Seq::<Entity>::empty(),
{
    let mut v: Vec<Vec<Entity>> = Vec::new();
    let mut i: usize = 0;
    while i < n
        invariant
            i <= n,
            v@.len() == i,
            forall|j: int| 0 <= j < i ==> v@[j]@ == Seq::<Entity>::empty(),
        decreases n - i,
    {
        v.push(Vec::new());
        i += 1;
    }
    v
}

impl GameMap {
    /// Grid dimensions are positive, small enough for index arithmetic,
    /// and every per-tile vector covers the whole grid.
    pub open spec fn wf(self) -> bool {
        &&& 0 < self.width as int
        &&& 0 < self.height as int
        &&& self.width <= 0x1000
        &&& self.height <= 0x1000
        &&& self.tiles@.len() == self.width as int * self.height as int
        &&& self.revealed_tiles@.len() == self.tiles@.len()
        &&& self.visible_tiles@.len() == self.tiles@.len()
        &&& self.blocked@.len() == self.tiles@.len()
        &&& self.tile_content@.len() == self.tiles@.len()
    }

    pub open spec fn in_bounds(self, x: int, y: int) -> bool {
        0 <= x < self.width && 0 <= y < self.height
    }

    pub open spec fn idx_of(self, x: int, y: int) -> int {
        y * self.width + x
    }

    pub proof fn lemma_idx_of_bounds(self, x: int, y: int)
        requires
            self.wf(),
            self.in_bounds(x, y),
        ensures
            0 <= self.idx_of(x, y) < self.tiles@.len(),
    {
        lemma_xy_idx_bounds(self.width as int, self.height as int, x, y);
    }

    /// A fresh level: all walls, nothing revealed, visible or blocked.
    pub fn new(new_depth: i32) -> (m: GameMap)
        ensures
            m.wf(),
            m.width == MAPWIDTH as i32,
            m.height == MAPHEIGHT as i32,
            m.tiles@.len() == MAPCOUNT,
            m.depth == new_depth,
            forall|i: int| 0 <= i < MAPCOUNT ==> m.tiles@[i] == TileType::Wall,
            forall|i: int| 0 <= i < MAPCOUNT ==> !m.revealed_tiles@[i],
            forall|i: int| 0 <= i < MAPCOUNT ==> !m.visible_tiles@[i],
            forall|i: int| 0 <= i < MAPCOUNT ==> !m.blocked@[i],
            forall|i: int| 0 <= i < MAPCOUNT ==> m.tile_content@[i]@ == Seq::<Entity>::empty(),
            m.rooms@ == Seq::<Rect>::empty(),
    {
        GameMap {
            tiles: filled_tiles(MAPCOUNT, TileType::Wall),
            width: MAPWIDTH as i32,
            height: MAPHEIGHT as i32,
            revealed_tiles: filled_bools(MAPCOUNT, false),
            visible_tiles: filled_bools(MAPCOUNT, false),
            blocked: filled_bools(MAPCOUNT, false),
            depth: new_depth,
            tile_content: empty_contents(MAPCOUNT),
            rooms: Vec::new(),
        }
    }

    pub fn xy_idx(&self, x: i32, y: i32) -> (idx: usize)
        requires
            self.wf(),
            self.in_bounds(x as int, y as int),
        ensures
            idx as int == self.idx_of(x as int, y as int),
            idx < self.tiles@.len(),
    {
        let n = self.tiles.len();
        proof {
            self.lemma_idx_of_bounds(x as int, y as int);
            let yy: int = y as int;
            let ww: int = self.width as int;
            let xx: int = x as int;
            let nn: int = n as int;
            assert(yy * ww <= yy * ww + xx);
            assert(yy * ww + xx < nn);
        }
        (y as usize * self.width as usize) + x as usize
    }

    pub fn idx_xy(&self, idx: usize) -> (c: (i32, i32))
        requires
            self.wf(),
            idx < self.tiles@.len(),
        ensures
            self.in_bounds(c.0 as int, c.1 as int),
            self.idx_of(c.0 as int, c.1 as int) == idx as int,
            c.0 as int == idx as int % self.width as int,
            c.1 as int == idx as int / self.width as int,
    {
        proof {
            lemma_idx_xy_bounds(self.width as int, self.height as int, idx as int);
        }
        ((idx % self.width as usize) as i32, (idx / self.width as usize) as i32)
    }

    pub fn set_tile(&mut self, x: i32, y: i32, value: TileType)
        requires
            old(self).wf(),
            old(self).in_bounds(x as int, y as int),
        ensures
            *final(self) == (GameMap { tiles: final(self).tiles, ..*old(self) }),
            final(self).tiles@ == old(self).tiles@.update(
                old(self).idx_of(x as int, y as int),
                value,
            ),
            0 <= old(self).idx_of(x as int, y as int) < old(self).tiles@.len(),
            final(self).wf(),
    {
        let idx = self.xy_idx(x, y);
        self.tiles.set(idx, value);
    }

    pub fn is_wall(&self, x: i32, y: i32) -> (r: bool)
        requires
            self.wf(),
            self.in_bounds(x as int, y as int),
        ensures
            r == (self.tiles@[self.idx_of(x as int, y as int)] == TileType::Wall),
    {
        let idx = self.xy_idx(x, y);
        self.tiles[idx] == TileType::Wall
    }

    /// Resets `blocked` so that exactly the wall tiles block movement.
    pub fn set_blocked(&mut self)
        requires
            old(self).wf(),
        ensures
            *final(self) == (GameMap { blocked: final(self).blocked, ..*old(self) }),
            final(self).blocked@.len() == old(self).blocked@.len(),
            forall|i: int| 0 <= i < final(self).blocked@.len()
                ==> final(self).blocked@[i] == (old(self).tiles@[i] == TileType::Wall),
            final(self).wf(),
    {
        let n = self.tiles.len();
        let mut i: usize = 0;
        while i < n
            invariant
                n == self.tiles@.len(),
                self.blocked@.len() == n,
                i <= n,
                *self == (GameMap { blocked: self.blocked, ..*old(self) }),
                forall|j: int| 0 <= j < i
                    ==> self.blocked@[j] == (old(self).tiles@[j] == TileType::Wall),
                forall|j: int| i <= j < n ==> self.blocked@[j] == old(self).blocked@[j],
                self.tiles@ == old(self).tiles@,
            decreases n - i,
        {
            let b = self.tiles[i] == TileType::Wall;
            self.blocked.set(i, b);
            i += 1;
        }
    }

    /// Empties every tile's occupant list.
    pub fn clear_tile_content(&mut self)
        requires
            old(self).wf(),
        ensures
            *final(self) == (GameMap { tile_content: final(self).tile_content, ..*old(self) }),
            final(self).tile_content@.len() == old(self).tile_content@.len(),
            forall|i: int| 0 <= i < final(self).tile_content@.len()
                ==> final(self).tile_content@[i]@ == Seq::<Entity>::empty(),
            final(self).wf(),
    {
        let n = self.tile_content.len();
        let mut i: usize = 0;
        while i < n
            invariant
                n == self.tile_content@.len(),
                i <= n,
                *self == (GameMap { tile_content: self.tile_content, ..*old(self) }),
                self.tile_content@.len() == n,
                forall|j: int| 0 <= j < i ==> self.tile_content@[j]@ == Seq::<Entity>::empty(),
            decreases n - i,
        {
            self.tile_content.set(i, Vec::new());
            i += 1;
        }
    }

    /// Translates a screen coordinate into a map coordinate.
    pub fn transform_mouse_pos(&self, mouse_pos: (i32, i32)) -> (r: (i32, i32))
        requires
            mouse_pos.0 >= i32::MIN + OFFSET_X,
            mouse_pos.1 >= i32::MIN + OFFSET_Y,
        ensures
            r.0 == mouse_pos.0 - OFFSET_X,
            r.1 == mouse_pos.1 - OFFSET_Y,
    {
        (mouse_pos.0 - OFFSET_X as i32, mouse_pos.1 - OFFSET_Y as i32)
    }

    pub fn mouse_in_bounds(&self, mouse_pos: (i32, i32)) -> (r: bool)
        ensures
            r == (0 <= mouse_pos.0 <= self.width && 0 <= mouse_pos.1 <= self.height),
    {
        mouse_pos.0 >= 0 && mouse_pos.0 <= self.width && mouse_pos.1 >= 0 && mouse_pos.1
            <= self.height
    }

    /// A tile monsters may step onto: strictly inside the outer border
    /// and not currently blocked.
    pub open spec fn spec_exit_valid(self, x: int, y: int) -> bool {
        &&& 1 <= x < self.width
        &&& 1 <= y < self.height
        &&& !self.blocked@[self.idx_of(x, y)]
    }

    pub fn is_exit_valid(&self, x: i32, y: i32) -> (r: bool)
        requires
            self.wf(),
        ensures
            r == self.spec_exit_valid(x as int, y as int),
    {
        if x < 1 || x >= self.width || y < 1 || y >= self.height {
            return false;
        }
        let idx = self.xy_idx(x, y);
        !self.blocked[idx]
    }

    pub fn dimensions(&self) -> (d: (i32, i32))
        ensures
            d == (self.width, self.height),
    {
        (self.width, self.height)
    }

    /// Wall tiles are opaque to the field-of-view computation.
    pub fn is_opaque(&self, idx: usize) -> (r: bool)
        requires
            self.wf(),
            idx < self.tiles@.len(),
        ensures
            r == (self.tiles@[idx as int] == TileType::Wall),
    {
        self.tiles[idx] == TileType::Wall
    }

    /// The cost of the cheapest 8-directional walk between two tiles,
    /// in hundredths of an orthogonal step, with diagonal steps at 145.
    pub open spec fn spec_pathing_distance(self, idx1: int, idx2: int) -> int {
        let w = self.width as int;
        let dx = abs_int(idx1 % w - idx2 % w);
        let dy = abs_int(idx1 / w - idx2 / w);
        if dx >= dy {
            (dx - dy) * 100 + dy * 145
        } else {
            (dy - dx) * 100 + dx * 145
        }
    }

    pub fn get_pathing_distance(&self, idx1: usize, idx2: usize) -> (d: u64)
        requires
            self.wf(),
            idx1 < self.tiles@.len(),
            idx2 < self.tiles@.len(),
        ensures
            d == self.spec_pathing_distance(idx1 as int, idx2 as int),
    {
        let (x1, y1) = self.idx_xy(idx1);
        let (x2, y2) = self.idx_xy(idx2);
        let dx: u64 = if x1 >= x2 {
            (x1 - x2) as u64
        } else {
            (x2 - x1) as u64
        };
        let dy: u64 = if y1 >= y2 {
            (y1 - y2) as u64
        } else {
            (y2 - y1) as u64
        };
        if dx >= dy {
            (dx - dy) * 100 + dy * 145
        } else {
            (dy - dx) * 100 + dx * 145
        }
    }
}

/// The coordinate offset of one of the eight step directions: the four
/// orthogonal directions first, then the four diagonals.
/// The coordinate offset of one of the eight step directions: the four
/// orthogonal directions first, then the four diagonals.
pub open spec fn dir_offset(d: int) -> (int, int) {
    if d == 0 {
        (-1, 0)
    } else if d == 1 {
        (1, 0)
    } else if d == 2 {
        (0, -1)
    } else if d == 3 {
        (0, 1)
    } else if d == 4 {
        (-1, -1)
    } else if d == 5 {
        (1, -1)
    } else if d == 6 {
        (-1, 1)
    } else {
        (1, 1)
    }
}

impl GameMap {
    /// The passable 8-neighbors of a tile, each exactly once, with the
    /// cost of stepping there: an exit is listed iff it is an adjacent
    /// tile satisfying `spec_exit_valid`, costing 100 for an orthogonal
    /// step and 145 for a diagonal one.
    #[verifier::rlimit(100)]
    #[verifier::spinoff_prover]
    pub fn get_available_exits(&self, idx: usize) -> (r: Vec<(usize, u32)>)
        requires
            self.wf(),
            idx < self.tiles@.len(),
        ensures
            ({
                let w = self.width as int;
                let cx = idx as int % w;
                let cy = idx as int / w;
                &&& forall|k: int| #![trigger r@[k]] 0 <= k < r@.len() ==> {
                    let t = r@[k].0 as int;
                    &&& t < self.tiles@.len()
                    &&& self.spec_exit_valid(t % w, t / w)
                    &&& adjacent8(cx, cy, t % w, t / w)
                    &&& r@[k].1 == (if t % w == cx || t / w == cy {
                        100u32
                    } else {
                        145u32
                    })
                }
                &&& forall|x2: int, y2: int| adjacent8(cx, cy, x2, y2) && self.spec_exit_valid(
                    x2,
                    y2,
                ) ==> exists|k: int| 0 <= k < r@.len() && (#[trigger] r@[k]).0 as int == y2 * w
                    + x2
                &&& forall|k1: int, k2: int| 0 <= k1 < k2 < r@.len() ==> (#[trigger] r@[k1]).0 != (
                #[trigger] r@[k2]).0
            }),
    {
        let mut r: Vec<(usize, u32)> = Vec::new();
        // The direction each entry of `r` was taken from, for the
        // one-entry-per-neighbor argument.
        let ghost mut dirs: Seq<int> = Seq::empty();
        let (x, y) = self.idx_xy(idx);
        let ghost w = self.width as int;
        let ghost h = self.height as int;
        let mut d: usize = 0;
        while d < 8
            invariant
                self.wf(),
                self.in_bounds(x as int, y as int),
                w == self.width as int,
                h == self.height as int,
                idx < self.tiles@.len(),
                x as int == idx as int % w,
                y as int == idx as int / w,
                d <= 8,
                dirs.len() == r@.len(),
                forall|k1: int, k2: int| 0 <= k1 < k2 < dirs.len() ==> #[trigger] dirs[k1]
                    < #[trigger] dirs[k2],
                forall|k: int| #![trigger dirs[k]] 0 <= k < r@.len() ==> 0 <= dirs[k] < d
                    && self.spec_exit_valid(
                    x as int + dir_offset(dirs[k]).0,
                    y as int + dir_offset(dirs[k]).1,
                ) && r@[k].0 as int == (y as int + dir_offset(dirs[k]).1) * w + (x as int
                    + dir_offset(dirs[k]).0),
                forall|k: int| #![trigger r@[k]] 0 <= k < r@.len() ==> {
                    let t = r@[k].0 as int;
                    &&& t < self.tiles@.len()
                    &&& self.spec_exit_valid(t % w, t / w)
                    &&& adjacent8(x as int, y as int, t % w, t / w)
                    &&& r@[k].1 == (if t % w == x as int || t / w == y as int {
                        100u32
                    } else {
                        145u32
                    })
                },
                forall|d2: int| #![trigger dir_offset(d2)] 0 <= d2 < d && self.spec_exit_valid(
                    x as int + dir_offset(d2).0,
                    y as int + dir_offset(d2).1,
                ) ==> exists|k: int| 0 <= k < r@.len() && (#[trigger] r@[k]).0 as int == (
                y as int + dir_offset(d2).1) * w + (x as int + dir_offset(d2).0),
            decreases 8 - d,
        {
            let (ox, oy): (i32, i32) = if d == 0 {
                (-1, 0)
            } else if d == 1 {
                (1, 0)
            } else if d == 2 {
                (0, -1)
            } else if d == 3 {
                (0, 1)
            } else if d == 4 {
                (-1, -1)
            } else if d == 5 {
                (1, -1)
            } else if d == 6 {
                (-1, 1)
            } else {
                (1, 1)
            };
            proof {
                assert((ox as int, oy as int) == dir_offset(d as int));
            }
            let cost: u32 = if d < 4 {
                100
            } else {
                145
            };
            let sx = x + ox;
            let sy = y + oy;
            if self.is_exit_valid(sx, sy) {
                let succ = self.xy_idx(sx, sy);
                let ghost r_pre = r@;
                r.push((succ, cost));
                proof {
                    vstd::arithmetic::div_mod::lemma_fundamental_div_mod_converse(
                        sy as int * w + sx as int,
                        w,
                        sy as int,
                        sx as int,
                    );
                    assert(succ as int % w == sx as int && succ as int / w == sy as int);
                    dirs = dirs.push(d as int);
                    assert forall|d2: int| #![trigger dir_offset(d2)]
                        0 <= d2 < d + 1 && self.spec_exit_valid(
                            x as int + dir_offset(d2).0,
                            y as int + dir_offset(d2).1,
                        ) implies exists|k: int|
                        0 <= k < r@.len() && (#[trigger] r@[k]).0 as int == (y as int + dir_offset(
                            d2,
                        ).1) * w + (x as int + dir_offset(d2).0) by {
                        if d2 == d {
                            assert(r@[r@.len() - 1].0 as int == (y as int + oy as int) * w + (
                            x as int + ox as int));
                        } else {
                            let k = choose|k: int|
                                0 <= k < r_pre.len() && (#[trigger] r_pre[k]).0 as int == (
                                y as int + dir_offset(d2).1) * w + (x as int + dir_offset(d2).0);
                            assert(r@[k].0 as int == (y as int + dir_offset(d2).1) * w + (
                            x as int + dir_offset(d2).0));
                        }
                    }
                }
            }
            d += 1;
        }
        proof {
            let cx = idx as int % w;
            let cy = idx as int / w;
            // Every valid adjacent tile matches one of the eight offsets.
            assert forall|x2: int, y2: int|
                adjacent8(cx, cy, x2, y2) && self.spec_exit_valid(x2, y2) implies exists|k: int|
                0 <= k < r@.len() && (#[trigger] r@[k]).0 as int == y2 * w + x2 by {
                let dx = x2 - cx;
                let dy = y2 - cy;
                let d2: int = if dx == -1 && dy == 0 {
                    0
                } else if dx == 1 && dy == 0 {
                    1
                } else if dx == 0 && dy == -1 {
                    2
                } else if dx == 0 && dy == 1 {
                    3
                } else if dx == -1 && dy == -1 {
                    4
                } else if dx == 1 && dy == -1 {
                    5
                } else if dx == -1 && dy == 1 {
                    6
                } else {
                    7
                };
                assert(dir_offset(d2) == (dx, dy));
                assert(self.spec_exit_valid(cx + dir_offset(d2).0, cy + dir_offset(d2).1));
            }
            // Entries from distinct directions name distinct tiles.
            assert forall|k1: int, k2: int| 0 <= k1 < k2 < r@.len() implies (
            #[trigger] r@[k1]).0 != (#[trigger] r@[k2]).0 by {
                let d1 = dirs[k1];
                let d2 = dirs[k2];
                if r@[k1].0 == r@[k2].0 {
                    lemma_idx_inj(
                        w,
                        h,
                        x as int + dir_offset(d1).0,
                        y as int + dir_offset(d1).1,
                        x as int + dir_offset(d2).0,
                        y as int + dir_offset(d2).1,
                    );
                    assert(dir_offset(d1) == dir_offset(d2));
                    assert(d1 == d2);
                    assert(dirs[k1] != dirs[k2]);
                    assert(false);
                }
            }
        }
        r
    }
}

pub open spec fn abs_int(x: int) -> int {
    if x >= 0 {
        x
    } else {
        -x
    }
}

/// Two tiles touch orthogonally or diagonally.
pub open spec fn adjacent8(ax: int, ay: int, bx: int, by: int) -> bool {
    let dx = abs_int(ax - bx);
    let dy = abs_int(ay - by);
    dx <= 1 && dy <= 1 && dx + dy >= 1
}

/// Distinct in-bounds coordinates give distinct tile indices.
pub proof fn lemma_idx_inj(w: int, h: int, x1: int, y1: int, x2: int, y2: int)
    requires
        0 < w,
        0 <= x1 < w,
        0 <= y1 < h,
        0 <= x2 < w,
        0 <= y2 < h,
        y1 * w + x1 == y2 * w + x2,
    ensures
        x1 == x2,
        y1 == y2,
{
    vstd::arithmetic::div_mod::lemma_fundamental_div_mod_converse(y1 * w + x1, w, y1, x1);
    vstd::arithmetic::div_mod::lemma_fundamental_div_mod_converse(y2 * w + x2, w, y2, x2);
}

} // verus!
