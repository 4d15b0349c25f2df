//! Pathfinding: best-first search over the 8-connected map graph with
//! orthogonal cost 100 and diagonal cost 145, guided by the straight-line
//! distance heuristic of `GameMap::get_pathing_distance`.
//!
//! Every returned path is checked against `valid_path` before it leaves
//! this module, so the search internals need no trust. A `None` answer
//! means the search found no route; that the search never misses an
//! existing route is not part of the contract.
use vstd::prelude::*;
use crate::map::{lemma_idx_xy_bounds, GameMap, adjacent8};

verus! {

/// A usable route: starts at `start`, ends at `goal`, stays on the map,
/// every step after the first lands on an unblocked interior tile, and
/// consecutive tiles are 8-adjacent.
pub open spec fn valid_path(m: GameMap, path: Seq<usize>, start: int, goal: int) -> bool {
    &&& path.len() >= 1
    &&& path[0] == start
    &&& path.last() == goal
    &&& forall|k: int| 0 <= k < path.len() ==> #[trigger] path[k] < m.tiles@.len()
    &&& forall|k: int| 1 <= k < path.len() ==> m.spec_exit_valid(
        #[trigger] path[k] as int % m.width as int,
        path[k] as int / m.width as int,
    )
    &&& forall|k: int| 0 <= k < path.len() - 1 ==> adjacent8(
        #[trigger] path[k] as int % m.width as int,
        path[k] as int / m.width as int,
        path[k + 1] as int % m.width as int,
        path[k + 1] as int / m.width as int,
    )
}

/// Decides `valid_path` for a concrete route.
pub fn check_path(map: &GameMap, path: &Vec<usize>, start: usize, goal: usize) -> (r: bool)
    requires
        map.wf(),
    ensures
        r == valid_path(*map, path@, start as int, goal as int),
{
    let n = path.len();
    if n == 0 {
        return false;
    }
    if path[0] != start {
        return false;
    }
    if path[n - 1] != goal {
        return false;
    }
    let nt = map.tiles.len();
    let mut k: usize = 0;
    while k < n
        invariant
            map.wf(),
            n == path@.len(),
            nt == map.tiles@.len(),
            n >= 1,
            path@[0] == start,
            path@[n - 1] == goal,
            k <= n,
            forall|t: int| 0 <= t < k ==> #[trigger] path@[t] < nt,
            forall|t: int| 1 <= t < k ==> map.spec_exit_valid(
                #[trigger] path@[t] as int % map.width as int,
                path@[t] as int / map.width as int,
            ),
            forall|t: int| 0 <= t < k - 1 ==> adjacent8(
                #[trigger] path@[t] as int % map.width as int,
                path@[t] as int / map.width as int,
                path@[t + 1] as int % map.width as int,
                path@[t + 1] as int / map.width as int,
            ),
        decreases n - k,
    {
        let tile = path[k];
        if tile >= nt {
            return false;
        }
        let (x, y) = map.idx_xy(tile);
        if k >= 1 {
            if !map.is_exit_valid(x, y) {
                return false;
            }
            let prev = path[k - 1];
            let (px, py) = map.idx_xy(prev);
            let dx: i32 = if x >= px {
                x - px
            } else {
                px - x
            };
            let dy: i32 = if y >= py {
                y - py
            } else {
                py - y
            };
            if !(dx <= 1 && dy <= 1 && dx + dy >= 1) {
                return false;
            }
        }
        k += 1;
    }
    true
}

fn filled_usize(n: usize, v: usize) -> (r: Vec<usize>)
    ensures
        r@.len() == n,
        forall|i: int| 0 <= i < n ==> r@[i] == v,
{
    let mut r: Vec<usize> = Vec::new();
    let mut i: usize = 0;
    while i < n
        invariant
            i <= n,
            r@.len() == i,
            forall|j: int| 0 <= j < i ==> r@[j] == v,
        decreases n - i,
    {
        r.push(v);
        i += 1;
    }
    r
}

fn filled_u64(n: usize, v: u64) -> (r: Vec<u64>)
    ensures
        r@.len() == n,
        forall|i: int| 0 <= i < n ==> r@[i] == v,
{
    let mut r: Vec<u64> = Vec::new();
    let mut i: usize = 0;
    while i < n
        invariant
            i <= n,
            r@.len() == i,
            forall|j: int| 0 <= j < i ==> r@[j] == v,
        decreases n - i,
    {
        r.push(v);
        i += 1;
    }
    r
}

fn filled_flags(n: usize, v: bool) -> (r: Vec<bool>)
    ensures
        r@.len() == n,
        forall|i: int| 0 <= i < n ==> r@[i] == v,
{
    let mut r: Vec<bool> = Vec::new();
    let mut i: usize = 0;
    while i < n
        invariant
            i <= n,
            r@.len() == i,
            forall|j: int| 0 <= j < i ==> r@[j] == v,
        decreases n - i,
    {
        r.push(v);
        i += 1;
    }
    r
}

/// A legal single step of a route: onto an unblocked interior tile
/// adjacent to the current one.
pub open spec fn step_ok(m: GameMap, a: int, b: int) -> bool {
    &&& 0 <= b < m.tiles@.len()
    &&& m.spec_exit_valid(b % m.width as int, b / m.width as int)
    &&& adjacent8(a % m.width as int, a / m.width as int, b % m.width as int, b / m.width as int)
}

/// Some route leads from `start` to `goal`.
pub open spec fn route_exists(m: GameMap, start: int, goal: int) -> bool {
    exists|p: Seq<usize>| valid_path(m, p, start, goal)
}

/// On a map where every marked tile is settled, and every settled tile
/// has all its legal steps marked, every tile of a route from a marked
/// start is marked.
proof fn lemma_route_stays_marked(
    m: GameMap,
    p: Seq<usize>,
    queued: Seq<bool>,
    closed: Seq<bool>,
    start: int,
    goal: int,
    k: int,
)
    requires
        valid_path(m, p, start, goal),
        queued.len() == m.tiles@.len(),
        closed.len() == m.tiles@.len(),
        forall|j: int| 0 <= j < queued.len() && #[trigger] queued[j] ==> closed[j],
        forall|a: int, b: int| 0 <= a < closed.len() && closed[a] && #[trigger] step_ok(m, a, b)
            ==> queued[b],
        0 <= start < queued.len(),
        queued[start],
        0 <= k < p.len(),
    ensures
        queued[p[k] as int],
    decreases k,
{
    if k == 0 {
        assert(p[0] == start);
    } else {
        lemma_route_stays_marked(m, p, queued, closed, start, goal, k - 1);
        assert(step_ok(m, p[k - 1] as int, p[k] as int));
        assert(closed[p[k - 1] as int]);
    }
}

/// Walks the recorded parent links from the goal back to the start and
/// returns the route in walking order. The marking order makes the
/// chain finite; the step relation makes it a valid route.
#[verifier::rlimit(100)]
fn rebuild_route(
    map: &GameMap,
    came_from: &Vec<usize>,
    queued: &Vec<bool>,
    Ghost(qstamp): Ghost<Map<int, int>>,
    Ghost(stamp): Ghost<int>,
    start: usize,
    goal: usize,
) -> (r: Vec<usize>)
    requires
        map.wf(),
        came_from@.len() == map.tiles@.len(),
        queued@.len() == map.tiles@.len(),
        start < map.tiles@.len(),
        goal < map.tiles@.len(),
        queued@[start as int],
        queued@[goal as int],
        forall|j: int| 0 <= j < queued@.len() && #[trigger] queued@[j] ==> qstamp.dom().contains(
            j,
        ) && 0 <= qstamp[j] < stamp,
        forall|j: int| 0 <= j < queued@.len() && #[trigger] queued@[j] && j != start
            ==> came_from@[j] < queued@.len() && queued@[came_from@[j] as int] && step_ok(
            *map,
            came_from@[j] as int,
            j,
        ) && qstamp[came_from@[j] as int] < qstamp[j],
    ensures
        valid_path(*map, r@, start as int, goal as int),
{
    let nt = came_from.len();
    let mut rev: Vec<usize> = Vec::new();
    rev.push(goal);
    let mut cur: usize = goal;
    while cur != start
        invariant
            map.wf(),
            nt == map.tiles@.len(),
            came_from@.len() == nt,
            queued@.len() == nt,
            start < nt,
            goal < nt,
            cur < nt,
            queued@[cur as int],
            queued@[start as int],
            rev@.len() >= 1,
            rev@[0] == goal,
            rev@[rev@.len() - 1] == cur,
            forall|i: int| 0 <= i < rev@.len() ==> #[trigger] rev@[i] < nt,
            forall|i: int| 0 <= i < rev@.len() - 1 ==> step_ok(
                *map,
                rev@[i + 1] as int,
                #[trigger] rev@[i] as int,
            ),
            forall|j: int| 0 <= j < nt && #[trigger] queued@[j] ==> qstamp.dom().contains(j) && 0
                <= qstamp[j] < stamp,
            forall|j: int| 0 <= j < nt && #[trigger] queued@[j] && j != start ==> came_from@[j]
                < nt && queued@[came_from@[j] as int] && step_ok(*map, came_from@[j] as int, j)
                && qstamp[came_from@[j] as int] < qstamp[j],
        decreases qstamp[cur as int],
    {
        let parent = came_from[cur];
        rev.push(parent);
        cur = parent;
    }
    // Reverse into start-to-goal order.
    let rl = rev.len();
    let mut path: Vec<usize> = Vec::new();
    let mut k: usize = rl;
    while k > 0
        invariant
            rl == rev@.len(),
            k <= rl,
            path@.len() == rl - k,
            forall|i: int| 0 <= i < path@.len() ==> #[trigger] path@[i] == rev@[rl - 1 - i],
        decreases k,
    {
        k -= 1;
        path.push(rev[k]);
    }
    proof {
        let pl = path@.len() as int;
        assert(pl == rl);
        assert(path@[0] == rev@[rl - 1] && rev@[rl - 1] == start);
        assert(path@[pl - 1] == rev@[0] && rev@[0] == goal);
        assert forall|i: int| 1 <= i < pl implies map.spec_exit_valid(
            #[trigger] path@[i] as int % map.width as int,
            path@[i] as int / map.width as int,
        ) by {
            assert(path@[i] == rev@[rl - 1 - i]);
            assert(step_ok(*map, rev@[rl - i] as int, rev@[rl - 1 - i] as int));
        }
        assert forall|i: int| 0 <= i < pl - 1 implies adjacent8(
            #[trigger] path@[i] as int % map.width as int,
            path@[i] as int / map.width as int,
            path@[i + 1] as int % map.width as int,
            path@[i + 1] as int / map.width as int,
        ) by {
            assert(path@[i] == rev@[rl - 1 - i] && path@[i + 1] == rev@[rl - 2 - i]);
            assert(step_ok(*map, rev@[rl - 1 - i] as int, rev@[rl - 2 - i] as int));
        }
        assert(valid_path(*map, path@, start as int, goal as int));
    }
    path
}

/// Cap above which the path-cost ranking saturates; far above any cost
/// reachable on one level, far below overflow.
const COST_CAP: u64 = 0x0010_0000_0000;

/// Swaps the unprocessed worklist entry with the least estimated total
/// cost to position `head`; contents and membership are untouched.
fn promote_best(
    map: &GameMap,
    g_score: &Vec<u64>,
    queued: &Vec<bool>,
    open: &mut Vec<usize>,
    head: usize,
    goal: usize,
)
    requires
        map.wf(),
        g_score@.len() == map.tiles@.len(),
        queued@.len() == map.tiles@.len(),
        goal < map.tiles@.len(),
        head < old(open)@.len(),
        forall|t: int| 0 <= t < old(open)@.len() ==> (#[trigger] old(open)@[t]) < map.tiles@.len()
            && queued@[old(open)@[t] as int],
    ensures
        final(open)@.len() == old(open)@.len(),
        forall|t: int| 0 <= t < head ==> (#[trigger] final(open)@[t]) == old(open)@[t],
        forall|t: int| 0 <= t < final(open)@.len() ==> (#[trigger] final(open)@[t])
            < map.tiles@.len() && queued@[final(open)@[t] as int],
        forall|t: int| 0 <= t < old(open)@.len() ==> exists|t2: int|
            0 <= t2 < final(open)@.len() && final(open)@[t2] == #[trigger] old(open)@[t],
{
    let mut best: usize = head;
    let mut best_f: u64 = u64::MAX;
    let mut t: usize = head;
    while t < open.len()
        invariant
            map.wf(),
            g_score@.len() == map.tiles@.len(),
            forall|q: int| 0 <= q < open@.len() ==> (#[trigger] open@[q]) < map.tiles@.len(),
            goal < map.tiles@.len(),
            *open == *old(open),
            head < open@.len(),
            head <= t <= open@.len(),
            head <= best < open@.len(),
        decreases open@.len() - t,
    {
        let node = open[t];
        let gs = g_score[node];
        let h = map.get_pathing_distance(node, goal);
        let f: u64 = if gs >= COST_CAP || h >= COST_CAP {
            u64::MAX
        } else {
            gs + h
        };
        if f < best_f {
            best_f = f;
            best = t;
        }
        t += 1;
    }
    let ghost open_pre = open@;
    let a = open[head];
    let b = open[best];
    open.set(head, b);
    open.set(best, a);
    proof {
        assert forall|t2: int| 0 <= t2 < open_pre.len() implies exists|t3: int|
            0 <= t3 < open@.len() && open@[t3] == #[trigger] open_pre[t2] by {
            if t2 == head as int {
                assert(open@[best as int] == open_pre[t2]);
            } else if t2 == best as int {
                assert(open@[head as int] == open_pre[t2]);
            } else {
                assert(open@[t2] == open_pre[t2]);
            }
        }
    }
}

/// Searches for a route from `start` to `goal`, guided by the
/// straight-line distance ranking. A returned route always satisfies
/// `valid_path`, and `None` is returned only when no route exists at
/// all.
#[verifier::rlimit(100)]
#[verifier::spinoff_prover]
pub fn a_star_search(map: &GameMap, start: usize, goal: usize) -> (r: Option<Vec<usize>>)
    requires
        map.wf(),
    ensures
        r matches Some(p) ==> valid_path(*map, p@, start as int, goal as int),
        r is None ==> !route_exists(*map, start as int, goal as int),
{
    let nt = map.tiles.len();
    if start >= nt || goal >= nt {
        proof {
            if route_exists(*map, start as int, goal as int) {
                let p = choose|p: Seq<usize>| valid_path(*map, p, start as int, goal as int);
                assert(p[0] < nt);
            }
        }
        return None;
    }
    let ghost w = map.width as int;
    let mut queued: Vec<bool> = filled_flags(nt, false);
    let mut closed: Vec<bool> = filled_flags(nt, false);
    let mut came_from: Vec<usize> = filled_usize(nt, 0);
    let mut g_score: Vec<u64> = filled_u64(nt, 0);
    // The worklist only ever grows; `head` marks the processed prefix.
    let mut open: Vec<usize> = Vec::new();
    let mut head: usize = 0;
    open.push(start);
    queued.set(start, true);
    // Ghost bookkeeping: the set of marked tiles bounds the work, and
    // the marking order keeps parent chains well-founded.
    let ghost mut qset: Set<int> = Set::empty().insert(start as int);
    let ghost mut qstamp: Map<int, int> = Map::empty().insert(start as int, 0);
    let ghost mut stamp: int = 1;
    proof {
        assert(open@[0] == start);
        vstd::set_lib::lemma_int_range(0, nt as int);
        assert(qset.subset_of(vstd::set_lib::set_int_range(0, nt as int)));
        vstd::set_lib::lemma_len_subset(qset, vstd::set_lib::set_int_range(0, nt as int));
    }

    while head < open.len()
        invariant
            map.wf(),
            w == map.width as int,
            nt == map.tiles@.len(),
            queued@.len() == nt,
            closed@.len() == nt,
            came_from@.len() == nt,
            g_score@.len() == nt,
            start < nt,
            goal < nt,
            queued@[start as int],
            !closed@[goal as int],
            qset.finite(),
            qset.len() <= nt,
            forall|j: int| qset.contains(j) <==> 0 <= j < nt && queued@[j],
            head <= open@.len(),
            forall|t: int| 0 <= t < open@.len() ==> #[trigger] open@[t] < nt && queued@[open@[
                t
            ] as int],
            forall|t: int| 0 <= t < head ==> closed@[(#[trigger] open@[t]) as int],
            forall|j: int| 0 <= j < nt && #[trigger] queued@[j] ==> exists|t: int|
                0 <= t < open@.len() && open@[t] == j,
            forall|j: int| 0 <= j < nt && #[trigger] closed@[j] ==> queued@[j],
            forall|a: int, b: int| 0 <= a < nt && closed@[a] && #[trigger] step_ok(*map, a, b)
                ==> queued@[b],
            forall|j: int| 0 <= j < nt && #[trigger] queued@[j] ==> qstamp.dom().contains(j) && 0
                <= qstamp[j] < stamp,
            forall|j: int| 0 <= j < nt && #[trigger] queued@[j] && j != start ==> came_from@[j]
                < nt && queued@[came_from@[j] as int] && step_ok(*map, came_from@[j] as int, j)
                && qstamp[came_from@[j] as int] < qstamp[j],
        decreases 2 * (nt - qset.len()) + open@.len() - head,
    {
        // Bring the unprocessed node with the least estimated total cost
        // to the front of the remaining worklist.
        let ghost open_before = open@;
        promote_best(map, &g_score, &queued, &mut open, head, goal);
        proof {
            assert forall|j: int| 0 <= j < nt && #[trigger] queued@[j] implies exists|t2: int|
                0 <= t2 < open@.len() && open@[t2] == j by {
                let t = choose|t: int| 0 <= t < open_before.len() && open_before[t] == j;
                assert(exists|t2: int| 0 <= t2 < open@.len() && open@[t2] == open_before[t]);
            }
        }
        let node = open[head];
        head += 1;
        if node == goal {
            let path = rebuild_route(
                map,
                &came_from,
                &queued,
                Ghost(qstamp),
                Ghost(stamp),
                start,
                goal,
            );
            return Some(path);
        }
        closed.set(node, true);
        let gs = g_score[node];
        let exits = map.get_available_exits(node);
        let ghost qset0 = qset;
        let ghost open_len0 = open@.len() as int;
        let en = exits.len();
        let mut d: usize = 0;
        while d < en
            invariant
                map.wf(),
                w == map.width as int,
                nt == map.tiles@.len(),
                queued@.len() == nt,
                closed@.len() == nt,
                came_from@.len() == nt,
                g_score@.len() == nt,
                start < nt,
                goal < nt,
                node < nt,
                node != goal,
                closed@[node as int],
                queued@[node as int],
                queued@[start as int],
                !closed@[goal as int],
                qset.finite(),
                qset.len() <= nt,
                forall|j: int| qset.contains(j) <==> 0 <= j < nt && queued@[j],
                en == exits@.len(),
                forall|k2: int| #![trigger exits@[k2]] 0 <= k2 < en ==> {
                    let t2 = exits@[k2].0 as int;
                    &&& t2 < nt
                    &&& map.spec_exit_valid(t2 % w, t2 / w)
                    &&& adjacent8(node as int % w, node as int / w, t2 % w, t2 / w)
                },
                forall|k2: int| 0 <= k2 < d ==> queued@[(#[trigger] exits@[k2]).0 as int],
                d <= en,
                head <= open@.len(),
                forall|t2: int| 0 <= t2 < open@.len() ==> #[trigger] open@[t2] < nt && queued@[
                    open@[t2] as int],
                forall|t2: int| 0 <= t2 < head ==> closed@[(#[trigger] open@[t2]) as int],
                forall|j: int| 0 <= j < nt && #[trigger] queued@[j] ==> exists|t2: int|
                    0 <= t2 < open@.len() && open@[t2] == j,
                forall|j: int| 0 <= j < nt && #[trigger] closed@[j] ==> queued@[j],
                forall|a2: int, b2: int| 0 <= a2 < nt && closed@[a2] && a2 != node
                    && #[trigger] step_ok(*map, a2, b2) ==> queued@[b2],
                forall|j: int| 0 <= j < nt && #[trigger] queued@[j] ==> qstamp.dom().contains(j)
                    && 0 <= qstamp[j] < stamp,
                forall|j: int| 0 <= j < nt && #[trigger] queued@[j] && j != start ==> came_from@[
                    j
                ] < nt && queued@[came_from@[j] as int] && step_ok(*map, came_from@[j] as int, j)
                    && qstamp[came_from@[j] as int] < qstamp[j],
                qset0.len() <= qset.len(),
                open@.len() - open_len0 == qset.len() - qset0.len(),
            decreases en - d,
        {
            let (succ, cost) = exits[d];
            proof {
                assert(exits@[d as int].0 == succ);
            }
            if !queued[succ] {
                let ng: u64 = if gs <= 0xFFFF_FFFF {
                    gs + cost as u64
                } else {
                    gs
                };
                let ghost queued_pre = queued@;
                let ghost open_pre = open@;
                g_score.set(succ, ng);
                came_from.set(succ, node);
                queued.set(succ, true);
                open.push(succ);
                proof {
                    assert forall|j: int| 0 <= j < nt && #[trigger] queued@[j] implies exists|
                        t2: int,
                    |
                        0 <= t2 < open@.len() && open@[t2] == j by {
                        if j == succ {
                            assert(open@[open@.len() - 1] == succ);
                        } else {
                            assert(queued_pre[j]);
                            let t2 = choose|t2: int|
                                0 <= t2 < open_pre.len() && open_pre[t2] == j;
                            assert(open@[t2] == j);
                        }
                    }
                    qset = qset.insert(succ as int);
                    qstamp = qstamp.insert(succ as int, stamp);
                    stamp = stamp + 1;
                    vstd::set_lib::lemma_int_range(0, nt as int);
                    assert(qset.subset_of(vstd::set_lib::set_int_range(0, nt as int)));
                    vstd::set_lib::lemma_len_subset(
                        qset,
                        vstd::set_lib::set_int_range(0, nt as int),
                    );
                    assert(step_ok(*map, node as int, succ as int));
                    assert(open@[open@.len() - 1] == succ);
                }
            }
            d += 1;
        }
        proof {
            // Every legal step from the settled node is marked: the
            // exits list is complete over adjacent unblocked tiles.
            assert forall|b2: int| step_ok(*map, node as int, b2) implies queued@[b2] by {
                lemma_idx_xy_bounds(w, map.height as int, b2);
                let k2 = choose|k2: int|
                    0 <= k2 < exits@.len() && (#[trigger] exits@[k2]).0 as int == (b2 / w) * w + (
                    b2 % w);
                assert(queued@[exits@[k2].0 as int]);
            }
        }
    }
    proof {
        // The worklist is exhausted without settling the goal: no route
        // can exist, or its tiles would all be settled, the goal too.
        if route_exists(*map, start as int, goal as int) {
            let p = choose|p: Seq<usize>| valid_path(*map, p, start as int, goal as int);
            assert forall|j: int| 0 <= j < nt && #[trigger] queued@[j] implies closed@[j] by {
                let t = choose|t: int| 0 <= t < open@.len() && open@[t] == j;
            }
            lemma_route_stays_marked(
                *map,
                p,
                queued@,
                closed@,
                start as int,
                goal as int,
                p.len() - 1,
            );
            assert(queued@[goal as int] && closed@[goal as int]);
        }
    }
    None
}

} // verus!
