use vstd::prelude::*;

use crate::items::InventoryItems;
use crate::math::Pos;
use crate::world_map::{TileType, WorldMap, MAX_CELLS};

verus! {

/// Weight of the distance estimate in A*, in microseconds per step; below the cheapest step.
pub const HEURISTIC_PER_STEP: u64 = 500_000;

/// Largest cost of one step in a weighted search.
pub const MAX_STEP_COST: u64 = 2_000_000;

/// The two positions share a side.
pub open spec fn adjacent(a: Pos, b: Pos) -> bool {
    (a.x == b.x && (a.y + 1 == b.y || b.y + 1 == a.y)) || (a.y == b.y && (a.x + 1 == b.x || b.x
        + 1 == a.x))
}

/// A sequence of side-sharing positions inside the map whose inner positions can all be walked
/// through. Its ends may be anything inside the map: a worker leaves a building, and walks up
/// to a tree.
pub open spec fn is_walk(map: &WorldMap, p: Seq<Pos>) -> bool {
    &&& p.len() >= 1
    &&& forall|i: int| 0 <= i < p.len() ==> map.in_bounds(#[trigger] p[i])
    &&& forall|i: int| 0 <= i < p.len() - 1 ==> adjacent(#[trigger] p[i], p[i + 1])
    &&& forall|i: int| 0 < i < p.len() - 1 ==> (#[trigger] map.tile(p[i])).spec_traversible()
}

/// `p` leads from `start` to `goal`.
pub open spec fn valid_path(map: &WorldMap, p: Seq<Pos>, start: Pos, goal: Pos) -> bool {
    is_walk(map, p) && p[0] == start && p.last() == goal
}

pub open spec fn reachable(map: &WorldMap, start: Pos, goal: Pos) -> bool {
    exists|p: Seq<Pos>| valid_path(map, p, start, goal)
}

/// What a nearest-match search looks for.
pub enum TileQuery {
    /// A resource that nobody is harvesting, whose main yield is one of the items.
    UnclaimedResource(Vec<InventoryItems>),
    /// An empty tile.
    EmptyGround,
}

pub open spec fn query_matches(q: &TileQuery, t: TileType) -> bool {
    match q {
        TileQuery::UnclaimedResource(items) => match t {
            TileType::Resource(_, c, claimed) => !claimed && items@.contains(c.yield_item),
            _ => false,
        },
        TileQuery::EmptyGround => t == TileType::Empty,
    }
}

impl TileQuery {
    pub fn matches(&self, t: &TileType) -> (r: bool)
        ensures
            r == query_matches(self, *t),
    {
        match self {
            TileQuery::UnclaimedResource(items) => match t {
                TileType::Resource(_, c, claimed) => !*claimed && contains_item(items, c.yield_item),
                _ => false,
            },
            TileQuery::EmptyGround => t.is_empty(),
        }
    }

    fn copy_query(&self) -> (r: TileQuery)
        ensures
            forall|t: TileType| query_matches(&r, t) == query_matches(self, t),
    {
        match self {
            TileQuery::UnclaimedResource(items) => {
                let c = items.clone();
                assert(c@ =~= items@);
                TileQuery::UnclaimedResource(c)
            },
            TileQuery::EmptyGround => TileQuery::EmptyGround,
        }
    }
}

pub fn contains_item(items: &Vec<InventoryItems>, x: InventoryItems) -> (r: bool)
    ensures
        r == items@.contains(x),
{
    let mut k: usize = 0;
    while k < items.len()
        invariant
            k <= items@.len(),
            forall|j: int| 0 <= j < k ==> items@[j] != x,
        decreases items@.len() - k,
    {
        if items[k] == x {
            assert(items@[k as int] == x);
            return true;
        }
        k = k + 1;
    }
    false
}

/// What a search stops at: a given position, or any tile a query accepts.
pub enum SearchGoal {
    At(Pos),
    Matching(TileQuery),
}

pub open spec fn is_target(map: &WorldMap, goal: &SearchGoal, p: Pos) -> bool {
    match goal {
        SearchGoal::At(g) => p == *g,
        SearchGoal::Matching(q) => map.in_bounds(p) && query_matches(q, map.tile(p)),
    }
}

fn target_at(map: &WorldMap, goal: &SearchGoal, p: &Pos) -> (r: bool)
    requires
        map.wf(),
        map.in_bounds(*p),
    ensures
        r == is_target(map, goal, *p),
{
    match goal {
        SearchGoal::At(g) => *p == *g,
        SearchGoal::Matching(q) => q.matches(&map.get(p)),
    }
}

pub open spec fn cell<T>(map: &WorldMap, s: Seq<T>, q: Pos) -> T {
    s[map.idx(q)]
}

pub open spec fn count_true(s: Seq<bool>) -> nat
    decreases s.len(),
{
    if s.len() == 0 {
        0
    } else {
        count_true(s.drop_last()) + if s.last() {
            1nat
        } else {
            0nat
        }
    }
}

proof fn lemma_count_true(s: Seq<bool>, i: int)
    requires
        0 <= i < s.len(),
        !s[i],
    ensures
        count_true(s.update(i, true)) == count_true(s) + 1,
        count_true(s) < s.len(),
    decreases s.len(),
{
    if i == s.len() - 1 {
        assert(s.update(i, true).drop_last() =~= s.drop_last());
        lemma_count_le(s.drop_last());
    } else {
        lemma_count_true(s.drop_last(), i);
        assert(s.update(i, true).drop_last() =~= s.drop_last().update(i, true));
    }
}

proof fn lemma_count_le(s: Seq<bool>)
    ensures
        count_true(s) <= s.len(),
    decreases s.len(),
{
    if s.len() > 0 {
        lemma_count_le(s.drop_last());
    }
}

/// The positions inside the map that share a side with `p`: below, left, above, right.
fn neighbours(map: &WorldMap, p: &Pos) -> (r: Vec<Pos>)
    requires
        map.wf(),
        map.in_bounds(*p),
    ensures
        forall|i: int| 0 <= i < r@.len() ==> map.in_bounds(#[trigger] r@[i]) && adjacent(*p, r@[i]),
        forall|q: Pos| map.in_bounds(q) && adjacent(*p, q) ==> r@.contains(q),
{
    let mut r: Vec<Pos> = Vec::new();
    if p.y > 0 {
        r.push(Pos { x: p.x, y: p.y - 1 });
    }
    if p.x > 0 {
        r.push(Pos { x: p.x - 1, y: p.y });
    }
    if p.y + 1 < map.height {
        r.push(Pos { x: p.x, y: p.y + 1 });
    }
    if p.x + 1 < map.width {
        r.push(Pos { x: p.x + 1, y: p.y });
    }
    proof {
        assert forall|q: Pos| map.in_bounds(q) && adjacent(*p, q) implies r@.contains(q) by {
            let n = r@.len();
            if q.y + 1 == p.y && q.x == p.x {
                assert(r@[0] == q);
            } else if q.x + 1 == p.x && q.y == p.y {
                if p.y > 0 {
                    assert(r@[1] == q);
                } else {
                    assert(r@[0] == q);
                }
            } else if q.y == p.y + 1 && q.x == p.x {
                let k: int = (if p.y > 0 {
                    1int
                } else {
                    0int
                }) + (if p.x > 0 {
                    1int
                } else {
                    0int
                });
                assert(r@[k] == q);
            } else {
                assert(r@[n - 1] == q);
            }
        }
    }
    r
}

fn abs_diff(a: usize, b: usize) -> (r: usize)
    ensures
        r == if a >= b {
            a - b
        } else {
            b - a
        },
{
    if a >= b {
        a - b
    } else {
        b - a
    }
}

/// Parents form a tree rooted at `start`, each step adjacent, walkable and cheaper.
pub open spec fn tree_ok(
    map: &WorldMap,
    start: Pos,
    reached: Seq<bool>,
    settled: Seq<bool>,
    dist: Seq<u64>,
    parent: Seq<Pos>,
) -> bool {
    &&& cell(map, reached, start)
    &&& cell(map, dist, start) == 0
    &&& forall|q: Pos|
        #![trigger cell(map, settled, q)]
        map.in_bounds(q) && cell(map, settled, q) ==> cell(map, reached, q)
    &&& forall|q: Pos|
        #![trigger cell(map, reached, q)]
        map.in_bounds(q) && cell(map, reached, q) && q != start ==> {
            let par = cell(map, parent, q);
            &&& map.passable(q)
            &&& map.in_bounds(par)
            &&& cell(map, settled, par)
            &&& cell(map, reached, par)
            &&& adjacent(par, q)
            &&& cell(map, dist, par) < cell(map, dist, q)
        }
}

/// Every settled cell has its walkable neighbours reached, and none of its neighbours is a
/// target.
pub open spec fn closed_ok(
    map: &WorldMap,
    goal: &SearchGoal,
    reached: Seq<bool>,
    settled: Seq<bool>,
) -> bool {
    forall|q: Pos, nb: Pos|
        #![trigger cell(map, settled, q), adjacent(q, nb)]
        map.in_bounds(q) && cell(map, settled, q) && map.in_bounds(nb) && adjacent(q, nb) ==> (
        map.passable(nb) ==> cell(map, reached, nb)) && !is_target(map, goal, nb)
}

proof fn lemma_no_walk_reaches_target(
    map: &WorldMap,
    start: Pos,
    goal: &SearchGoal,
    reached: Seq<bool>,
    settled: Seq<bool>,
    dist: Seq<u64>,
    parent: Seq<Pos>,
    p: Seq<Pos>,
)
    requires
        map.wf(),
        map.in_bounds(start),
        reached.len() == settled.len() == map.tiles@.len(),
        tree_ok(map, start, reached, settled, dist, parent),
        closed_ok(map, goal, reached, settled),
        forall|q: Pos|
            #![trigger cell(map, reached, q)]
            map.in_bounds(q) && cell(map, reached, q) ==> cell(map, settled, q),
        !is_target(map, goal, start),
        is_walk(map, p),
        p[0] == start,
    ensures
        !is_target(map, goal, p.last()),
{
    let n = p.len();
    if n >= 2 {
        lemma_walk_prefix_settled(map, start, goal, reached, settled, dist, parent, p, n - 2);
        assert(map.in_bounds(p[n - 2]));
        assert(adjacent(p[n - 2], p[n - 1]));
        assert(map.in_bounds(p[n - 1]));
    }
}

proof fn lemma_walk_prefix_settled(
    map: &WorldMap,
    start: Pos,
    goal: &SearchGoal,
    reached: Seq<bool>,
    settled: Seq<bool>,
    dist: Seq<u64>,
    parent: Seq<Pos>,
    p: Seq<Pos>,
    i: int,
)
    requires
        map.wf(),
        reached.len() == settled.len() == map.tiles@.len(),
        tree_ok(map, start, reached, settled, dist, parent),
        closed_ok(map, goal, reached, settled),
        forall|q: Pos|
            #![trigger cell(map, reached, q)]
            map.in_bounds(q) && cell(map, reached, q) ==> cell(map, settled, q),
        is_walk(map, p),
        p[0] == start,
        0 <= i <= p.len() - 2,
    ensures
        cell(map, settled, p[i]),
    decreases i,
{
    if i == 0 {
        assert(cell(map, reached, p[0]));
    } else {
        lemma_walk_prefix_settled(map, start, goal, reached, settled, dist, parent, p, i - 1);
        assert(map.in_bounds(p[i - 1]));
        assert(adjacent(p[i - 1], p[i]));
        assert(map.in_bounds(p[i]));
        assert(map.tile(p[i]).spec_traversible());
        assert(cell(map, reached, p[i]));
    }
}

/// A reached cell no further from `start` than `c` is no target, when every settled cell but
/// `c` has no target beside it.
proof fn lemma_chain_not_target(
    map: &WorldMap,
    start: Pos,
    goal: &SearchGoal,
    reached: Seq<bool>,
    settled: Seq<bool>,
    dist: Seq<u64>,
    parent: Seq<Pos>,
    c: Pos,
    q: Pos,
)
    requires
        map.wf(),
        tree_ok(map, start, reached, settled, dist, parent),
        closed_except(map, goal, reached, settled, c),
        !is_target(map, goal, start),
        map.in_bounds(q),
        cell(map, reached, q),
        cell(map, dist, q) <= cell(map, dist, c),
    ensures
        !is_target(map, goal, q),
{
    if q != start {
        let par = cell(map, parent, q);
        assert(cell(map, reached, q));
        assert(cell(map, settled, par));
        assert(adjacent(par, q));
    }
}

/// Follows parents back from `c` to `start`, and appends `last`.
fn trace_back(
    map: &WorldMap,
    start: Pos,
    goal: &SearchGoal,
    reached: &Vec<bool>,
    settled: &Vec<bool>,
    dist: &Vec<u64>,
    parent: &Vec<Pos>,
    c: Pos,
    last: Pos,
) -> (r: Vec<Pos>)
    requires
        map.wf(),
        map.in_bounds(start),
        reached@.len() == settled@.len() == dist@.len() == parent@.len() == map.tiles@.len(),
        tree_ok(map, start, reached@, settled@, dist@, parent@),
        closed_except(map, goal, reached@, settled@, c),
        !is_target(map, goal, start),
        map.in_bounds(c),
        cell(map, reached@, c),
        map.in_bounds(last),
        adjacent(c, last),
        is_target(map, goal, last),
    ensures
        is_walk(map, r@),
        r@[0] == start,
        r@.last() == last,
        forall|i: int| 0 <= i < r@.len() - 1 ==> !is_target(map, goal, #[trigger] r@[i]),
        forall|i: int, j: int| 0 <= i < j < r@.len() ==> r@[i] != r@[j],
{
    let mut path: Vec<Pos> = vec![c, last];
    let mut cur = c;
    proof {
        lemma_chain_not_target(map, start, goal, reached@, settled@, dist@, parent@, c, c);
    }
    while cur != start
        invariant
            map.wf(),
            map.in_bounds(start),
            reached@.len() == settled@.len() == dist@.len() == parent@.len() == map.tiles@.len(),
            tree_ok(map, start, reached@, settled@, dist@, parent@),
            closed_except(map, goal, reached@, settled@, c),
            !is_target(map, goal, start),
            map.in_bounds(cur),
            cell(map, reached@, cur),
            is_walk(map, path@),
            path@.len() >= 2,
            path@[0] == cur,
            path@.last() == last,
            is_target(map, goal, last),
            cell(map, dist@, cur) <= cell(map, dist@, c),
            forall|i: int|
                0 <= i < path@.len() - 1 ==> !is_target(map, goal, #[trigger] path@[i]) && cell(
                    map,
                    dist@,
                    path@[i],
                ) <= cell(map, dist@, c),
            forall|i: int, j: int|
                0 <= i < j < path@.len() - 1 ==> cell(map, dist@, path@[i]) < cell(
                    map,
                    dist@,
                    path@[j],
                ),
        decreases cell(map, dist@, cur),
    {
        proof {
            map.lemma_idx(cur);
        }
        let par = parent[cur.y * map.width + cur.x];
        proof {
            map.lemma_idx(par);
            assert(cell(map, reached@, cur));
            lemma_chain_not_target(map, start, goal, reached@, settled@, dist@, parent@, c, par);
        }
        let ghost old_path = path@;
        path.insert(0, par);
        proof {
            assert(path@ =~= seq![par] + old_path);
            assert forall|i: int| 0 <= i < path@.len() implies map.in_bounds(#[trigger] path@[i]) by {
                if i > 0 {
                    assert(path@[i] == old_path[i - 1]);
                }
            }
            assert forall|i: int| 0 <= i < path@.len() - 1 implies adjacent(
                #[trigger] path@[i],
                path@[i + 1],
            ) by {
                if i > 0 {
                    assert(path@[i] == old_path[i - 1]);
                    assert(path@[i + 1] == old_path[i]);
                }
            }
            assert forall|i: int| 0 < i < path@.len() - 1 implies (#[trigger] map.tile(
                path@[i],
            )).spec_traversible() by {
                assert(path@[i] == old_path[i - 1]);
            }
            assert forall|i: int| 0 <= i < path@.len() - 1 implies !is_target(map, goal, #[trigger] path@[i])
                && cell(map, dist@, path@[i]) <= cell(map, dist@, c) by {
                if i > 0 {
                    assert(path@[i] == old_path[i - 1]);
                }
            }
            assert forall|i: int, j: int| 0 <= i < j < path@.len() - 1 implies cell(map, dist@, path@[i]) < cell(
                map,
                dist@,
                path@[j],
            ) by {
                assert(path@[j] == old_path[j - 1]);
                if i > 0 {
                    assert(path@[i] == old_path[i - 1]);
                } else {
                    assert(old_path[0] == cur);
                    if j - 1 > 0 {
                        assert(cell(map, dist@, old_path[0]) < cell(map, dist@, old_path[j - 1]));
                    }
                }
            }
        }
        cur = par;
    }
    proof {
        assert forall|i: int, j: int| 0 <= i < j < path@.len() implies path@[i] != path@[j] by {
            if j == path@.len() - 1 {
                assert(!is_target(map, goal, path@[i]));
            } else {
                assert(cell(map, dist@, path@[i]) < cell(map, dist@, path@[j]));
            }
        }
    }
    path
}

/// Taking the cell `c` at `best` off a frontier without repeats, and settling it, keeps the
/// frontier exactly the reached cells that are not settled.
proof fn lemma_frontier_removed(
    map: &WorldMap,
    f0: Seq<Pos>,
    f1: Seq<Pos>,
    best: int,
    c: Pos,
    reached: Seq<bool>,
    s0: Seq<bool>,
    s1: Seq<bool>,
)
    requires
        0 <= best < f0.len(),
        f1 == f0.remove(best),
        f0[best] == c,
        map.in_bounds(c),
        cell(map, s1, c),
        forall|q: Pos| map.in_bounds(q) && q != c ==> #[trigger] cell(map, s1, q) == cell(map, s0, q),
        forall|j: int|
            0 <= j < f0.len() ==> map.in_bounds(#[trigger] f0[j]) && cell(map, reached, f0[j]) && !cell(
                map,
                s0,
                f0[j],
            ),
        forall|i: int, j: int| 0 <= i < f0.len() && 0 <= j < f0.len() && i != j ==> #[trigger] f0[i] != #[trigger] f0[j],
        forall|q: Pos|
            #![trigger cell(map, reached, q)]
            map.in_bounds(q) && cell(map, reached, q) && !cell(map, s0, q) ==> f0.contains(q),
    ensures
        forall|j: int|
            0 <= j < f1.len() ==> map.in_bounds(#[trigger] f1[j]) && cell(map, reached, f1[j]) && !cell(
                map,
                s1,
                f1[j],
            ),
        forall|i: int, j: int| 0 <= i < f1.len() && 0 <= j < f1.len() && i != j ==> #[trigger] f1[i] != #[trigger] f1[j],
        forall|q: Pos|
            #![trigger cell(map, reached, q)]
            map.in_bounds(q) && cell(map, reached, q) && !cell(map, s1, q) ==> f1.contains(q),
{
    assert forall|j: int| 0 <= j < f1.len() implies map.in_bounds(#[trigger] f1[j]) && cell(map, reached, f1[j])
        && !cell(map, s1, f1[j]) by {
        let w = if j < best {
            j
        } else {
            j + 1
        };
        assert(f1[j] == f0[w]);
        assert(f0[w] != f0[best]);
    }
    assert forall|i: int, j: int| 0 <= i < f1.len() && 0 <= j < f1.len() && i != j implies #[trigger] f1[i]
        != #[trigger] f1[j] by {
        let wi = if i < best {
            i
        } else {
            i + 1
        };
        let wj = if j < best {
            j
        } else {
            j + 1
        };
        assert(f1[i] == f0[wi]);
        assert(f1[j] == f0[wj]);
    }
    assert forall|q: Pos|
        #![trigger cell(map, reached, q)]
        map.in_bounds(q) && cell(map, reached, q) && !cell(map, s1, q) implies f1.contains(q) by {
        assert(q != c);
        assert(f0.contains(q));
        let w = choose|w: int| 0 <= w < f0.len() && f0[w] == q;
        assert(w != best);
        let j = if w < best {
            w
        } else {
            w - 1
        };
        assert(f1[j] == q);
    }
}

/// Cells known so far, expanded so far, their best cost and the step they are reached by, and
/// the cells still to expand in the order they were first reached.
struct SearchState {
    reached: Vec<bool>,
    settled: Vec<bool>,
    dist: Vec<u64>,
    parent: Vec<Pos>,
    frontier: Vec<Pos>,
}

/// Like `closed_ok`, but for the settled cells other than `c`.
pub open spec fn closed_except(
    map: &WorldMap,
    goal: &SearchGoal,
    reached: Seq<bool>,
    settled: Seq<bool>,
    c: Pos,
) -> bool {
    forall|q: Pos, nb: Pos|
        #![trigger cell(map, settled, q), adjacent(q, nb)]
        map.in_bounds(q) && cell(map, settled, q) && q != c && map.in_bounds(nb) && adjacent(q, nb)
            ==> (map.passable(nb) ==> cell(map, reached, nb)) && !is_target(map, goal, nb)
}

impl SearchState {
    spec fn sized(&self, map: &WorldMap) -> bool {
        &&& self.reached@.len() == map.tiles@.len()
        &&& self.settled@.len() == map.tiles@.len()
        &&& self.dist@.len() == map.tiles@.len()
        &&& self.parent@.len() == map.tiles@.len()
    }

    spec fn bounded(&self, map: &WorldMap) -> bool {
        &&& count_true(self.settled@) <= map.tiles@.len()
        &&& forall|q: Pos|
            #![trigger cell(map, self.reached@, q)]
            map.in_bounds(q) && cell(map, self.reached@, q) ==> cell(map, self.dist@, q)
                <= count_true(self.settled@) * MAX_STEP_COST
    }

    spec fn frontier_ok(&self, map: &WorldMap) -> bool {
        &&& forall|j: int|
            0 <= j < self.frontier@.len() ==> map.in_bounds(#[trigger] self.frontier@[j]) && cell(
                map,
                self.reached@,
                self.frontier@[j],
            ) && !cell(map, self.settled@, self.frontier@[j])
        &&& forall|i: int, j: int|
            0 <= i < self.frontier@.len() && 0 <= j < self.frontier@.len() && i != j
                ==> #[trigger] self.frontier@[i] != #[trigger] self.frontier@[j]
        &&& forall|q: Pos|
            #![trigger cell(map, self.reached@, q)]
            map.in_bounds(q) && cell(map, self.reached@, q) && !cell(map, self.settled@, q)
                ==> self.frontier@.contains(q)
    }

    spec fn inv(&self, map: &WorldMap, start: Pos, goal: &SearchGoal) -> bool {
        &&& map.wf()
        &&& map.in_bounds(start)
        &&& !is_target(map, goal, start)
        &&& self.sized(map)
        &&& tree_ok(map, start, self.reached@, self.settled@, self.dist@, self.parent@)
        &&& closed_ok(map, goal, self.reached@, self.settled@)
        &&& self.bounded(map)
        &&& self.frontier_ok(map)
    }

    /// Index of the first frontier cell of least cost so far plus estimate.
    fn pick_best(&self, map: &WorldMap, toward: Option<Pos>) -> (best: usize)
        requires
            map.wf(),
            self.sized(map),
            self.frontier@.len() > 0,
            forall|j: int| 0 <= j < self.frontier@.len() ==> map.in_bounds(#[trigger] self.frontier@[j]),
        ensures
            best < self.frontier@.len(),
    {
        let mut best: usize = 0;
        let mut best_prio: u64 = u64::MAX;
        let mut j: usize = 0;
        while j < self.frontier.len()
            invariant
                map.wf(),
                self.sized(map),
                self.frontier@.len() > 0,
                best < self.frontier@.len(),
                j <= self.frontier@.len(),
                forall|j: int|
                    0 <= j < self.frontier@.len() ==> map.in_bounds(#[trigger] self.frontier@[j]),
            decreases self.frontier@.len() - j,
        {
            let f = self.frontier[j];
            proof {
                map.lemma_idx(f);
            }
            let d = self.dist[f.y * map.width + f.x];
            let h: u64 = match toward {
                Some(g) => {
                    let steps = (abs_diff(f.x, g.x) as u64).saturating_add(abs_diff(f.y, g.y) as u64);
                    let steps = if steps > 1_000_000_000 {
                        1_000_000_000
                    } else {
                        steps
                    };
                    HEURISTIC_PER_STEP * steps
                },
                None => 0,
            };
            let prio = d.saturating_add(h);
            if prio < best_prio {
                best = j;
                best_prio = prio;
            }
            j = j + 1;
        }
        best
    }

    /// Takes the best cell off the frontier and marks it expanded.
    #[verifier::rlimit(100)]
    #[verifier::spinoff_prover]
    fn settle_best(&mut self, map: &WorldMap, start: Pos, goal: &SearchGoal, toward: Option<Pos>) -> (c: Pos)
        requires
            old(self).inv(map, start, goal),
            old(self).frontier@.len() > 0,
        ensures
            final(self).sized(map),
            map.in_bounds(c),
            cell(map, final(self).reached@, c),
            cell(map, final(self).settled@, c),
            final(self).reached@ == old(self).reached@,
            final(self).dist@ == old(self).dist@,
            final(self).parent@ == old(self).parent@,
            count_true(final(self).settled@) == count_true(old(self).settled@) + 1,
            cell(map, final(self).dist@, c) + MAX_STEP_COST <= count_true(final(self).settled@) * MAX_STEP_COST,
            tree_ok(map, start, final(self).reached@, final(self).settled@, final(self).dist@, final(self).parent@),
            closed_except(map, goal, final(self).reached@, final(self).settled@, c),
            final(self).bounded(map),
            final(self).frontier_ok(map),
    {
        let best = self.pick_best(map, toward);
        let ghost f0 = self.frontier@;
        let ghost s0 = self.settled@;
        let c = self.frontier.remove(best);
        proof {
            map.lemma_idx(c);
            assert(f0[best as int] == c);
        }
        let ci = c.y * map.width + c.x;
        proof {
            lemma_count_true(self.settled@, ci as int);
        }
        self.settled.set(ci, true);
        proof {
            assert forall|q: Pos|
                map.in_bounds(q) && q != c implies #[trigger] cell(map, self.settled@, q) == cell(
                map,
                s0,
                q,
            ) by {
                map.lemma_idx_distinct(q, c);
                map.lemma_idx(q);
            }
            assert forall|q: Pos|
                #![trigger cell(map, self.settled@, q)]
                map.in_bounds(q) && cell(map, self.settled@, q) implies cell(map, self.reached@, q) by {
                if q != c {
                    assert(cell(map, s0, q));
                }
            }
            lemma_frontier_removed(map, f0, self.frontier@, best as int, c, self.reached@, s0, self.settled@);
            assert forall|q: Pos|
                #![trigger cell(map, self.reached@, q)]
                map.in_bounds(q) && cell(map, self.reached@, q) && q != start implies {
                let par = cell(map, self.parent@, q);
                &&& map.passable(q)
                &&& map.in_bounds(par)
                &&& cell(map, self.settled@, par)
                &&& cell(map, self.reached@, par)
                &&& adjacent(par, q)
                &&& cell(map, self.dist@, par) < cell(map, self.dist@, q)
            } by {
                let par = cell(map, self.parent@, q);
                assert(cell(map, s0, par));
                if par != c {
                    assert(cell(map, self.settled@, par) == cell(map, s0, par));
                }
            }
            assert forall|q: Pos, nb: Pos|
                #![trigger cell(map, self.settled@, q), adjacent(q, nb)]
                map.in_bounds(q) && cell(map, self.settled@, q) && q != c && map.in_bounds(nb)
                    && adjacent(q, nb) implies (map.passable(nb) ==> cell(map, self.reached@, nb))
                && !is_target(map, goal, nb) by {
                assert(cell(map, s0, q));
            }
            assert(cell(map, self.reached@, start));
        }
        c
    }

    /// Reaches, or reaches more cheaply, the walkable neighbours of `c` that are not expanded.
    #[verifier::rlimit(100)]
    #[verifier::spinoff_prover]
    fn relax(
        &mut self,
        map: &WorldMap,
        start: Pos,
        goal: &SearchGoal,
        c: Pos,
        near: &Vec<Pos>,
        weighted: bool,
    )
        requires
            map.wf(),
            map.in_bounds(start),
            !is_target(map, goal, start),
            old(self).sized(map),
            map.in_bounds(c),
            cell(map, old(self).reached@, c),
            cell(map, old(self).settled@, c),
            cell(map, old(self).dist@, c) + MAX_STEP_COST <= count_true(old(self).settled@)
                * MAX_STEP_COST,
            tree_ok(map, start, old(self).reached@, old(self).settled@, old(self).dist@, old(self).parent@),
            closed_except(map, goal, old(self).reached@, old(self).settled@, c),
            old(self).bounded(map),
            old(self).frontier_ok(map),
            forall|i: int|
                0 <= i < near@.len() ==> map.in_bounds(#[trigger] near@[i]) && adjacent(c, near@[i]),
            forall|q: Pos| map.in_bounds(q) && adjacent(c, q) ==> near@.contains(q),
            forall|i: int| 0 <= i < near@.len() ==> !is_target(map, goal, #[trigger] near@[i]),
        ensures
            final(self).inv(map, start, goal),
            final(self).settled@ == old(self).settled@,
    {
        let ghost reached1 = self.reached@;
        proof {
            map.lemma_idx(c);
        }
        let ci = c.y * map.width + c.x;
        let mut k: usize = 0;
        while k < near.len()
            invariant
                map.wf(),
                map.in_bounds(start),
                map.in_bounds(c),
                ci == map.idx(c),
                0 <= ci < map.tiles@.len(),
                self.sized(map),
                self.settled@ == old(self).settled@,
                cell(map, self.settled@, c),
                cell(map, self.reached@, c),
                cell(map, self.dist@, c) == cell(map, old(self).dist@, c),
                cell(map, self.dist@, c) + MAX_STEP_COST <= count_true(self.settled@) * MAX_STEP_COST,
                forall|i: int|
                    0 <= i < near@.len() ==> map.in_bounds(#[trigger] near@[i]) && adjacent(
                        c,
                        near@[i],
                    ),
                k <= near@.len(),
                tree_ok(map, start, self.reached@, self.settled@, self.dist@, self.parent@),
                self.bounded(map),
                self.frontier_ok(map),
                forall|i: int|
                    0 <= i < k && map.passable(#[trigger] near@[i]) ==> cell(
                        map,
                        self.reached@,
                        near@[i],
                    ),
                forall|q: Pos|
                    #![trigger cell(map, reached1, q)]
                    map.in_bounds(q) && cell(map, reached1, q) ==> cell(map, self.reached@, q),
            decreases near@.len() - k,
        {
            let nb = near[k];
            proof {
                map.lemma_idx(nb);
            }
            let ni = nb.y * map.width + nb.x;
            if map.get(&nb).is_traversible() && !self.settled[ni] {
                let step: u64 = if weighted {
                    map.get(&nb).cost()
                } else {
                    1
                };
                proof {
                    assert(count_true(self.settled@) * MAX_STEP_COST <= MAX_CELLS * MAX_STEP_COST) by (nonlinear_arith)
                        requires
                            count_true(self.settled@) <= map.tiles@.len(),
                            map.tiles@.len() <= MAX_CELLS,
                    ;
                }
                let nd = self.dist[ci] + step;
                if !self.reached[ni] || nd < self.dist[ni] {
                    let ghost r0 = self.reached@;
                    let ghost d0 = self.dist@;
                    let ghost p0 = self.parent@;
                    let ghost f0 = self.frontier@;
                    let was_reached = self.reached[ni];
                    self.reached.set(ni, true);
                    self.dist.set(ni, nd);
                    self.parent.set(ni, c);
                    if !was_reached {
                        self.frontier.push(nb);
                    }
                    proof {
                        assert(nb != c);
                        assert forall|q: Pos| map.in_bounds(q) && q != nb implies #[trigger] cell(
                            map,
                            self.reached@,
                            q,
                        ) == cell(map, r0, q) && cell(map, self.dist@, q) == cell(map, d0, q)
                            && cell(map, self.parent@, q) == cell(map, p0, q) by {
                            map.lemma_idx_distinct(q, nb);
                            map.lemma_idx(q);
                        }
                        assert(cell(map, self.reached@, nb));
                        assert(cell(map, self.dist@, c) == cell(map, d0, c));
                        assert forall|q: Pos|
                            #![trigger cell(map, self.reached@, q)]
                            map.in_bounds(q) && cell(map, self.reached@, q) && q != start implies {
                            let par = cell(map, self.parent@, q);
                            &&& map.passable(q)
                            &&& map.in_bounds(par)
                            &&& cell(map, self.settled@, par)
                            &&& cell(map, self.reached@, par)
                            &&& adjacent(par, q)
                            &&& cell(map, self.dist@, par) < cell(map, self.dist@, q)
                        } by {
                            if q != nb {
                                let par = cell(map, p0, q);
                                assert(cell(map, r0, q));
                                if par == nb {
                                    assert(cell(map, self.settled@, nb));
                                    assert(false);
                                }
                            }
                        }
                        assert forall|q: Pos|
                            #![trigger cell(map, self.settled@, q)]
                            map.in_bounds(q) && cell(map, self.settled@, q) implies cell(
                            map,
                            self.reached@,
                            q,
                        ) by {
                            if q != nb {
                                assert(cell(map, r0, q));
                            }
                        }
                        assert(cell(map, self.reached@, start)) by {
                            if start != nb {
                                assert(cell(map, r0, start));
                            }
                        }
                        assert(cell(map, self.dist@, start) == 0) by {
                            if start == nb {
                                assert(cell(map, r0, start));
                                assert(cell(map, self.settled@, nb) == false);
                            }
                        }
                        assert forall|q: Pos|
                            #![trigger cell(map, self.reached@, q)]
                            map.in_bounds(q) && cell(map, self.reached@, q) implies cell(
                            map,
                            self.dist@,
                            q,
                        ) <= count_true(self.settled@) * MAX_STEP_COST by {
                            if q != nb {
                                assert(cell(map, r0, q));
                            }
                        }
                        assert forall|j: int|
                            0 <= j < self.frontier@.len() implies map.in_bounds(
                            #[trigger] self.frontier@[j],
                        ) && cell(map, self.reached@, self.frontier@[j]) && !cell(
                            map,
                            self.settled@,
                            self.frontier@[j],
                        ) by {
                            if j < f0.len() {
                                assert(self.frontier@[j] == f0[j]);
                                if self.frontier@[j] != nb {
                                    assert(cell(map, r0, f0[j]));
                                }
                            }
                        }
                        assert forall|i: int, j: int|
                            0 <= i < self.frontier@.len() && 0 <= j < self.frontier@.len() && i
                                != j implies #[trigger] self.frontier@[i]
                            != #[trigger] self.frontier@[j] by {
                            if !was_reached {
                                if i == f0.len() && j < f0.len() {
                                    assert(cell(map, r0, f0[j]));
                                } else if j == f0.len() && i < f0.len() {
                                    assert(cell(map, r0, f0[i]));
                                } else {
                                    assert(self.frontier@[i] == f0[i]);
                                    assert(self.frontier@[j] == f0[j]);
                                }
                            } else {
                                assert(self.frontier@[i] == f0[i]);
                                assert(self.frontier@[j] == f0[j]);
                            }
                        }
                        assert forall|q: Pos|
                            #![trigger cell(map, self.reached@, q)]
                            map.in_bounds(q) && cell(map, self.reached@, q) && !cell(
                                map,
                                self.settled@,
                                q,
                            ) implies self.frontier@.contains(q) by {
                            if q == nb && !was_reached {
                                assert(self.frontier@[self.frontier@.len() - 1] == nb);
                            } else {
                                assert(cell(map, r0, q));
                                assert(f0.contains(q));
                                let w = choose|w: int| 0 <= w < f0.len() && f0[w] == q;
                                assert(self.frontier@[w] == q);
                            }
                        }
                        assert forall|q: Pos|
                            #![trigger cell(map, reached1, q)]
                            map.in_bounds(q) && cell(map, reached1, q) implies cell(
                                map,
                                self.reached@,
                                q,
                            ) by {
                            if q != nb {
                                assert(cell(map, r0, q));
                            }
                        }
                        assert forall|i: int|
                            0 <= i < k + 1 && map.passable(#[trigger] near@[i]) implies cell(
                            map,
                            self.reached@,
                            near@[i],
                        ) by {
                            if i < k && near@[i] != nb {
                                assert(cell(map, r0, near@[i]));
                            }
                        }
                    }
                }
            } else {
                proof {
                    if map.passable(nb) {
                        assert(cell(map, self.settled@, nb));
                        assert(cell(map, self.reached@, nb));
                    }
                }
            }
            k = k + 1;
        }
        proof {
            assert forall|q: Pos, nb: Pos|
                #![trigger cell(map, self.settled@, q), adjacent(q, nb)]
                map.in_bounds(q) && cell(map, self.settled@, q) && map.in_bounds(nb) && adjacent(
                    q,
                    nb,
                ) implies (map.passable(nb) ==> cell(map, self.reached@, nb)) && !is_target(
                map,
                goal,
                nb,
            ) by {
                if q == c {
                    assert(near@.contains(nb));
                    let w = choose|w: int| 0 <= w < near@.len() && near@[w] == nb;
                    assert(!is_target(map, goal, near@[w]));
                    if map.passable(nb) {
                        assert(cell(map, self.reached@, near@[w]));
                    }
                } else {
                    assert(cell(map, old(self).settled@, q));
                    if map.passable(nb) {
                        assert(cell(map, reached1, nb));
                    }
                }
            }
        }
    }
}


/// The search shared by the three operations below: grows a tree of cheapest known steps from
/// `start`, always expanding the first frontier cell of least (cost so far + estimate), and
/// stops at the first expanded cell with a target beside it.
///
/// With `weighted` a step costs the tile's movement cost, else one. With `toward`, the
/// estimate is `HEURISTIC_PER_STEP` times the Manhattan distance to that position, else zero.
#[verifier::rlimit(100)]
#[verifier::spinoff_prover]
fn search(
    map: &WorldMap,
    start: Pos,
    goal: &SearchGoal,
    weighted: bool,
    toward: Option<Pos>,
) -> (r: Option<Vec<Pos>>)
    requires
        map.wf(),
        map.in_bounds(start),
    ensures
        r matches Some(p) ==> is_walk(map, p@) && p@[0] == start && is_target(
            map,
            goal,
            p@.last(),
        ),
        r is None ==> forall|p: Seq<Pos>|
            is_walk(map, p) && p[0] == start ==> !is_target(map, goal, #[trigger] p.last()),
        r matches Some(p) ==> (forall|i: int| 0 <= i < p@.len() - 1 ==> !is_target(map, goal, #[trigger] p@[i]))
            && (forall|i: int, j: int| 0 <= i < j < p@.len() ==> p@[i] != p@[j]),
        !is_target(map, goal, start) && (exists|q: Pos|
            map.in_bounds(q) && adjacent(start, q) && #[trigger] is_target(map, goal, q)) ==> (r matches Some(
            p,
        ) && p@.len() == 2),
{
    if target_at(map, goal, &start) {
        let r = vec![start];
        return Some(r);
    }
    let around = neighbours(map, &start);
    let mut k0: usize = 0;
    while k0 < around.len()
        invariant
            map.wf(),
            map.in_bounds(start),
            !is_target(map, goal, start),
            forall|i: int|
                0 <= i < around@.len() ==> map.in_bounds(#[trigger] around@[i]) && adjacent(
                    start,
                    around@[i],
                ),
            forall|q: Pos| map.in_bounds(q) && adjacent(start, q) ==> around@.contains(q),
            k0 <= around@.len(),
            forall|i: int| 0 <= i < k0 ==> !is_target(map, goal, #[trigger] around@[i]),
        decreases around@.len() - k0,
    {
        if target_at(map, goal, &around[k0]) {
            let q = around[k0];
            let r = vec![start, q];
            proof {
                assert(r@[0] == start && r@[1] == q);
                assert(is_walk(map, r@));
                assert(start != q);
            }
            return Some(r);
        }
        k0 = k0 + 1;
    }
    proof {
        assert forall|q: Pos| map.in_bounds(q) && adjacent(start, q) implies !#[trigger] is_target(map, goal, q) by {
            assert(around@.contains(q));
            let w = choose|w: int| 0 <= w < around@.len() && around@[w] == q;
            assert(!is_target(map, goal, around@[w]));
        }
    }
    proof {
        map.lemma_idx(start);
    }
    let n = map.width * map.height;
    let mut st = SearchState {
        reached: vec![false; n],
        settled: vec![false; n],
        dist: vec![0u64; n],
        parent: vec![start; n],
        frontier: vec![start],
    };
    let si = start.y * map.width + start.x;
    st.reached.set(si, true);
    proof {
        assert forall|q: Pos|
            #![trigger cell(map, st.reached@, q)]
            map.in_bounds(q) && cell(map, st.reached@, q) implies q == start by {
            if q != start {
                map.lemma_idx_distinct(q, start);
                map.lemma_idx(q);
            }
        }
        assert forall|q: Pos|
            #![trigger cell(map, st.settled@, q)]
            map.in_bounds(q) implies !cell(map, st.settled@, q) by {
            map.lemma_idx(q);
        }
        lemma_count_zero(st.settled@);
        assert forall|q: Pos|
            #![trigger cell(map, st.reached@, q)]
            map.in_bounds(q) && cell(map, st.reached@, q) && !cell(map, st.settled@, q)
                implies st.frontier@.contains(q) by {
            assert(st.frontier@[0] == start);
        }
    }
    loop
        invariant
            st.inv(map, start, goal),
            n == map.tiles@.len(),
            forall|q: Pos| map.in_bounds(q) && adjacent(start, q) ==> !#[trigger] is_target(map, goal, q),
        decreases n - count_true(st.settled@),
    {
        if st.frontier.len() == 0 {
            proof {
                assert forall|p: Seq<Pos>|
                    is_walk(map, p) && p[0] == start implies !is_target(
                    map,
                    goal,
                    #[trigger] p.last(),
                ) by {
                    assert forall|q: Pos|
                        #![trigger cell(map, st.reached@, q)]
                        map.in_bounds(q) && cell(map, st.reached@, q) implies cell(
                        map,
                        st.settled@,
                        q,
                    ) by {
                        if !cell(map, st.settled@, q) {
                            assert(st.frontier@.contains(q));
                        }
                    }
                    lemma_no_walk_reaches_target(
                        map,
                        start,
                        goal,
                        st.reached@,
                        st.settled@,
                        st.dist@,
                        st.parent@,
                        p,
                    );
                }
            }
            return None;
        }
        let c = st.settle_best(map, start, goal, toward);
        let near = neighbours(map, &c);
        let mut k: usize = 0;
        while k < near.len()
            invariant
                map.wf(),
                map.in_bounds(start),
                map.in_bounds(c),
                st.sized(map),
                cell(map, st.reached@, c),
                tree_ok(map, start, st.reached@, st.settled@, st.dist@, st.parent@),
                closed_except(map, goal, st.reached@, st.settled@, c),
                !is_target(map, goal, start),
                forall|q: Pos| map.in_bounds(q) && adjacent(start, q) ==> !#[trigger] is_target(map, goal, q),
                forall|i: int|
                    0 <= i < near@.len() ==> map.in_bounds(#[trigger] near@[i]) && adjacent(
                        c,
                        near@[i],
                    ),
                k <= near@.len(),
                forall|i: int| 0 <= i < k ==> !is_target(map, goal, #[trigger] near@[i]),
            decreases near@.len() - k,
        {
            if target_at(map, goal, &near[k]) {
                let r = trace_back(
                    map,
                    start,
                    goal,
                    &st.reached,
                    &st.settled,
                    &st.dist,
                    &st.parent,
                    c,
                    near[k],
                );
                return Some(r);
            }
            k = k + 1;
        }
        proof {
            lemma_count_le(st.settled@);
        }
        st.relax(map, start, goal, c, &near, weighted);
    }
}

proof fn lemma_count_zero(s: Seq<bool>)
    requires
        forall|i: int| 0 <= i < s.len() ==> !s[i],
    ensures
        count_true(s) == 0,
    decreases s.len(),
{
    if s.len() > 0 {
        lemma_count_zero(s.drop_last());
    }
}

/// Shortest path (A*) from `start` to `end` over the four-connected grid. The returned path
/// holds both ends; `end` itself need not be walkable (a building, a tree).
pub fn a_star(map: &WorldMap, start: Pos, end: Pos) -> (r: Option<Vec<Pos>>)
    requires
        map.wf(),
        map.in_bounds(start),
    ensures
        r matches Some(p) ==> valid_path(map, p@, start, end),
        r is Some <==> reachable(map, start, end),
        start == end ==> (r matches Some(p) && p@ == seq![start]),
        r matches Some(p) ==> forall|i: int, j: int| 0 <= i < j < p@.len() ==> p@[i] != p@[j],
        start != end && map.in_bounds(end) && adjacent(start, end) ==> (r matches Some(p) && p@
            == seq![start, end]),
{
    let goal = SearchGoal::At(end);
    let r = search(map, start, &goal, true, Some(end));
    proof {
        match &r {
            Some(p) => {
                assert(valid_path(map, p@, start, end));
            },
            None => {
                assert forall|p: Seq<Pos>| !valid_path(map, p, start, end) by {
                    if is_walk(map, p) && p[0] == start {
                        assert(!is_target(map, &goal, p.last()));
                    }
                }
            },
        }
    }
    if start == end {
        let r1 = vec![start];
        assert(r1@ =~= seq![start]);
        assert(valid_path(map, r1@, start, end));
        return Some(r1);
    }
    proof {
        if map.in_bounds(end) && adjacent(start, end) {
            assert(is_target(map, &goal, end));
            match &r {
                Some(p) => {
                    assert(p@ =~= seq![start, end]);
                },
                None => {},
            }
        }
    }
    r
}

/// A walk from `start` to a tile `query` accepts.
pub open spec fn leads_to_match(map: &WorldMap, p: Seq<Pos>, start: Pos, query: &TileQuery) -> bool {
    is_walk(map, p) && p[0] == start && query_matches(query, map.tile(p.last()))
}

/// Nearest tile that `query` accepts by movement cost (Dijkstra), and the path to it.
pub fn dijkstra_closest(map: &WorldMap, start: Pos, query: &TileQuery) -> (r: Option<Vec<Pos>>)
    requires
        map.wf(),
        map.in_bounds(start),
    ensures
        r matches Some(p) ==> leads_to_match(map, p@, start, query),
        r is Some <==> exists|p: Seq<Pos>| leads_to_match(map, p, start, query),
        query_matches(query, map.tile(start)) ==> (r matches Some(p) && p@ == seq![start]),
        r matches Some(p) ==> forall|i: int| 0 <= i < p@.len() - 1 ==> !query_matches(query, map.tile(#[trigger] p@[i])),
        r matches Some(p) ==> forall|i: int, j: int| 0 <= i < j < p@.len() ==> p@[i] != p@[j],
        !query_matches(query, map.tile(start)) && (exists|q: Pos|
            map.in_bounds(q) && adjacent(start, q) && query_matches(query, #[trigger] map.tile(q))) ==> (r matches Some(
            p,
        ) && p@.len() == 2),
{
    closest_by(map, start, query, true)
}

/// Nearest tile that `query` accepts by number of steps (breadth first), and the path to it.
pub fn bfs_closest(map: &WorldMap, start: Pos, query: &TileQuery) -> (r: Option<Vec<Pos>>)
    requires
        map.wf(),
        map.in_bounds(start),
    ensures
        r matches Some(p) ==> leads_to_match(map, p@, start, query),
        r is Some <==> exists|p: Seq<Pos>| leads_to_match(map, p, start, query),
        query_matches(query, map.tile(start)) ==> (r matches Some(p) && p@ == seq![start]),
        r matches Some(p) ==> forall|i: int| 0 <= i < p@.len() - 1 ==> !query_matches(query, map.tile(#[trigger] p@[i])),
        r matches Some(p) ==> forall|i: int, j: int| 0 <= i < j < p@.len() ==> p@[i] != p@[j],
        !query_matches(query, map.tile(start)) && (exists|q: Pos|
            map.in_bounds(q) && adjacent(start, q) && query_matches(query, #[trigger] map.tile(q))) ==> (r matches Some(
            p,
        ) && p@.len() == 2),
{
    closest_by(map, start, query, false)
}

fn closest_by(map: &WorldMap, start: Pos, query: &TileQuery, weighted: bool) -> (r: Option<
    Vec<Pos>,
>)
    requires
        map.wf(),
        map.in_bounds(start),
    ensures
        r matches Some(p) ==> leads_to_match(map, p@, start, query),
        r is Some <==> exists|p: Seq<Pos>| leads_to_match(map, p, start, query),
        query_matches(query, map.tile(start)) ==> (r matches Some(p) && p@ == seq![start]),
        r matches Some(p) ==> forall|i: int| 0 <= i < p@.len() - 1 ==> !query_matches(query, map.tile(#[trigger] p@[i])),
        r matches Some(p) ==> forall|i: int, j: int| 0 <= i < j < p@.len() ==> p@[i] != p@[j],
        !query_matches(query, map.tile(start)) && (exists|q: Pos|
            map.in_bounds(q) && adjacent(start, q) && query_matches(query, #[trigger] map.tile(q))) ==> (r matches Some(
            p,
        ) && p@.len() == 2),
{
    if query.matches(&map.get(&start)) {
        let r1 = vec![start];
        assert(r1@ =~= seq![start]);
        assert(leads_to_match(map, r1@, start, query));
        return Some(r1);
    }
    let goal = SearchGoal::Matching(query.copy_query());
    let r = search(map, start, &goal, weighted, None);
    proof {
        match &r {
            Some(p) => {
                assert forall|i: int| 0 <= i < p@.len() - 1 implies !query_matches(query, map.tile(#[trigger] p@[i])) by {
                    assert(!is_target(map, &goal, p@[i]));
                    assert(map.in_bounds(p@[i]));
                }
            },
            None => {},
        }
        if exists|q: Pos| map.in_bounds(q) && adjacent(start, q) && query_matches(query, #[trigger] map.tile(q)) {
            let q = choose|q: Pos| map.in_bounds(q) && adjacent(start, q) && query_matches(query, #[trigger] map.tile(q));
            assert(is_target(map, &goal, q));
        }
        match &r {
            Some(p) => {
                assert(leads_to_match(map, p@, start, query));
            },
            None => {
                assert forall|p: Seq<Pos>| !leads_to_match(map, p, start, query) by {
                    if is_walk(map, p) && p[0] == start {
                        assert(!is_target(map, &goal, p.last()));
                    }
                }
            },
        }
    }
    r
}

/// Joins two paths where the second begins on the tile the first ends on; that tile is kept
/// once.
pub fn combine_path(p1: Vec<Pos>, p2: Vec<Pos>) -> (r: Vec<Pos>)
    requires
        p1@.len() >= 1,
        p2@.len() >= 1,
        p1@.last() == p2@[0],
    ensures
        r@ == p1@.drop_last() + p2@,
{
    let mut p1 = p1;
    let mut p2 = p2;
    p1.pop();
    p1.append(&mut p2);
    p1
}

} // verus!
