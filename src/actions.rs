use vstd::prelude::*;

use crate::inventory::seq_sum;
use crate::items::InventoryItems;
use crate::math::{in_grid, Pos};
use crate::world_map::{ResourceCharge, ResourceType, TileType, WorldMap};

verus! {

/// How long gathering one charge of a resource takes, in microseconds.
pub const GATHER_TIME: u64 = 10_000_000;

/// How long a break at the hearth lasts, in microseconds.
pub const BREAK_TIME: u64 = 30_000_000;

pub open spec fn sat_add(a: u64, b: u64) -> u64 {
    if a + b > u64::MAX {
        u64::MAX
    } else {
        (a + b) as u64
    }
}

#[derive(Clone, Copy, Debug, PartialEq, Eq, Structural)]
pub enum ActionResult {
    InProgress,
    Completed,
}

/// A timer: done once its progress has passed its requirement.
#[derive(Clone, Copy, Debug, PartialEq, Eq, Structural)]
pub struct BasicAction {
    pub progress: u64,
    pub requirement: u64,
}

impl BasicAction {
    pub open spec fn spec_completed(&self) -> bool {
        self.progress > self.requirement
    }

    pub fn new(requirement: u64) -> (r: BasicAction)
        ensures
            r.progress == 0,
            r.requirement == requirement,
    {
        BasicAction { progress: 0, requirement }
    }

    /// Advances the timer by `delta`.
    pub fn continue_action(&mut self, delta: u64) -> (r: ActionResult)
        ensures
            final(self).progress == sat_add(old(self).progress, delta),
            final(self).requirement == old(self).requirement,
            (r == ActionResult::Completed) == final(self).spec_completed(),
    {
        self.progress = self.progress.saturating_add(delta);
        if self.progress > self.requirement {
            ActionResult::Completed
        } else {
            ActionResult::InProgress
        }
    }

    pub fn is_completed(&self) -> (r: bool)
        ensures
            r == self.spec_completed(),
    {
        self.progress > self.requirement
    }
}

#[derive(Clone, Copy, Debug, PartialEq, Eq, Structural)]
pub enum TransitActionResult {
    InProgress(Pos),
    Completed(Pos),
}

/// Travel along a path; each tile takes its movement cost.
pub struct TransitAction {
    pub path: Vec<Pos>,
    pub path_cost: Vec<u64>,
    pub progress: u64,
    pub requirement: u64,
}

pub open spec fn capped_sum(s: Seq<u64>) -> u64 {
    if seq_sum(s) > u64::MAX {
        u64::MAX
    } else {
        seq_sum(s) as u64
    }
}

impl TransitAction {
    pub open spec fn wf(&self, w: usize, h: usize) -> bool {
        &&& self.path@.len() >= 1
        &&& self.path_cost@.len() == self.path@.len()
        &&& forall|i: int| 0 <= i < self.path@.len() ==> in_grid(#[trigger] self.path@[i], w, h)
    }

    pub open spec fn destination(&self) -> Pos {
        self.path@.last()
    }

    /// Travel along `path`; the time it needs is the sum of its tiles' costs.
    pub fn new(path: Vec<Pos>, map: &WorldMap) -> (r: TransitAction)
        requires
            map.wf(),
            path@.len() >= 1,
            forall|i: int| 0 <= i < path@.len() ==> map.in_bounds(#[trigger] path@[i]),
        ensures
            r.wf(map.width, map.height),
            r.path@ == path@,
            r.progress == 0,
            r.requirement == capped_sum(r.path_cost@),
            forall|i: int| 0 <= i < r.path_cost@.len() ==> #[trigger] r.path_cost@[i] == map.tile(path@[i]).spec_cost(),
    {
        let path_cost = map.path_to_cost(&path);
        let mut acc: u64 = 0;
        let mut i: usize = 0;
        while i < path_cost.len()
            invariant
                i <= path_cost@.len(),
                acc == capped_sum(path_cost@.take(i as int)),
            decreases path_cost@.len() - i,
        {
            proof {
                crate::inventory::lemma_sum_take(path_cost@, i as int);
            }
            acc = acc.saturating_add(path_cost[i]);
            i = i + 1;
        }
        assert(path_cost@.take(i as int) =~= path_cost@);
        TransitAction { path, path_cost, progress: 0, requirement: acc }
    }

    /// Moves on by `delta`; done once the progress reaches the requirement.
    pub fn continue_action(&mut self, delta: u64) -> (r: TransitActionResult)
        requires
            old(self).path@.len() >= 1,
        ensures
            final(self).path@ == old(self).path@,
            final(self).path_cost@ == old(self).path_cost@,
            final(self).requirement == old(self).requirement,
            final(self).progress == sat_add(old(self).progress, delta),
            match r {
                TransitActionResult::Completed(p) => final(self).progress >= final(self).requirement
                    && p == final(self).destination(),
                TransitActionResult::InProgress(p) => final(self).progress < final(self).requirement
                    && final(self).path@.contains(p),
            },
    {
        self.progress = self.progress.saturating_add(delta);
        let n = self.path.len();
        if self.progress >= self.requirement {
            return TransitActionResult::Completed(self.path[n - 1]);
        }
        TransitActionResult::InProgress(self.current_pos())
    }

    /// The first tile of the path whose running cost reaches the progress.
    fn current_pos(&self) -> (r: Pos)
        requires
            self.path@.len() >= 1,
        ensures
            self.path@.contains(r),
    {
        let mut acc: u64 = 0;
        let mut i: usize = 0;
        while i < self.path_cost.len() && i < self.path.len()
            invariant
                self.path@.len() >= 1,
                i <= self.path@.len(),
            decreases self.path@.len() - i,
        {
            acc = acc.saturating_add(self.path_cost[i]);
            if acc >= self.progress {
                assert(self.path@[i as int] == self.path[i as int]);
                return self.path[i];
            }
            i = i + 1;
        }
        assert(self.path@[self.path@.len() - 1] == self.path[self.path@.len() - 1]);
        self.path[self.path.len() - 1]
    }
}

/// A transit whose path lies in a `w` by `h` grid stays there, and so does what it reports.
pub proof fn lemma_transit_in_grid(t: &TransitAction, p: Pos, w: usize, h: usize)
    requires
        t.wf(w, h),
        t.path@.contains(p) || p == t.destination(),
    ensures
        in_grid(p, w, h),
{
    if t.path@.contains(p) {
        let i = choose|i: int| 0 <= i < t.path@.len() && t.path@[i] == p;
        assert(in_grid(t.path@[i], w, h));
    } else {
        assert(in_grid(t.path@[t.path@.len() - 1], w, h));
    }
}

#[derive(Clone, Copy, Debug)]
pub enum GatheringActionResult {
    InProgress(Pos),
    /// Done; holds what was gathered (nothing if the resource was gone).
    Completed(GatheredBundle),
}

/// What one gather yields: two (item, amount) pairs, either of which may be zero.
#[derive(Clone, Copy, Debug)]
pub struct GatheredBundle {
    pub first: (InventoryItems, u64),
    pub second: (InventoryItems, u64),
}

impl GatheredBundle {
    pub fn nothing() -> (r: GatheredBundle)
        ensures
            r.first.1 == 0 && r.second.1 == 0,
    {
        GatheredBundle { first: (InventoryItems::Wood, 0), second: (InventoryItems::Wood, 0) }
    }
}

/// The tile a resource leaves behind after one more charge is taken: empty ground once no
/// charge is left, else the resource with one charge less and no claim on it.
pub open spec fn spent(rt: ResourceType, c: ResourceCharge) -> TileType {
    if c.current <= 1 {
        TileType::Empty
    } else {
        TileType::Resource(
            rt,
            ResourceCharge {
                yield_item: c.yield_item,
                yield_amount: c.yield_amount,
                bonus_item: c.bonus_item,
                bonus_amount: c.bonus_amount,
                total: c.total,
                current: (c.current - 1) as u64,
            },
            false,
        )
    }
}

/// The harvesting timer runs out within the next `delta`.
pub open spec fn harvest_due(g: &GatheringAction, delta: u64) -> bool {
    match &g.state {
        GatheringActionInternalState::Gathering(t) => sat_add(t.progress, delta) > t.requirement,
        _ => false,
    }
}

/// One harvest of the tile `before`: a resource yields its bundle and becomes `spent`;
/// anything else yields nothing.
pub open spec fn harvested(before: TileType, r: GatheringActionResult, after: TileType) -> bool {
    match r {
        GatheringActionResult::Completed(b) => match before {
            TileType::Resource(rt, c, _) => b.first == (c.yield_item, c.yield_amount) && b.second == (
                c.bonus_item,
                c.bonus_amount,
            ) && after == spent(rt, c),
            _ => b.first.1 == 0 && b.second.1 == 0 && after == before,
        },
        _ => false,
    }
}

pub enum GatheringActionInternalState {
    Going(TransitAction),
    Gathering(BasicAction),
}

/// Walk to a resource, then harvest one charge of it.
pub struct GatheringAction {
    pub state: GatheringActionInternalState,
    pub pos: Pos,
    pub target: Pos,
}

impl GatheringAction {
    pub open spec fn wf(&self, w: usize, h: usize) -> bool {
        &&& in_grid(self.pos, w, h)
        &&& in_grid(self.target, w, h)
        &&& match &self.state {
            GatheringActionInternalState::Going(t) => t.wf(w, h),
            GatheringActionInternalState::Gathering(_) => true,
        }
    }

    /// Sets off along `path`, whose last tile is a resource; that resource is marked as claimed.
    pub fn new(path: Vec<Pos>, map: &mut WorldMap) -> (r: GatheringAction)
        requires
            old(map).wf(),
            path@.len() >= 1,
            forall|i: int| 0 <= i < path@.len() ==> old(map).in_bounds(#[trigger] path@[i]),
        ensures
            final(map).wf(),
            final(map).width == old(map).width,
            final(map).height == old(map).height,
            r.wf(final(map).width, final(map).height),
            r.target == path@.last(),
            old(map).tile(path@.last()) matches TileType::Resource(rt, c, _) ==> final(map).tile(
                path@.last(),
            ) == TileType::Resource(rt, c, true),
            forall|q: Pos|
                old(map).in_bounds(q) && q != path@.last() ==> #[trigger] final(map).tile(q) == old(
                    map,
                ).tile(q),
            r.state is Going,
    {
        let pos = path[0];
        let target = path[path.len() - 1];
        let tile = map.get(&target);
        if let TileType::Resource(rt, c, _) = tile {
            map.set(&target, TileType::Resource(rt, c, true));
        }
        let transit = TransitAction::new(path, map);
        GatheringAction { state: GatheringActionInternalState::Going(transit), pos, target }
    }

    /// Walks on, or harvests once arrived. Harvesting takes one charge, clears the claim, and
    /// turns a spent resource into empty ground.
    pub fn continue_action(&mut self, map: &mut WorldMap, delta: u64) -> (r: GatheringActionResult)
        requires
            old(map).wf(),
            old(self).wf(old(map).width, old(map).height),
        ensures
            final(map).wf(),
            final(map).width == old(map).width,
            final(map).height == old(map).height,
            final(self).wf(final(map).width, final(map).height),
            final(self).target == old(self).target,
            r matches GatheringActionResult::InProgress(p) ==> in_grid(
                p,
                final(map).width,
                final(map).height,
            ),
            forall|q: Pos|
                old(map).in_bounds(q) && q != old(self).target ==> #[trigger] final(map).tile(q)
                    == old(map).tile(q),
            old(self).state is Going ==> final(self).state is Going || (final(self).state matches GatheringActionInternalState::Gathering(t)
                && t.progress == 0 && t.requirement == GATHER_TIME && final(self).pos == old(self).target),
            old(self).state is Going && final(self).state is Going ==> r is InProgress && *final(map) == *old(map),
            old(self).state is Gathering && !harvest_due(old(self), delta) ==> r is InProgress
                && final(self).state is Gathering && *final(map) == *old(map),
            harvest_due(old(self), delta) ==> harvested(
                old(map).tile(old(self).target),
                r,
                final(map).tile(old(self).target),
            ),
    {
        match &mut self.state {
            GatheringActionInternalState::Going(transit) => {
                let result = transit.continue_action(delta);
                match result {
                    TransitActionResult::InProgress(pos) => {
                        proof {
                            lemma_transit_in_grid(transit, pos, map.width, map.height);
                        }
                        self.pos = pos;
                    },
                    TransitActionResult::Completed(pos) => {
                        self.state = GatheringActionInternalState::Gathering(
                            BasicAction::new(GATHER_TIME),
                        );
                        self.pos = self.target;
                        if let TileType::Resource(_, _, _) = map.get(&self.target) {
                        } else {
                            return GatheringActionResult::Completed(GatheredBundle::nothing());
                        }
                    },
                }
            },
            GatheringActionInternalState::Gathering(timer) => {
                let result = timer.continue_action(delta);
                if let ActionResult::Completed = result {
                    let tile = map.get(&self.target);
                    if let TileType::Resource(rt, c, _) = tile {
                        let mut charge = c;
                        let bundle = charge.gather();
                        if charge.current == 0 {
                            map.set(&self.target, TileType::Empty);
                        } else {
                            map.set(&self.target, TileType::Resource(rt, charge, false));
                        }
                        return GatheringActionResult::Completed(
                            GatheredBundle { first: bundle[0], second: bundle[1] },
                        );
                    }
                    return GatheringActionResult::Completed(GatheredBundle::nothing());
                }
            },
        }
        GatheringActionResult::InProgress(self.pos)
    }
}

#[derive(Clone, Copy, Debug, PartialEq, Eq, Structural)]
pub enum TakingBreakActionResult {
    InProgress(Pos),
    Completed,
}

/// The rest at the hearth is over within the next `delta`.
pub open spec fn break_over(b: &TakingBreakAction, delta: u64) -> bool {
    match &b.state {
        TakingBreakActionInternalState::TakingBreak(t) => sat_add(t.progress, delta) > t.requirement,
        _ => false,
    }
}

pub enum TakingBreakActionInternalState {
    Going(TransitAction),
    TakingBreak(BasicAction),
}

/// Walk to the hearth, then rest there for `BREAK_TIME`.
pub struct TakingBreakAction {
    pub state: TakingBreakActionInternalState,
    pub pos: Pos,
}

impl TakingBreakAction {
    pub open spec fn wf(&self, w: usize, h: usize) -> bool {
        &&& in_grid(self.pos, w, h)
        &&& match &self.state {
            TakingBreakActionInternalState::Going(t) => t.wf(w, h),
            TakingBreakActionInternalState::TakingBreak(_) => true,
        }
    }

    pub fn new(path: Vec<Pos>, map: &WorldMap) -> (r: TakingBreakAction)
        requires
            map.wf(),
            path@.len() >= 1,
            forall|i: int| 0 <= i < path@.len() ==> map.in_bounds(#[trigger] path@[i]),
        ensures
            r.wf(map.width, map.height),
    {
        let pos = path[0];
        TakingBreakAction {
            state: TakingBreakActionInternalState::Going(TransitAction::new(path, map)),
            pos,
        }
    }

    pub fn continue_action(&mut self, delta: u64) -> (r: TakingBreakActionResult)
        ensures
            forall|w: usize, h: usize| old(self).wf(w, h) ==> #[trigger] final(self).wf(w, h),
            r matches TakingBreakActionResult::InProgress(p) ==> p == final(self).pos,
            (r == TakingBreakActionResult::Completed) == break_over(old(self), delta),
            old(self).state is Going && final(self).state is TakingBreak ==> (final(self).state
                matches TakingBreakActionInternalState::TakingBreak(t) && t.progress == 0
                && t.requirement == BREAK_TIME),
    {
        match &mut self.state {
            TakingBreakActionInternalState::Going(transit) => {
                let ghost before = *transit;
                if transit.path.len() == 0 {
                    return TakingBreakActionResult::InProgress(self.pos);
                }
                let result = transit.continue_action(delta);
                proof {
                    assert forall|w: usize, h: usize| before.wf(w, h) implies #[trigger] transit.wf(w, h) by {
                        assert forall|i: int| 0 <= i < transit.path@.len() implies in_grid(#[trigger] transit.path@[i], w, h) by {
                            assert(transit.path@[i] == before.path@[i]);
                        }
                    }
                }
                match result {
                    TransitActionResult::InProgress(pos) => {
                        proof {
                            assert forall|w: usize, h: usize| before.wf(w, h) implies #[trigger] in_grid(pos, w, h) by {
                                lemma_transit_in_grid(transit, pos, w, h);
                            }
                        }
                        self.pos = pos;
                    },
                    TransitActionResult::Completed(pos) => {
                        proof {
                            assert forall|w: usize, h: usize| before.wf(w, h) implies #[trigger] in_grid(pos, w, h) by {
                                lemma_transit_in_grid(transit, pos, w, h);
                            }
                        }
                        self.state = TakingBreakActionInternalState::TakingBreak(
                            BasicAction::new(BREAK_TIME),
                        );
                        self.pos = pos;
                    },
                }
            },
            TakingBreakActionInternalState::TakingBreak(timer) => {
                if let ActionResult::Completed = timer.continue_action(delta) {
                    return TakingBreakActionResult::Completed;
                }
            },
        }
        TakingBreakActionResult::InProgress(self.pos)
    }
}

} // verus!
