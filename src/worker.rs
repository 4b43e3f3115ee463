use vstd::prelude::*;

use crate::actions::{
    break_over, harvest_due, lemma_transit_in_grid, sat_add, ActionResult, BasicAction, GatheringAction, GatheringActionResult, TakingBreakAction,
    TakingBreakActionResult, TransitAction, TransitActionResult,
};
use crate::building::make_building;
use crate::config::ProducedReceipe;
use crate::inventory::{bundle_count, min_nat, Inventory, QUANTITY_CEILING};
use crate::items::InventoryItems;
use crate::math::{in_grid, Pos};
use crate::pathfinding::{a_star, combine_path, reachable, valid_path};
use crate::building::Building;
use crate::world::{
    closest_shop, delivery_complete, find_store_at, filter_accepts, holds_one_of, shops_kept, BuildZone,
    ShopFilter, World,
};
use crate::world_map::{TileType, WorldMap};

verus! {

/// Time a worker works before needing a break, in microseconds.
pub const TIME_TO_BREAK: u64 = 120_000_000;

/// Time a lost worker waits before looking for a way again, in microseconds.
pub const RETRY_DELAY: u64 = 15_000_000;

/// The tag of a worker's state.
#[derive(Clone, Copy, Debug, PartialEq, Eq, Structural)]
pub enum StateKind {
    Idle,
    Supplying,
    Storing,
    Gathering,
    Returning,
    TakingBreak,
    Producing,
    Lost,
    SupplyingBuildZone,
    Building,
}

/// States whose end is a trip back to the worker's building.
pub open spec fn can_return(k: StateKind) -> bool {
    match k {
        StateKind::Supplying | StateKind::Storing | StateKind::Gathering | StateKind::TakingBreak
        | StateKind::Lost | StateKind::SupplyingBuildZone | StateKind::Building => true,
        _ => false,
    }
}

/// States whose natural end is being idle.
pub open spec fn can_idle(k: StateKind) -> bool {
    match k {
        StateKind::Returning | StateKind::Producing | StateKind::Idle => true,
        _ => false,
    }
}

/// The moves one tick of a worker's own action may make: stay, end a trip by heading home,
/// get lost on the way, arrive home, finish production, set off for a break, or retry from
/// being lost.
pub open spec fn step_allowed(a: StateKind, b: StateKind) -> bool {
    a == b || match a {
        StateKind::Idle => b == StateKind::TakingBreak,
        StateKind::Returning | StateKind::Producing => b == StateKind::Idle,
        StateKind::Lost => b == StateKind::Returning || b == StateKind::Storing,
        _ => can_return(a) && (b == StateKind::Returning || b == StateKind::Lost),
    }
}

/// One tick sends a worker home only from a state that can return, and makes it idle only
/// from a state whose natural end is being idle.
pub proof fn lemma_transitions_respect_capabilities(a: StateKind, b: StateKind)
    requires
        step_allowed(a, b),
        a != b,
    ensures
        b == StateKind::Returning ==> can_return(a),
        b == StateKind::Idle ==> can_idle(a),
{
}

/// The contract of one tick of a worker's own action (`Worker::continue_action`): worker `a0`
/// in world `w0` becomes `a1` in `w1`, handing `res` to its building at `home`.
pub open spec fn ticked(
    w0: &World,
    w1: &World,
    a0: &Worker,
    a1: &Worker,
    res: &WorkerActionResult,
    home: Pos,
    delta: u64,
) -> bool {
    &&& w1.wf()
    &&& w1.map.width == w0.map.width
    &&& w1.map.height == w0.map.height
    &&& w1.shops@.len() >= w0.shops@.len()
    &&& shops_kept(w0, w1)
    &&& a1.wf(w1.map.width, w1.map.height)
    &&& a1.name == a0.name
    &&& step_allowed(a0.kind(), a1.kind())
    &&& res is Idle ==> a0.kind() == StateKind::Idle && a1.kind() == StateKind::Idle
    &&& (res matches WorkerActionResult::BroughtToShop(inv) ==> a0.kind() == StateKind::Returning && a1.kind() == StateKind::Idle && inv == a0.inventory && inv.wf() && a1.inventory.total() == 0)
    &&& res is ProductionComplete ==> a0.kind() == StateKind::Producing && a1.kind() == StateKind::Idle
    &&& (a0.state matches WorkerState::Lost(t) && sat_add(t.progress, delta) > t.requirement && a0.inventory.total() == 0 ==> (a1.kind() == StateKind::Returning <==> reachable(&w0.map, a0.pos, home)))
    &&& a0.kind() == StateKind::Lost ==> a1.pos == a0.pos && a1.inventory == a0.inventory && a1.exhausted == a0.exhausted
    &&& a0.kind() == StateKind::Returning ==> (trip_ends(a0, delta) <==> a1.kind() == StateKind::Idle) && (trip_ends(a0, delta) ==> a1.pos == trip_destination(a0))
    &&& a0.kind() == StateKind::Supplying ==> a1.inventory == a0.inventory && (!trip_ends(a0, delta) ==> a1.kind() == StateKind::Supplying) && (trip_ends(a0, delta) ==> a1.pos == trip_destination(a0))
    &&& a0.kind() == StateKind::Storing && !trip_ends(a0, delta) ==> a1.kind() == StateKind::Storing && *w1 == *w0
    &&& a0.kind() == StateKind::Storing && trip_ends(a0, delta) && !store_stands_at(w0, trip_destination(a0)) ==> a1.kind() == StateKind::Lost && a1.inventory == a0.inventory && *w1 == *w0
    &&& a0.kind() == StateKind::TakingBreak && a1.kind() != StateKind::TakingBreak ==> a1.break_progress.progress == 0 && !a1.exhausted
    &&& res is Idle ==> a1.inventory == a0.inventory
    &&& lost_waits(a0, a1, delta)
    &&& (a0.state matches WorkerState::Lost(t) && sat_add(t.progress, delta) > t.requirement && a1.kind() == StateKind::Lost ==> (a1.state matches WorkerState::Lost(t2) && t2.progress == 0 && t2.requirement == RETRY_DELAY))
    &&& harvest_into(a0, a1, w0, delta)
    &&& (a0.kind() == StateKind::TakingBreak ==> a1.inventory == a0.inventory && ((a0.state matches WorkerState::TakingBreak(b) && break_over(&b, delta)) <==> a1.kind() != StateKind::TakingBreak))
}

/// A gathering worker whose harvest is due takes the resource's main yield into its hands
/// (where the ceiling allows); a gathering worker never loses goods.
pub open spec fn harvest_into(a0: &Worker, a1: &Worker, w0: &World, delta: u64) -> bool {
    match &a0.state {
        WorkerState::Gathering(g) => (forall|x: InventoryItems| #[trigger] a1.inventory.count(x) >= a0.inventory.count(x))
            && (harvest_due(g, delta) ==> match w0.map.tile(g.target) {
            TileType::Resource(_, c, _) => a0.inventory.total() + c.yield_amount <= QUANTITY_CEILING
                ==> a1.inventory.count(c.yield_item) >= a0.inventory.count(c.yield_item) + c.yield_amount,
            _ => true,
        }),
        _ => true,
    }
}

/// A lost worker whose wait is not over waits on, `delta` longer.
pub open spec fn lost_waits(w0: &Worker, w1: &Worker, delta: u64) -> bool {
    match w0.state {
        WorkerState::Lost(t) => sat_add(t.progress, delta) <= t.requirement ==> match w1.state {
            WorkerState::Lost(t2) => t2.progress == sat_add(t.progress, delta) && t2.requirement
                == t.requirement,
            _ => false,
        },
        _ => true,
    }
}

/// `m1` is `m0` with the resource at `t` marked as being harvested, and nothing else changed
/// (where `t` holds no resource, nothing changes at all).
pub open spec fn claimed(m0: &WorldMap, m1: &WorldMap, t: Pos) -> bool {
    &&& m1.width == m0.width
    &&& m1.height == m0.height
    &&& forall|q: Pos| m0.in_bounds(q) && q != t ==> #[trigger] m1.tile(q) == m0.tile(q)
    &&& match m0.tile(t) {
        TileType::Resource(rt, c, _) => m1.tile(t) == TileType::Resource(rt, c, true),
        _ => true,
    }
}

/// A worker on a trip (supplying, storing, returning) whose travel time runs out within
/// `delta`.
pub open spec fn trip_ends(w: &Worker, delta: u64) -> bool {
    match &w.state {
        WorkerState::Supplying(t) => sat_add(t.progress, delta) >= t.requirement,
        WorkerState::Storing(t) => sat_add(t.progress, delta) >= t.requirement,
        WorkerState::Returning(t) => sat_add(t.progress, delta) >= t.requirement,
        WorkerState::SupplyingBuildZone(t, _) => sat_add(t.progress, delta) >= t.requirement,
        _ => false,
    }
}

/// Where a worker's trip ends.
pub open spec fn trip_destination(w: &Worker) -> Pos {
    match &w.state {
        WorkerState::Supplying(t) => t.destination(),
        WorkerState::Storing(t) => t.destination(),
        WorkerState::Returning(t) => t.destination(),
        WorkerState::SupplyingBuildZone(t, _) => t.destination(),
        _ => w.pos,
    }
}

/// Some store of `world` stands at `pos`.
pub open spec fn store_stands_at(world: &World, pos: Pos) -> bool {
    exists|i: int|
        0 <= i < world.shops@.len() && (#[trigger] world.shops@[i]).building_behaviour is Store
            && world.shops@[i].building_base.pos == pos
}

/// Construction of the site held (if any) is finished within the next `delta`; with no site
/// left there is nothing more to build.
pub open spec fn construction_done(z: &Option<BuildZone>, delta: u64) -> bool {
    match z {
        Some(z) => sat_add(z.progress.progress, delta) > z.progress.requirement,
        None => true,
    }
}

/// The site `z` became a finished building: its tiles are the building's, and the building
/// joined the end of the list.
pub open spec fn placed(w0: &World, w1: &World, z: &BuildZone) -> bool {
    &&& w1.map.width == w0.map.width
    &&& w1.map.height == w0.map.height
    &&& forall|q: Pos|
        #![trigger w1.map.tile(q)]
        w1.map.in_bounds(q) ==> w1.map.tile(q) == if WorldMap::in_rect(
            q,
            z.site.pos,
            z.site.width as int,
            z.site.height as int,
        ) {
            TileType::Structure(z.building)
        } else {
            w0.map.tile(q)
        }
    &&& w1.shops@.len() == w0.shops@.len() + 1
    &&& forall|k: int| 0 <= k < w0.shops@.len() ==> #[trigger] w1.shops@[k] == w0.shops@[k]
    &&& w1.shops@.last().building_base.pos == z.site.pos
    &&& w1.shops@.last().building_base.building == z.building
    &&& w1.build_zones == w0.build_zones
}

/// `placed` for the site held, if any.
pub open spec fn placed_from(w0: &World, w1: &World, z: &Option<BuildZone>) -> bool {
    match z {
        Some(z) => placed(w0, w1, z),
        None => w1 == w0,
    }
}

pub enum BuildingActionInternalState {
    Going(TransitAction),
    Building,
}

#[derive(Clone, Copy, Debug, PartialEq, Eq, Structural)]
pub enum BuildingActionResult {
    InProgress(Pos),
    Completed,
}

/// Walk to a construction site whose materials are all there, and build it.
pub struct BuildingAction {
    pub state: BuildingActionInternalState,
    pub build_zone: Option<BuildZone>,
}

impl BuildingAction {
    pub open spec fn wf(&self, w: usize, h: usize) -> bool {
        &&& match &self.state {
            BuildingActionInternalState::Going(t) => t.wf(w, h),
            BuildingActionInternalState::Building => true,
        }
        &&& match &self.build_zone {
            Some(z) => z.wf(w, h),
            None => true,
        }
    }

    pub fn new(path: Vec<Pos>, map: &WorldMap, build_zone: BuildZone) -> (r: BuildingAction)
        requires
            map.wf(),
            path@.len() >= 1,
            forall|i: int| 0 <= i < path@.len() ==> map.in_bounds(#[trigger] path@[i]),
            build_zone.wf(map.width, map.height),
        ensures
            r.wf(map.width, map.height),
            r.build_zone == Some(build_zone),
            r.state matches BuildingActionInternalState::Going(t) && t.path@ == path@,
    {
        BuildingAction {
            state: BuildingActionInternalState::Going(TransitAction::new(path, map)),
            build_zone: Some(build_zone),
        }
    }

    /// Walks to the site, then builds; when the construction time is over the building is put
    /// on the map and into the world.
    pub fn continue_action(&mut self, world: &mut World, delta: u64) -> (r: BuildingActionResult)
        requires
            old(world).wf(),
            old(self).wf(old(world).map.width, old(world).map.height),
        ensures
            final(world).wf(),
            final(world).map.width == old(world).map.width,
            final(world).map.height == old(world).map.height,
            final(world).shops@.len() >= old(world).shops@.len(),
            shops_kept(old(world), final(world)),
            final(self).wf(final(world).map.width, final(world).map.height),
            r matches BuildingActionResult::InProgress(p) ==> in_grid(
                p,
                final(world).map.width,
                final(world).map.height,
            ),
            r == BuildingActionResult::Completed ==> old(self).state is Building,
            old(self).state is Building ==> (r == BuildingActionResult::Completed) == construction_done(
                &old(self).build_zone,
                delta,
            ),
            old(self).state is Building && construction_done(&old(self).build_zone, delta) ==> placed_from(
                old(world),
                final(world),
                &old(self).build_zone,
            ),
            old(self).state is Going ==> *final(world) == *old(world),
    {
        match &mut self.state {
            BuildingActionInternalState::Going(transit) => {
                let result = transit.continue_action(delta);
                match result {
                    TransitActionResult::InProgress(pos) => {
                        proof {
                            lemma_transit_in_grid(transit, pos, world.map.width, world.map.height);
                        }
                        BuildingActionResult::InProgress(pos)
                    },
                    TransitActionResult::Completed(pos) => {
                        proof {
                            lemma_transit_in_grid(transit, pos, world.map.width, world.map.height);
                        }
                        self.state = BuildingActionInternalState::Building;
                        BuildingActionResult::InProgress(pos)
                    },
                }
            },
            BuildingActionInternalState::Building => progres_build_action(
                world,
                &mut self.build_zone,
                delta,
            ),
        }
    }
}

/// Builds on; once done, the site's tiles become the building's and the building joins the
/// world.
fn progres_build_action(world: &mut World, maybe_build_zone: &mut Option<BuildZone>, delta: u64) -> (r:
    BuildingActionResult)
    requires
        old(world).wf(),
        *old(maybe_build_zone) matches Some(z) ==> z.wf(old(world).map.width, old(world).map.height),
    ensures
        final(world).wf(),
        final(world).map.width == old(world).map.width,
        final(world).map.height == old(world).map.height,
        final(world).shops@.len() >= old(world).shops@.len(),
        shops_kept(old(world), final(world)),
        *final(maybe_build_zone) matches Some(z) ==> z.wf(final(world).map.width, final(world).map.height),
        r matches BuildingActionResult::InProgress(p) ==> in_grid(
            p,
            final(world).map.width,
            final(world).map.height,
        ),
        (r == BuildingActionResult::Completed) == construction_done(&*old(maybe_build_zone), delta),
        r is InProgress ==> *final(world) == *old(world),
        construction_done(&*old(maybe_build_zone), delta) ==> placed_from(
            old(world),
            final(world),
            &*old(maybe_build_zone),
        ) && *final(maybe_build_zone) is None,
{
    match maybe_build_zone {
        None => {
            return BuildingActionResult::Completed;
        },
        Some(z) => {
            if let ActionResult::InProgress = z.progress.continue_action(delta) {
                return BuildingActionResult::InProgress(z.site.pos);
            }
        },
    }
    let mut taken: Option<BuildZone> = None;
    std::mem::swap(maybe_build_zone, &mut taken);
    match taken {
        None => BuildingActionResult::Completed,
        Some(z) => {
            let ghost w0 = *world;
            world.map.build(&z.site.pos, z.site.width, z.site.height, TileType::Structure(z.building));
            proof {
                assert forall|i: int| 0 <= i < world.build_zones@.len() implies (#[trigger] world.build_zones@[i]).wf(
                    world.map.width,
                    world.map.height,
                ) by {
                    assert(w0.build_zones@[i].wf(w0.map.width, w0.map.height));
                }
            }
            match make_building(z.building, z.site.pos) {
                Some(b) => {
                    let ghost s0 = world.shops@;
                    world.shops.push(b);
                    proof {
                        assert(in_grid(z.site.pos, world.map.width, world.map.height));
                        assert(b.wf(world.map.width, world.map.height));
                        assert forall|i: int| 0 <= i < world.shops@.len() implies (#[trigger] world.shops@[i]).wf(
                            world.map.width,
                            world.map.height,
                        ) by {
                            if i < s0.len() {
                                assert(world.shops@[i] == s0[i]);
                                assert(w0.shops@[i].wf(w0.map.width, w0.map.height));
                            }
                        }
                    }
                },
                None => {
                    proof {
                        assert forall|i: int| 0 <= i < world.shops@.len() implies (#[trigger] world.shops@[i]).wf(
                            world.map.width,
                            world.map.height,
                        ) by {
                            assert(w0.shops@[i].wf(w0.map.width, w0.map.height));
                        }
                    }
                },
            }
            BuildingActionResult::Completed
        },
    }
}

/// What a worker is doing, with the data of that action.
pub enum WorkerState {
    Idle,
    Supplying(TransitAction),
    Storing(TransitAction),
    Gathering(GatheringAction),
    Returning(TransitAction),
    TakingBreak(TakingBreakAction),
    Producing(BasicAction, ProducedReceipe),
    Lost(BasicAction),
    SupplyingBuildZone(TransitAction, BuildZone),
    Building(BuildingAction),
}

/// A worker: what every worker has, and its current state.
pub struct Worker {
    pub name: String,
    pub inventory: Inventory,
    pub pos: Pos,
    pub break_progress: BasicAction,
    pub exhausted: bool,
    pub state: WorkerState,
}

/// What a tick of a worker's action hands to its building.
pub enum WorkerActionResult {
    InProgress,
    /// The worker came home with these goods.
    BroughtToShop(Inventory),
    ProductionComplete(ProducedReceipe),
    /// The worker is idle and waits for a command.
    Idle,
}

impl Worker {
    pub open spec fn kind(&self) -> StateKind {
        match self.state {
            WorkerState::Idle => StateKind::Idle,
            WorkerState::Supplying(_) => StateKind::Supplying,
            WorkerState::Storing(_) => StateKind::Storing,
            WorkerState::Gathering(_) => StateKind::Gathering,
            WorkerState::Returning(_) => StateKind::Returning,
            WorkerState::TakingBreak(_) => StateKind::TakingBreak,
            WorkerState::Producing(_, _) => StateKind::Producing,
            WorkerState::Lost(_) => StateKind::Lost,
            WorkerState::SupplyingBuildZone(_, _) => StateKind::SupplyingBuildZone,
            WorkerState::Building(_) => StateKind::Building,
        }
    }

    pub open spec fn wf(&self, w: usize, h: usize) -> bool {
        &&& self.inventory.wf()
        &&& in_grid(self.pos, w, h)
        &&& match &self.state {
            WorkerState::Supplying(t) => t.wf(w, h),
            WorkerState::Storing(t) => t.wf(w, h),
            WorkerState::Returning(t) => t.wf(w, h),
            WorkerState::Gathering(g) => g.wf(w, h),
            WorkerState::TakingBreak(b) => b.wf(w, h),
            WorkerState::SupplyingBuildZone(t, z) => t.wf(w, h) && z.wf(w, h),
            WorkerState::Building(b) => b.wf(w, h),
            _ => true,
        }
    }

    /// An idle worker at `pos` that can carry `carry` units.
    pub fn new(name: String, pos: Pos, carry: u64) -> (r: Worker)
        ensures
            r.kind() == StateKind::Idle,
            r.pos == pos,
            r.inventory.total() == 0,
            r.inventory.limit == Some(carry),
            r.break_progress.progress == 0,
            r.break_progress.requirement == TIME_TO_BREAK,
            !r.exhausted,
            forall|w: usize, h: usize| in_grid(pos, w, h) ==> #[trigger] r.wf(w, h),
    {
        Worker {
            name,
            inventory: Inventory::limited(carry),
            pos,
            break_progress: BasicAction::new(TIME_TO_BREAK),
            exhausted: false,
            state: WorkerState::Idle,
        }
    }

    pub fn state_kind(&self) -> (r: StateKind)
        ensures
            r == self.kind(),
    {
        match self.state {
            WorkerState::Idle => StateKind::Idle,
            WorkerState::Supplying(_) => StateKind::Supplying,
            WorkerState::Storing(_) => StateKind::Storing,
            WorkerState::Gathering(_) => StateKind::Gathering,
            WorkerState::Returning(_) => StateKind::Returning,
            WorkerState::TakingBreak(_) => StateKind::TakingBreak,
            WorkerState::Producing(_, _) => StateKind::Producing,
            WorkerState::Lost(_) => StateKind::Lost,
            WorkerState::SupplyingBuildZone(_, _) => StateKind::SupplyingBuildZone,
            WorkerState::Building(_) => StateKind::Building,
        }
    }

    /// The same worker in another state.
    fn with_state(self, state: WorkerState) -> (r: Worker)
        ensures
            r.name == self.name,
            r.inventory == self.inventory,
            r.pos == self.pos,
            r.break_progress == self.break_progress,
            r.exhausted == self.exhausted,
            r.state == state,
    {
        let Worker { name, inventory, pos, break_progress, exhausted, state: _ } = self;
        Worker { name, inventory, pos, break_progress, exhausted, state }
    }

    /// Lost, to look for a way again after `RETRY_DELAY`.
    pub fn to_lost(self) -> (r: Worker)
        ensures
            r.kind() == StateKind::Lost,
            r.state matches WorkerState::Lost(t) && t.progress == 0 && t.requirement == RETRY_DELAY,
            r.name == self.name,
            r.inventory == self.inventory,
            r.pos == self.pos,
            r.break_progress == self.break_progress,
            r.exhausted == self.exhausted,
            forall|w: usize, h: usize| self.inventory.wf() && in_grid(self.pos, w, h) ==> #[trigger] r.wf(w, h),
    {
        self.with_state(WorkerState::Lost(BasicAction::new(RETRY_DELAY)))
    }

    /// Lost, with the wait already over: the next tick looks for a way at once.
    pub fn to_lost_with_immediate_retry(self) -> (r: Worker)
        ensures
            r.kind() == StateKind::Lost,
            r.state matches WorkerState::Lost(t) && t.progress == RETRY_DELAY && t.requirement
                == RETRY_DELAY,
            r.name == self.name,
            r.inventory == self.inventory,
            r.pos == self.pos,
            r.break_progress == self.break_progress,
            r.exhausted == self.exhausted,
            forall|w: usize, h: usize| self.inventory.wf() && in_grid(self.pos, w, h) ==> #[trigger] r.wf(w, h),
    {
        self.with_state(WorkerState::Lost(BasicAction { progress: RETRY_DELAY, requirement: RETRY_DELAY }))
    }

    /// Advances the time since the last break, until a break is due.
    fn progress_break_requirement(&mut self, delta: u64)
        ensures
            final(self).name == old(self).name,
            final(self).inventory == old(self).inventory,
            final(self).pos == old(self).pos,
            final(self).exhausted == old(self).exhausted,
            final(self).state == old(self).state,
            final(self).break_progress.requirement == old(self).break_progress.requirement,
    {
        if !self.break_progress.is_completed() {
            self.break_progress.continue_action(delta);
        }
    }

    /// Takes the goods out of the worker's hands.
    fn take_inventory(&mut self) -> (r: Inventory)
        requires
            old(self).inventory.wf(),
        ensures
            r == old(self).inventory,
            final(self).inventory.wf(),
            final(self).inventory.total() == 0,
            final(self).inventory.limit == old(self).inventory.limit,
            final(self).name == old(self).name,
            final(self).pos == old(self).pos,
            final(self).state == old(self).state,
            final(self).break_progress == old(self).break_progress,
            final(self).exhausted == old(self).exhausted,
    {
        let mut fresh = self.inventory.empty_like();
        std::mem::swap(&mut fresh, &mut self.inventory);
        fresh
    }

    /// Heads home to `home`, or gets lost where no path leads there.
    pub fn try_returning(self, map: &WorldMap, home: Pos) -> (r: Worker)
        requires
            map.wf(),
            self.wf(map.width, map.height),
        ensures
            r.wf(map.width, map.height),
            r.name == self.name,
            r.inventory == self.inventory,
            r.pos == self.pos,
            r.break_progress == self.break_progress,
            r.exhausted == self.exhausted,
            r.kind() == StateKind::Returning || r.kind() == StateKind::Lost,
            r.kind() == StateKind::Returning <==> reachable(map, self.pos, home),
            r.state matches WorkerState::Lost(t) ==> t.progress == 0 && t.requirement == RETRY_DELAY,
            r.state matches WorkerState::Returning(t) ==> t.destination() == home && valid_path(
                map,
                t.path@,
                self.pos,
                home,
            ) && t.progress == 0,
    {
        match a_star(map, self.pos, home) {
            Some(path) => {
                let t = TransitAction::new(path, map);
                self.with_state(WorkerState::Returning(t))
            },
            None => self.to_lost(),
        }
    }

    /// Heads for the closest store. Where none can be reached, an idle worker stays idle and
    /// a lost one stays lost, waiting anew.
    pub fn try_storing(self, world: &World) -> (r: Worker)
        requires
            world.wf(),
            self.wf(world.map.width, world.map.height),
            self.kind() == StateKind::Idle || self.kind() == StateKind::Lost,
        ensures
            r.wf(world.map.width, world.map.height),
            r.name == self.name,
            r.inventory == self.inventory,
            r.pos == self.pos,
            r.kind() == StateKind::Storing || (self.kind() == StateKind::Lost && r.kind()
                == StateKind::Lost) || (self.kind() != StateKind::Lost && r.kind() == self.kind()),
            r.kind() == StateKind::Storing <==> exists|i: int|
                0 <= i < world.shops@.len() && filter_accepts(&ShopFilter::Store, #[trigger] &world.shops@[i])
                    && reachable(&world.map, self.pos, world.shops@[i].building_base.pos),
            r.exhausted == self.exhausted,
            self.kind() == StateKind::Lost && r.kind() != StateKind::Storing ==> (r.state matches WorkerState::Lost(t)
                && t.progress == 0 && t.requirement == RETRY_DELAY),
    {
        match closest_shop(self.pos, world, &ShopFilter::Store) {
            Some((i, path)) => {
                assert(valid_path(&world.map, path@, self.pos, world.shops@[i as int].building_base.pos));
                assert(filter_accepts(&ShopFilter::Store, &world.shops@[i as int]));
                let t = TransitAction::new(path, &world.map);
                self.with_state(WorkerState::Storing(t))
            },
            None => {
                if self.state_kind() == StateKind::Lost {
                    self.to_lost()
                } else {
                    self
                }
            },
        }
    }

    /// Goes for a break: at the hearth it works in, on the spot; else to the closest hearth.
    /// Where none can be reached the worker is marked exhausted and stays idle, with the time to
    /// the next break starting over.
    fn try_take_break(self, world: &World, is_hearth: bool) -> (r: Worker)
        requires
            world.wf(),
            self.wf(world.map.width, world.map.height),
            self.kind() == StateKind::Idle,
        ensures
            r.wf(world.map.width, world.map.height),
            r.name == self.name,
            r.inventory == self.inventory,
            r.kind() == StateKind::TakingBreak || (r.kind() == self.kind() && r.exhausted
                && r.break_progress.progress == 0),
            r.pos == self.pos,
            is_hearth ==> r.kind() == StateKind::TakingBreak,
            !is_hearth ==> (r.kind() == StateKind::TakingBreak <==> exists|i: int|
                0 <= i < world.shops@.len() && filter_accepts(&ShopFilter::Hearth, #[trigger] &world.shops@[i])
                    && reachable(&world.map, self.pos, world.shops@[i].building_base.pos)),
    {
        if is_hearth {
            let pos = self.pos;
            let b = TakingBreakAction::new(vec![pos], &world.map);
            return self.with_state(WorkerState::TakingBreak(b));
        }
        match closest_shop(self.pos, world, &ShopFilter::Hearth) {
            Some((i, path)) => {
                assert(valid_path(&world.map, path@, self.pos, world.shops@[i as int].building_base.pos));
                assert(filter_accepts(&ShopFilter::Hearth, &world.shops@[i as int]));
                let b = TakingBreakAction::new(path, &world.map);
                self.with_state(WorkerState::TakingBreak(b))
            },
            None => {
                let mut me = self;
                me.break_progress.progress = 0;
                me.exhausted = true;
                me
            },
        }
    }

    /// Sets off along `path` with `amount` of `item`, already taken from where the path ends.
    pub fn to_supplying(self, path: Vec<Pos>, map: &WorldMap, item: InventoryItems, amount: u64) -> (r:
        Worker)
        requires
            map.wf(),
            self.wf(map.width, map.height),
            amount <= self.inventory.room(),
            path@.len() >= 1,
            forall|i: int| 0 <= i < path@.len() ==> map.in_bounds(#[trigger] path@[i]),
        ensures
            r.wf(map.width, map.height),
            r.kind() == StateKind::Supplying,
            r.name == self.name,
            r.pos == self.pos,
            r.inventory.count(item) == self.inventory.count(item) + amount,
            forall|x: InventoryItems| x != item ==> #[trigger] r.inventory.count(x) == self.inventory.count(x),
            r.inventory.limit == self.inventory.limit,
    {
        let mut me = self;
        me.inventory.add(&item, amount);
        let t = TransitAction::new(path, map);
        me.with_state(WorkerState::Supplying(t))
    }

    /// Sets off to gather at the end of `path`, claiming that resource.
    pub fn to_gathering(self, path: Vec<Pos>, map: &mut WorldMap) -> (r: Worker)
        requires
            old(map).wf(),
            self.wf(old(map).width, old(map).height),
            path@.len() >= 1,
            forall|i: int| 0 <= i < path@.len() ==> old(map).in_bounds(#[trigger] path@[i]),
        ensures
            final(map).wf(),
            final(map).width == old(map).width,
            final(map).height == old(map).height,
            r.wf(final(map).width, final(map).height),
            r.kind() == StateKind::Gathering,
            r.name == self.name,
            r.inventory == self.inventory,
            r.pos == self.pos,
            r.state matches WorkerState::Gathering(g) && g.target == path@.last() && claimed(
                old(map),
                final(map),
                path@.last(),
            ),
    {
        let g = GatheringAction::new(path, map);
        self.with_state(WorkerState::Gathering(g))
    }

    /// Starts making `receipe`.
    pub fn to_producing(self, receipe: ProducedReceipe) -> (r: Worker)
        ensures
            r.kind() == StateKind::Producing,
            r.name == self.name,
            r.inventory == self.inventory,
            r.pos == self.pos,
            forall|w: usize, h: usize| self.wf(w, h) ==> #[trigger] r.wf(w, h),
            r.state matches WorkerState::Producing(t, pr) && pr == receipe && t.progress == 0
                && t.requirement == receipe.time_requirement,
    {
        let t = BasicAction::new(receipe.time_requirement);
        self.with_state(WorkerState::Producing(t, receipe))
    }

    /// One tick of the worker's current action. `home` is where its building stands.
    pub fn continue_action(self, home: Pos, delta: u64, world: &mut World, is_hearth: bool) -> (r: (
        Worker,
        WorkerActionResult,
    ))
        requires
            old(world).wf(),
            self.wf(old(world).map.width, old(world).map.height),
        ensures
            final(world).wf(),
            final(world).map.width == old(world).map.width,
            final(world).map.height == old(world).map.height,
            final(world).shops@.len() >= old(world).shops@.len(),
            shops_kept(old(world), final(world)),
            r.0.wf(final(world).map.width, final(world).map.height),
            r.0.name == self.name,
            step_allowed(self.kind(), r.0.kind()),
            r.1 is Idle ==> self.kind() == StateKind::Idle && r.0.kind() == StateKind::Idle,
            r.1 matches WorkerActionResult::BroughtToShop(inv) ==> self.kind() == StateKind::Returning
                && r.0.kind() == StateKind::Idle && inv == self.inventory && inv.wf()
                && r.0.inventory.total() == 0,
            r.1 is ProductionComplete ==> self.kind() == StateKind::Producing && r.0.kind()
                == StateKind::Idle,
            self.state matches WorkerState::Lost(t) && sat_add(t.progress, delta) > t.requirement
                && self.inventory.total() == 0 ==> (r.0.kind() == StateKind::Returning <==> reachable(
                &old(world).map,
                self.pos,
                home,
            )),
            self.kind() == StateKind::Lost ==> r.0.pos == self.pos && r.0.inventory == self.inventory
                && r.0.exhausted == self.exhausted,
            self.kind() == StateKind::Returning ==> (trip_ends(&self, delta) <==> r.0.kind() == StateKind::Idle)
                && (trip_ends(&self, delta) ==> r.0.pos == trip_destination(&self)),
            self.kind() == StateKind::Supplying ==> r.0.inventory == self.inventory && (!trip_ends(&self, delta)
                ==> r.0.kind() == StateKind::Supplying) && (trip_ends(&self, delta) ==> r.0.pos
                == trip_destination(&self)),
            self.kind() == StateKind::Storing && !trip_ends(&self, delta) ==> r.0.kind() == StateKind::Storing
                && *final(world) == *old(world),
            self.kind() == StateKind::Storing && trip_ends(&self, delta) && !store_stands_at(old(world), trip_destination(&self))
                ==> r.0.kind() == StateKind::Lost && r.0.inventory == self.inventory && *final(world) == *old(world),
            self.kind() == StateKind::TakingBreak && r.0.kind() != StateKind::TakingBreak ==> r.0.break_progress.progress
                == 0 && !r.0.exhausted,
            r.1 is Idle ==> r.0.inventory == self.inventory,
            lost_waits(&self, &r.0, delta),
            self.state matches WorkerState::Lost(t) && sat_add(t.progress, delta) > t.requirement
                && r.0.kind() == StateKind::Lost ==> (r.0.state matches WorkerState::Lost(t2) && t2.progress == 0
                && t2.requirement == RETRY_DELAY),
            self.kind() == StateKind::TakingBreak ==> r.0.inventory == self.inventory && ((self.state matches WorkerState::TakingBreak(b)
                && break_over(&b, delta)) <==> r.0.kind() != StateKind::TakingBreak),
            ticked(old(world), final(world), &self, &r.0, &r.1, home, delta),
            harvest_into(&self, &r.0, old(world), delta),
    {
        match self.state_kind() {
            StateKind::Returning => self.handle_returning(delta, Ghost(world.map.width), Ghost(world.map.height)),
            StateKind::Storing => self.handle_storing(delta, world, home),
            StateKind::Supplying => self.handle_supplying(delta, world, home),
            StateKind::Gathering => self.handle_gathering(delta, world, home),
            StateKind::Producing => self.handle_producing(delta),
            StateKind::TakingBreak => self.handle_taking_break(delta, world, home),
            StateKind::Idle => self.handle_idle(delta, world, is_hearth),
            StateKind::Lost => self.handle_lost(delta, world, home),
            StateKind::SupplyingBuildZone => self.handle_supplying_build_zone(delta, world, home),
            StateKind::Building => self.handle_building(delta, world, home),
        }
    }

    fn handle_returning(self, delta: u64, w: Ghost<usize>, h: Ghost<usize>) -> (r: (Worker, WorkerActionResult))
        requires
            self.kind() == StateKind::Returning,
            self.wf(w@, h@),
        ensures
            r.0.wf(w@, h@),
            r.0.name == self.name,
            r.0.kind() == StateKind::Returning || r.0.kind() == StateKind::Idle,
            r.1 is InProgress || r.1 is BroughtToShop,
            r.1 matches WorkerActionResult::BroughtToShop(inv) ==> r.0.kind() == StateKind::Idle
                && inv == self.inventory && inv.wf() && r.0.inventory.total() == 0,
            r.1 is InProgress ==> r.0.kind() == StateKind::Returning,
            r.0.exhausted == self.exhausted,
            trip_ends(&self, delta) <==> r.0.kind() == StateKind::Idle,
            trip_ends(&self, delta) ==> r.0.pos == trip_destination(&self),
            !trip_ends(&self, delta) ==> r.0.inventory == self.inventory,
    {
        let mut me = self;
        me.progress_break_requirement(delta);
        let res = match &mut me.state {
            WorkerState::Returning(t) => {
                let r = t.continue_action(delta);
                proof {
                    match r {
                        TransitActionResult::InProgress(p) => lemma_transit_in_grid(t, p, w@, h@),
                        TransitActionResult::Completed(p) => lemma_transit_in_grid(t, p, w@, h@),
                    }
                }
                r
            },
            _ => TransitActionResult::InProgress(me.pos),
        };
        match res {
            TransitActionResult::InProgress(p) => {
                me.pos = p;
                (me, WorkerActionResult::InProgress)
            },
            TransitActionResult::Completed(p) => {
                me.pos = p;
                let carried = me.take_inventory();
                (me.with_state(WorkerState::Idle), WorkerActionResult::BroughtToShop(carried))
            },
        }
    }

    fn handle_storing(self, delta: u64, world: &mut World, home: Pos) -> (r: (Worker, WorkerActionResult))
        requires
            self.kind() == StateKind::Storing,
            old(world).wf(),
            self.wf(old(world).map.width, old(world).map.height),
        ensures
            final(world).wf(),
            final(world).map == old(world).map,
            final(world).shops@.len() == old(world).shops@.len(),
            shops_kept(old(world), final(world)),
            r.0.wf(final(world).map.width, final(world).map.height),
            r.0.name == self.name,
            r.0.kind() == StateKind::Storing || r.0.kind() == StateKind::Returning || r.0.kind()
                == StateKind::Lost,
            r.1 is InProgress,
            r.0.exhausted == self.exhausted,
            !trip_ends(&self, delta) ==> r.0.kind() == StateKind::Storing && *final(world) == *old(
                world,
            ) && r.0.inventory == self.inventory,
            trip_ends(&self, delta) ==> r.0.pos == trip_destination(&self),
            trip_ends(&self, delta) && !store_stands_at(old(world), trip_destination(&self)) ==> {
                &&& *final(world) == *old(world)
                &&& r.0.inventory == self.inventory
                &&& r.0.state matches WorkerState::Lost(t) && t.progress == RETRY_DELAY
                    && t.requirement == RETRY_DELAY
            },
            trip_ends(&self, delta) && store_stands_at(old(world), trip_destination(&self)) ==> {
                &&& exists|i: int|
                    0 <= i < old(world).shops@.len() && (#[trigger] old(world).shops@[i]).building_behaviour is Store
                        && old(world).shops@[i].building_base.pos == trip_destination(&self)
                        && (forall|x: InventoryItems|
                        #[trigger] final(world).stock(i, x) + r.0.inventory.count(x) == old(world).stock(i, x)
                            + self.inventory.count(x))
                        && (forall|x: InventoryItems| #[trigger] final(world).stock(i, x) >= old(world).stock(i, x))
                        && (self.inventory.total() + old(world).shops@[i].building_base.output.total() <= QUANTITY_CEILING
                        ==> r.0.inventory.total() == 0)
                        && (forall|k: int| 0 <= k < old(world).shops@.len() && k != i ==> #[trigger] final(world).shops@[k] == old(world).shops@[k])
                &&& (r.0.kind() == StateKind::Returning <==> reachable(&old(world).map, trip_destination(&self), home))
            },
    {
        let mut me = self;
        me.progress_break_requirement(delta);
        let res = match &mut me.state {
            WorkerState::Storing(t) => {
                let r = t.continue_action(delta);
                proof {
                    match r {
                        TransitActionResult::InProgress(p) => lemma_transit_in_grid(t, p, world.map.width, world.map.height),
                        TransitActionResult::Completed(p) => lemma_transit_in_grid(t, p, world.map.width, world.map.height),
                    }
                }
                r
            },
            _ => TransitActionResult::InProgress(me.pos),
        };
        match res {
            TransitActionResult::InProgress(p) => {
                me.pos = p;
                (me, WorkerActionResult::InProgress)
            },
            TransitActionResult::Completed(p) => {
                me.pos = p;
                match find_store_at(world, p) {
                    None => (me.to_lost_with_immediate_retry(), WorkerActionResult::InProgress),
                    Some(i) => {
                        let ghost s0 = world.shops@;
                        let mut store = world.shops.remove(i);
                        proof {
                            assert(s0[i as int].wf(world.map.width, world.map.height));
                        }
                        let ghost carried = me.inventory;
                        let ghost held = store.building_base.output;
                        me.inventory.move_all_into(&mut store.building_base.output);
                        proof {
                            assert forall|x: InventoryItems| #[trigger] store.building_base.output.count(x) >= held.count(x) by {
                                assert(me.inventory.count(x) <= carried.count(x));
                            }
                        }
                        world.shops.insert(i, store);
                        proof {
                            assert(world.shops@ =~= s0.update(i as int, store));
                            assert forall|k: int| 0 <= k < world.shops@.len() implies (
                            #[trigger] world.shops@[k]).wf(world.map.width, world.map.height) by {
                                if k != i {
                                    assert(world.shops@[k] == s0[k]);
                                }
                            }
                        }
                        (me.try_returning(&world.map, home), WorkerActionResult::InProgress)
                    },
                }
            },
        }
    }

    fn handle_supplying(self, delta: u64, world: &mut World, home: Pos) -> (r: (Worker, WorkerActionResult))
        requires
            self.kind() == StateKind::Supplying,
            old(world).wf(),
            self.wf(old(world).map.width, old(world).map.height),
        ensures
            *final(world) == *old(world),
            r.0.wf(final(world).map.width, final(world).map.height),
            r.0.name == self.name,
            r.0.kind() == StateKind::Supplying || r.0.kind() == StateKind::Returning || r.0.kind()
                == StateKind::Lost,
            r.1 is InProgress,
            r.0.inventory == self.inventory,
            r.0.exhausted == self.exhausted,
            !trip_ends(&self, delta) ==> r.0.kind() == StateKind::Supplying,
            trip_ends(&self, delta) ==> r.0.pos == trip_destination(&self) && (r.0.kind()
                == StateKind::Returning <==> reachable(&old(world).map, trip_destination(&self), home)),
    {
        let mut me = self;
        me.progress_break_requirement(delta);
        let res = match &mut me.state {
            WorkerState::Supplying(t) => {
                let r = t.continue_action(delta);
                proof {
                    match r {
                        TransitActionResult::InProgress(p) => lemma_transit_in_grid(t, p, world.map.width, world.map.height),
                        TransitActionResult::Completed(p) => lemma_transit_in_grid(t, p, world.map.width, world.map.height),
                    }
                }
                r
            },
            _ => TransitActionResult::InProgress(me.pos),
        };
        match res {
            TransitActionResult::InProgress(p) => {
                me.pos = p;
                (me, WorkerActionResult::InProgress)
            },
            TransitActionResult::Completed(p) => {
                me.pos = p;
                (me.try_returning(&world.map, home), WorkerActionResult::InProgress)
            },
        }
    }

    fn handle_gathering(self, delta: u64, world: &mut World, home: Pos) -> (r: (Worker, WorkerActionResult))
        requires
            self.kind() == StateKind::Gathering,
            old(world).wf(),
            self.wf(old(world).map.width, old(world).map.height),
        ensures
            final(world).wf(),
            final(world).map.width == old(world).map.width,
            final(world).map.height == old(world).map.height,
            final(world).shops == old(world).shops,
            r.0.wf(final(world).map.width, final(world).map.height),
            r.0.name == self.name,
            r.0.kind() == StateKind::Gathering || r.0.kind() == StateKind::Returning || r.0.kind()
                == StateKind::Lost,
            r.1 is InProgress,
            harvest_into(&self, &r.0, old(world), delta),
    {
        let mut me = self;
        me.progress_break_requirement(delta);
        let ghost w0 = *world;
        let res = match &mut me.state {
            WorkerState::Gathering(g) => g.continue_action(&mut world.map, delta),
            _ => GatheringActionResult::InProgress(me.pos),
        };
        proof {
            assert forall|i: int| 0 <= i < world.shops@.len() implies (#[trigger] world.shops@[i]).wf(
                world.map.width,
                world.map.height,
            ) by {
                assert(w0.shops@[i].wf(w0.map.width, w0.map.height));
            }
            assert forall|i: int| 0 <= i < world.build_zones@.len() implies (
            #[trigger] world.build_zones@[i]).wf(world.map.width, world.map.height) by {
                assert(w0.build_zones@[i].wf(w0.map.width, w0.map.height));
            }
        }
        match res {
            GatheringActionResult::InProgress(p) => {
                me.pos = p;
                (me, WorkerActionResult::InProgress)
            },
            GatheringActionResult::Completed(bundle) => {
                let ghost inv0 = me.inventory;
                me.inventory.add(&bundle.first.0, bundle.first.1);
                let ghost inv1 = me.inventory;
                me.inventory.add(&bundle.second.0, bundle.second.1);
                proof {
                    assert forall|x: InventoryItems| #[trigger] me.inventory.count(x) >= inv0.count(x) by {
                        assert(inv1.count(x) >= inv0.count(x));
                    }
                }
                (me.try_returning(&world.map, home), WorkerActionResult::InProgress)
            },
        }
    }

    fn handle_producing(self, delta: u64) -> (r: (Worker, WorkerActionResult))
        requires
            self.kind() == StateKind::Producing,
        ensures
            r.0.name == self.name,
            r.0.inventory == self.inventory,
            r.0.pos == self.pos,
            r.0.kind() == StateKind::Producing || r.0.kind() == StateKind::Idle,
            r.0.kind() == StateKind::Idle <==> r.1 is ProductionComplete,
            r.1 is InProgress || r.1 is ProductionComplete,
            forall|w: usize, h: usize| self.wf(w, h) ==> #[trigger] r.0.wf(w, h),
    {
        let mut me = self;
        me.progress_break_requirement(delta);
        let res = match &mut me.state {
            WorkerState::Producing(t, _) => t.continue_action(delta),
            _ => ActionResult::InProgress,
        };
        match res {
            ActionResult::InProgress => (me, WorkerActionResult::InProgress),
            ActionResult::Completed => {
                let mut done = WorkerState::Idle;
                std::mem::swap(&mut done, &mut me.state);
                match done {
                    WorkerState::Producing(_, receipe) => (
                        me,
                        WorkerActionResult::ProductionComplete(receipe),
                    ),
                    _ => (me, WorkerActionResult::InProgress),
                }
            },
        }
    }

    fn handle_taking_break(self, delta: u64, world: &mut World, home: Pos) -> (r: (Worker, WorkerActionResult))
        requires
            self.kind() == StateKind::TakingBreak,
            old(world).wf(),
            self.wf(old(world).map.width, old(world).map.height),
        ensures
            *final(world) == *old(world),
            r.0.wf(final(world).map.width, final(world).map.height),
            r.0.name == self.name,
            r.0.kind() == StateKind::TakingBreak || r.0.kind() == StateKind::Returning || r.0.kind()
                == StateKind::Lost,
            r.1 is InProgress,
            r.0.kind() != StateKind::TakingBreak ==> r.0.break_progress.progress == 0
                && !r.0.exhausted && r.0.pos == self.pos,
            r.0.inventory == self.inventory,
            self.state matches WorkerState::TakingBreak(b) && break_over(&b, delta) ==> r.0.kind()
                != StateKind::TakingBreak,
            !(self.state matches WorkerState::TakingBreak(b) && break_over(&b, delta)) ==> r.0.kind()
                == StateKind::TakingBreak,
    {
        let mut me = self;
        let res = match &mut me.state {
            WorkerState::TakingBreak(b) => {
                let ghost b0 = *b;
                let r = b.continue_action(delta);
                proof {
                    assert(b0.wf(world.map.width, world.map.height));
                    assert(b.wf(world.map.width, world.map.height));
                }
                r
            },
            _ => TakingBreakActionResult::InProgress(me.pos),
        };
        match res {
            TakingBreakActionResult::InProgress(p) => {
                me.pos = p;
                (me, WorkerActionResult::InProgress)
            },
            TakingBreakActionResult::Completed => {
                me.break_progress.progress = 0;
                me.exhausted = false;
                (me.try_returning(&world.map, home), WorkerActionResult::InProgress)
            },
        }
    }

    fn handle_idle(self, delta: u64, world: &mut World, is_hearth: bool) -> (r: (Worker, WorkerActionResult))
        requires
            self.kind() == StateKind::Idle,
            old(world).wf(),
            self.wf(old(world).map.width, old(world).map.height),
        ensures
            *final(world) == *old(world),
            r.0.wf(final(world).map.width, final(world).map.height),
            r.0.name == self.name,
            r.0.kind() == StateKind::Idle || r.0.kind() == StateKind::TakingBreak,
            r.1 is Idle || r.1 is InProgress,
            r.1 is Idle ==> r.0.kind() == StateKind::Idle,
            r.0.inventory == self.inventory,
    {
        let mut me = self;
        me.progress_break_requirement(delta);
        if me.break_progress.is_completed() {
            return (me.try_take_break(world, is_hearth), WorkerActionResult::InProgress);
        }
        (me, WorkerActionResult::Idle)
    }

    fn handle_lost(self, delta: u64, world: &mut World, home: Pos) -> (r: (Worker, WorkerActionResult))
        requires
            self.kind() == StateKind::Lost,
            old(world).wf(),
            self.wf(old(world).map.width, old(world).map.height),
        ensures
            *final(world) == *old(world),
            r.0.wf(final(world).map.width, final(world).map.height),
            r.0.name == self.name,
            r.0.kind() == StateKind::Lost || r.0.kind() == StateKind::Returning || r.0.kind()
                == StateKind::Storing,
            r.1 is InProgress,
            self.state matches WorkerState::Lost(t) && sat_add(t.progress, delta) > t.requirement
                && self.inventory.total() == 0 ==> (r.0.kind() == StateKind::Returning <==> reachable(
                &old(world).map,
                self.pos,
                home,
            )),
            r.0.pos == self.pos,
            r.0.inventory == self.inventory,
            r.0.exhausted == self.exhausted,
            self.state matches WorkerState::Lost(t) && sat_add(t.progress, delta) <= t.requirement
                ==> r.0.kind() == StateKind::Lost,
            self.state matches WorkerState::Lost(t) && sat_add(t.progress, delta) > t.requirement
                && self.inventory.total() > 0 ==> (r.0.kind() == StateKind::Storing <==> exists|i: int|
                0 <= i < old(world).shops@.len() && filter_accepts(&ShopFilter::Store, #[trigger] &old(world).shops@[i])
                    && reachable(&old(world).map, self.pos, old(world).shops@[i].building_base.pos)),
            lost_waits(&self, &r.0, delta),
            self.state matches WorkerState::Lost(t) && sat_add(t.progress, delta) > t.requirement
                && r.0.kind() == StateKind::Lost ==> (r.0.state matches WorkerState::Lost(t2) && t2.progress == 0
                && t2.requirement == RETRY_DELAY),
    {
        let mut me = self;
        me.progress_break_requirement(delta);
        let res = match &mut me.state {
            WorkerState::Lost(t) => t.continue_action(delta),
            _ => ActionResult::InProgress,
        };
        match res {
            ActionResult::InProgress => (me, WorkerActionResult::InProgress),
            ActionResult::Completed => {
                if me.inventory.is_empty() {
                    (me.try_returning(&world.map, home), WorkerActionResult::InProgress)
                } else {
                    (me.try_storing(world), WorkerActionResult::InProgress)
                }
            },
        }
    }

    fn handle_supplying_build_zone(self, delta: u64, world: &mut World, home: Pos) -> (r: (
        Worker,
        WorkerActionResult,
    ))
        requires
            self.kind() == StateKind::SupplyingBuildZone,
            old(world).wf(),
            self.wf(old(world).map.width, old(world).map.height),
        ensures
            final(world).wf(),
            final(world).map == old(world).map,
            final(world).shops == old(world).shops,
            r.0.wf(final(world).map.width, final(world).map.height),
            r.0.name == self.name,
            r.0.kind() == StateKind::SupplyingBuildZone || r.0.kind() == StateKind::Returning
                || r.0.kind() == StateKind::Lost,
            r.1 is InProgress,
    {
        let mut me = self;
        me.progress_break_requirement(delta);
        let res = match &mut me.state {
            WorkerState::SupplyingBuildZone(t, _) => {
                let r = t.continue_action(delta);
                proof {
                    match r {
                        TransitActionResult::InProgress(p) => lemma_transit_in_grid(t, p, world.map.width, world.map.height),
                        TransitActionResult::Completed(p) => lemma_transit_in_grid(t, p, world.map.width, world.map.height),
                    }
                }
                r
            },
            _ => TransitActionResult::InProgress(me.pos),
        };
        match res {
            TransitActionResult::InProgress(p) => {
                me.pos = p;
                (me, WorkerActionResult::InProgress)
            },
            TransitActionResult::Completed(p) => {
                me.pos = p;
                let mut done = WorkerState::Idle;
                std::mem::swap(&mut done, &mut me.state);
                match done {
                    WorkerState::SupplyingBuildZone(_, zone) => {
                        let mut zone = zone;
                        me.inventory.move_all_into(&mut zone.materials_delivered);
                        let ghost z0 = world.build_zones@;
                        world.build_zones.push(zone);
                        proof {
                            assert forall|i: int| 0 <= i < world.build_zones@.len() implies (
                            #[trigger] world.build_zones@[i]).wf(world.map.width, world.map.height) by {
                                if i < z0.len() {
                                    assert(world.build_zones@[i] == z0[i]);
                                }
                            }
                        }
                        (me.try_returning(&world.map, home), WorkerActionResult::InProgress)
                    },
                    _ => (me.try_returning(&world.map, home), WorkerActionResult::InProgress),
                }
            },
        }
    }

    fn handle_building(self, delta: u64, world: &mut World, home: Pos) -> (r: (Worker, WorkerActionResult))
        requires
            self.kind() == StateKind::Building,
            old(world).wf(),
            self.wf(old(world).map.width, old(world).map.height),
        ensures
            final(world).wf(),
            final(world).map.width == old(world).map.width,
            final(world).map.height == old(world).map.height,
            final(world).shops@.len() >= old(world).shops@.len(),
            shops_kept(old(world), final(world)),
            r.0.wf(final(world).map.width, final(world).map.height),
            r.0.name == self.name,
            r.0.kind() == StateKind::Building || r.0.kind() == StateKind::Returning || r.0.kind()
                == StateKind::Lost,
            r.1 is InProgress,
    {
        let mut me = self;
        me.progress_break_requirement(delta);
        let res = match &mut me.state {
            WorkerState::Building(b) => b.continue_action(world, delta),
            _ => BuildingActionResult::InProgress(me.pos),
        };
        match res {
            BuildingActionResult::InProgress(p) => {
                me.pos = p;
                (me, WorkerActionResult::InProgress)
            },
            BuildingActionResult::Completed => {
                (me.try_returning(&world.map, home), WorkerActionResult::InProgress)
            },
        }
    }

    /// Sets off to build the site at the end of `path`.
    pub fn to_building(self, map: &WorldMap, path: Vec<Pos>, build_zone: BuildZone) -> (r: Worker)
        requires
            map.wf(),
            self.wf(map.width, map.height),
            build_zone.wf(map.width, map.height),
            path@.len() >= 1,
            forall|i: int| 0 <= i < path@.len() ==> map.in_bounds(#[trigger] path@[i]),
        ensures
            r.wf(map.width, map.height),
            r.kind() == StateKind::Building,
            r.name == self.name,
            r.inventory == self.inventory,
            r.pos == self.pos,
            r.state matches WorkerState::Building(b) && b.build_zone == Some(build_zone) && (b.state matches BuildingActionInternalState::Going(t)
                && t.path@ == path@),
    {
        let b = BuildingAction::new(path, map, build_zone);
        self.with_state(WorkerState::Building(b))
    }

    /// Sets off along `path` (to a store, then to the site) carrying materials for the site.
    pub fn to_supplying_build_zone(self, map: &WorldMap, path: Vec<Pos>, build_zone: BuildZone) -> (r:
        Worker)
        requires
            map.wf(),
            self.wf(map.width, map.height),
            build_zone.wf(map.width, map.height),
            path@.len() >= 1,
            forall|i: int| 0 <= i < path@.len() ==> map.in_bounds(#[trigger] path@[i]),
        ensures
            r.wf(map.width, map.height),
            r.kind() == StateKind::SupplyingBuildZone,
            r.name == self.name,
            r.inventory == self.inventory,
            r.pos == self.pos,
            r.state matches WorkerState::SupplyingBuildZone(t, z) && z == build_zone && t.path@ == path@,
    {
        let t = TransitAction::new(path, map);
        self.with_state(WorkerState::SupplyingBuildZone(t, build_zone))
    }

    /// One tick of a worker that belongs to no building: it acts as any worker would, and
    /// when idle it is given construction work.
    pub fn process_unassigned_worker(self, assigned_hearth_pos: Pos, world: &mut World, delta: u64) -> (r:
        Worker)
        requires
            old(world).wf(),
            self.wf(old(world).map.width, old(world).map.height),
            in_grid(assigned_hearth_pos, old(world).map.width, old(world).map.height),
        ensures
            final(world).wf(),
            final(world).map.width == old(world).map.width,
            final(world).map.height == old(world).map.height,
            final(world).shops@.len() >= old(world).shops@.len(),
            shops_kept(old(world), final(world)),
            r.wf(final(world).map.width, final(world).map.height),
            r.name == self.name,
            exists|wm: World, am: Worker, res: WorkerActionResult|
                #[trigger] ticked(old(world), &wm, &self, &am, &res, assigned_hearth_pos, delta)
                    && unassigned_after(&wm, final(world), &am, &r, &res),
    {
        let ghost w0 = *world;
        let ghost a0 = self;
        let (worker, result) = self.continue_action(assigned_hearth_pos, delta, world, true);
        let ghost wm = *world;
        let ghost am = worker;
        let ghost res = result;
        let r = after_unassigned(worker, result, world);
        proof {
            assert(ticked(&w0, &wm, &a0, &am, &res, assigned_hearth_pos, delta));
        }
        r
    }
}

/// What `after_unassigned` does: an idle worker is scheduled when sites wait; anything else
/// is left as it was.
pub open spec fn unassigned_after(w0: &World, w1: &World, a0: &Worker, a1: &Worker, res: &WorkerActionResult) -> bool {
    &&& (!(res is Idle) || w0.build_zones@.len() == 0 ==> *a1 == *a0 && *w1 == *w0)
    &&& (res is Idle && w0.build_zones@.len() > 0 ==> scheduled(w0, w1, a0, a1))
}

/// What happens after the tick of a worker of no building: an idle one is given construction
/// work as `schedule_new_work` does; any other is left as its tick left it.
pub fn after_unassigned(worker: Worker, result: WorkerActionResult, world: &mut World) -> (r: Worker)
    requires
        old(world).wf(),
        worker.wf(old(world).map.width, old(world).map.height),
        result is Idle ==> worker.kind() == StateKind::Idle,
    ensures
        final(world).wf(),
        final(world).map == old(world).map,
        final(world).shops@.len() == old(world).shops@.len(),
        shops_kept(old(world), final(world)),
        r.wf(final(world).map.width, final(world).map.height),
        r.name == worker.name,
        !(result is Idle) || old(world).build_zones@.len() == 0 ==> r == worker && *final(world) == *old(world),
        result is Idle && old(world).build_zones@.len() > 0 ==> scheduled(old(world), final(world), &worker, &r),
        unassigned_after(old(world), final(world), &worker, &r, &result),
{
    match result {
        WorkerActionResult::Idle => schedule_new_work(worker, world),
        _ => worker,
    }
}

/// Hands an idle worker of no building the first waiting construction site: to build it if
/// all materials are there and it can be reached; else to bring it what the closest store
/// holds of the missing materials. A site that gets no worker goes to the back of the queue.
pub fn schedule_new_work(worker: Worker, world: &mut World) -> (r: Worker)
    requires
        old(world).wf(),
        worker.wf(old(world).map.width, old(world).map.height),
        worker.kind() == StateKind::Idle,
    ensures
        final(world).wf(),
        final(world).map == old(world).map,
        final(world).shops@.len() == old(world).shops@.len(),
        shops_kept(old(world), final(world)),
        r.wf(final(world).map.width, final(world).map.height),
        r.name == worker.name,
        r.kind() == StateKind::Idle || r.kind() == StateKind::Building || r.kind()
            == StateKind::SupplyingBuildZone,
        old(world).build_zones@.len() == 0 ==> r.kind() == StateKind::Idle && *final(world) == *old(world),
        old(world).build_zones@.len() > 0 ==> final(world).build_zones@.len() + (if r.kind()
            == StateKind::Idle {
            0int
        } else {
            1int
        }) == old(world).build_zones@.len(),
        r.kind() == StateKind::Idle ==> r == worker,
        old(world).build_zones@.len() > 0 ==> scheduled(old(world), final(world), &worker, &r),
{
    if world.build_zones.len() == 0 {
        return worker;
    }
    let ghost z0 = world.build_zones@;
    let build_zone = world.build_zones.remove(0);
    proof {
        assert(z0[0].wf(world.map.width, world.map.height));
        assert forall|i: int| 0 <= i < world.build_zones@.len() implies (#[trigger] world.build_zones@[i]).wf(
            world.map.width,
            world.map.height,
        ) by {
            assert(world.build_zones@[i] == z0[i + 1]);
        }
    }
    let ghost rest = world.build_zones@;
    let site = build_zone.site.pos;
    if build_zone.is_delivery_complete() {
        match a_star(&world.map, worker.pos, site) {
            Some(path) => {
                return worker.to_building(&world.map, path, build_zone);
            },
            None => {},
        }
    }
    let ghost wz = *world;
    let r = fetch_or_requeue(worker, world, build_zone);
    proof {
        assert(rest =~= z0.subrange(1, z0.len() as int));
        assert(fetched_or_requeued(&wz, world, &worker, &r, &z0[0]));
    }
    r
}

/// A store that can supply a construction site: it holds a unit of something still missing.
pub open spec fn supplies_zone(b: &Building, z: &BuildZone) -> bool {
    b.building_behaviour is Store && holds_one_of(
        &b.building_base.output,
        missing_materials(z.materials_required@, &z.materials_delivered),
    )
}

/// Store `i` of `w` can supply `z` and the worker `a` can reach it.
pub open spec fn open_store(w: &World, a: &Worker, z: &BuildZone, i: int) -> bool {
    0 <= i < w.shops@.len() && supplies_zone(&w.shops@[i], z) && reachable(
        &w.map,
        a.pos,
        w.shops@[i].building_base.pos,
    )
}

/// The worker fetched what `z` misses from store `i`: the store lost what the worker gained,
/// no more of each item than is missing, and no other building changed.
pub open spec fn fetched_from(w0: &World, w1: &World, a0: &Worker, a1: &Worker, z: &BuildZone, i: int) -> bool {
    &&& open_store(w0, a0, z, i)
    &&& reachable(&w0.map, w0.shops@[i].building_base.pos, z.site.pos)
    &&& forall|x: InventoryItems|
        #[trigger] w1.stock(i, x) + a1.inventory.count(x) == w0.stock(i, x) + a0.inventory.count(x)
    &&& forall|x: InventoryItems|
        0 <= #[trigger] gained(&a0.inventory, &a1.inventory, x) <= bundle_count(
            missing_materials(z.materials_required@, &z.materials_delivered),
            x,
        )
    &&& forall|k: int| 0 <= k < w0.shops@.len() && k != i ==> #[trigger] w1.shops@[k] == w0.shops@[k]
    &&& a0.inventory.total() <= a0.inventory.capacity() ==> a1.inventory.total() <= a1.inventory.capacity()
    &&& a1.state matches WorkerState::SupplyingBuildZone(t, z1) && z1 == *z && exists|p1: Seq<Pos>, p2: Seq<Pos>|
        valid_path(&w0.map, p1, a0.pos, w0.shops@[i].building_base.pos) && valid_path(
            &w0.map,
            p2,
            w0.shops@[i].building_base.pos,
            z.site.pos,
        ) && #[trigger] (p1.drop_last() + p2) == t.path@
}

/// Sending a worker to fetch for `z`, or putting `z` back: see `scheduled`.
pub open spec fn fetched_or_requeued(w0: &World, w1: &World, a0: &Worker, a1: &Worker, z: &BuildZone) -> bool {
    &&& a1.kind() == StateKind::SupplyingBuildZone || a1.kind() == StateKind::Idle
    &&& (exists|i: int| #[trigger] open_store(w0, a0, z, i)) && (forall|i: int|
        #[trigger] open_store(w0, a0, z, i) ==> reachable(&w0.map, w0.shops@[i].building_base.pos, z.site.pos))
        ==> a1.kind() == StateKind::SupplyingBuildZone
    &&& a1.kind() == StateKind::SupplyingBuildZone ==> w1.build_zones@ == w0.build_zones@
        && exists|i: int| #[trigger] fetched_from(w0, w1, a0, a1, z, i)
    &&& a1.kind() == StateKind::Idle ==> *a1 == *a0 && w1.build_zones@ == w0.build_zones@.push(*z)
        && w1.shops == w0.shops && ((forall|i: int| !#[trigger] open_store(w0, a0, z, i)) || exists|i: int|
        #[trigger] open_store(w0, a0, z, i) && !reachable(&w0.map, w0.shops@[i].building_base.pos, z.site.pos))
}

/// What scheduling an idle worker of no building does with the first waiting site `z`: it
/// builds `z` when everything is there and the site can be reached; else it fetches what is
/// missing from the closest reachable store that has some of it, where the site can be
/// reached from there; else the worker stays as it was and `z` goes to the back of the queue.
pub open spec fn scheduled(w0: &World, w1: &World, a0: &Worker, a1: &Worker) -> bool {
    let zs = w0.build_zones@;
    let z = zs[0];
    let rest = zs.subrange(1, zs.len() as int);
    let can_build = delivery_complete(&z) && reachable(&w0.map, a0.pos, z.site.pos);
    &&& (a1.kind() == StateKind::Building <==> can_build)
    &&& a1.kind() == StateKind::Building ==> w1.build_zones@ == rest && w1.shops == w0.shops
        && a1.inventory == a0.inventory && (a1.state matches WorkerState::Building(b) && b.build_zone
        == Some(z) && (b.state matches BuildingActionInternalState::Going(t) && valid_path(
        &w0.map,
        t.path@,
        a0.pos,
        z.site.pos,
    )))
    &&& !can_build ==> (a1.kind() == StateKind::SupplyingBuildZone ==> w1.build_zones@ == rest)
        && (a1.kind() == StateKind::Idle ==> w1.build_zones@ == rest.push(z))
        && fetched_or_requeued_on(w0, w1, a0, a1, &z, rest)
}

/// `fetched_or_requeued` over the world `w0` with `z` already taken off its queue.
pub open spec fn fetched_or_requeued_on(
    w0: &World,
    w1: &World,
    a0: &Worker,
    a1: &Worker,
    z: &BuildZone,
    rest: Seq<BuildZone>,
) -> bool {
    exists|wz: World|
        wz.map == w0.map && wz.shops == w0.shops && wz.build_zones@ == rest && #[trigger] fetched_or_requeued(
            &wz,
            w1,
            a0,
            a1,
            z,
        )
}

/// Fetches what `z` misses from the closest reachable store holding some of it, with the site
/// reachable from there; else puts `z` at the back of the queue and leaves the worker idle.
#[verifier::rlimit(100)]
#[verifier::spinoff_prover]
fn fetch_or_requeue(worker: Worker, world: &mut World, build_zone: BuildZone) -> (r: Worker)
    requires
        old(world).wf(),
        worker.wf(old(world).map.width, old(world).map.height),
        worker.kind() == StateKind::Idle,
        build_zone.wf(old(world).map.width, old(world).map.height),
    ensures
        final(world).wf(),
        final(world).map == old(world).map,
        final(world).shops@.len() == old(world).shops@.len(),
        shops_kept(old(world), final(world)),
        r.wf(final(world).map.width, final(world).map.height),
        r.name == worker.name,
        fetched_or_requeued(old(world), final(world), &worker, &r, &build_zone),
{
    let site = build_zone.site.pos;
    let missing = missing_of(&build_zone);
    let ghost missing_view = missing@;
    let filter = ShopFilter::StoreWithAnyOf(missing);
    let ghost w0 = *world;
    proof {
        assert forall|i: int| 0 <= i < w0.shops@.len() implies filter_accepts(&filter, &w0.shops@[i])
            == supplies_zone(&w0.shops@[i], &build_zone) by {}
    }
    let (store_idx, path_to_store) = match closest_shop(worker.pos, world, &filter) {
        Some(found) => found,
        None => {
            proof {
                assert forall|i: int| !#[trigger] open_store(&w0, &worker, &build_zone, i) by {
                    if 0 <= i < w0.shops@.len() && supplies_zone(&w0.shops@[i], &build_zone) {
                        assert(filter_accepts(&filter, &w0.shops@[i]));
                    }
                }
            }
            requeue(world, build_zone);
            return worker;
        },
    };
    proof {
        assert(open_store(&w0, &worker, &build_zone, store_idx as int));
    }
    let store_pos = world.shops[store_idx].building_base.pos;
    let path_on = match a_star(&world.map, store_pos, site) {
        Some(p) => p,
        None => {
            requeue(world, build_zone);
            return worker;
        },
    };
    let ghost p_to_store = path_to_store@;
    let total_path = combine_path(path_to_store, path_on);
    let mut worker2 = worker;
    let ghost s0 = world.shops@;
    let mut store = world.shops.remove(store_idx);
    proof {
        assert(s0[store_idx as int].wf(world.map.width, world.map.height));
    }
    let wanted = missing_of(&build_zone);
    take_as_much_as_possible(&mut store.building_base.output, &mut worker2.inventory, &wanted);
    world.shops.insert(store_idx, store);
    proof {
        assert(world.shops@ =~= s0.update(store_idx as int, store));
        assert forall|k: int| 0 <= k < world.shops@.len() implies (#[trigger] world.shops@[k]).wf(
            world.map.width,
            world.map.height,
        ) by {
            if k != store_idx {
                assert(world.shops@[k] == s0[k]);
            }
        }
        let tp = total_path@;
        assert forall|i: int| 0 <= i < tp.len() implies world.map.in_bounds(#[trigger] tp[i]) by {
            assert(tp =~= path_to_store@.drop_last() + path_on@);
            if i < path_to_store@.len() - 1 {
                assert(tp[i] == path_to_store@[i]);
            } else {
                assert(tp[i] == path_on@[i - (path_to_store@.len() - 1)]);
            }
        }
    }
    let r = worker2.to_supplying_build_zone(&world.map, total_path, build_zone);
    proof {
        assert(valid_path(&w0.map, path_on@, store_pos, site));
        assert(valid_path(&w0.map, p_to_store, worker.pos, store_pos));
        assert((p_to_store.drop_last() + path_on@) == total_path@);
        assert(fetched_from(&w0, world, &worker, &r, &build_zone, store_idx as int)) by {
            assert forall|k: int| 0 <= k < w0.shops@.len() && k != store_idx implies #[trigger] world.shops@[k] == w0.shops@[k] by {
                assert(world.shops@[k] == s0[k]);
            }
        }
    }
    r
}

fn requeue(world: &mut World, build_zone: BuildZone)
    requires
        old(world).wf(),
        build_zone.wf(old(world).map.width, old(world).map.height),
    ensures
        final(world).wf(),
        final(world).map == old(world).map,
        final(world).shops == old(world).shops,
        final(world).build_zones@ == old(world).build_zones@.push(build_zone),
{
    let ghost z0 = world.build_zones@;
    world.build_zones.push(build_zone);
    proof {
        assert forall|i: int| 0 <= i < world.build_zones@.len() implies (#[trigger] world.build_zones@[i]).wf(
            world.map.width,
            world.map.height,
        ) by {
            if i < z0.len() {
                assert(world.build_zones@[i] == z0[i]);
            }
        }
    }
}

/// What the worker gained of `x`.
pub open spec fn gained(w0: &Inventory, w1: &Inventory, x: InventoryItems) -> int {
    w1.count(x) - w0.count(x)
}

/// Moves from the store to the worker as much of each listed material as the list asks for,
/// the store holds and the worker's capacity still allows, in list order. So for a list of
/// distinct items, the worker gains `min(request, stock)` of each until its capacity runs out.
pub fn take_as_much_as_possible(
    store_inv: &mut Inventory,
    worker_inv: &mut Inventory,
    materials: &Vec<(InventoryItems, u64)>,
)
    requires
        old(store_inv).wf(),
        old(worker_inv).wf(),
    ensures
        final(store_inv).wf(),
        final(worker_inv).wf(),
        final(store_inv).limit == old(store_inv).limit,
        final(worker_inv).limit == old(worker_inv).limit,
        forall|x: InventoryItems|
            #[trigger] final(store_inv).count(x) + final(worker_inv).count(x) == old(store_inv).count(x)
                + old(worker_inv).count(x),
        forall|x: InventoryItems| #[trigger] final(store_inv).count(x) <= old(store_inv).count(x),
        forall|x: InventoryItems|
            0 <= #[trigger] gained(old(worker_inv), final(worker_inv), x) <= bundle_count(materials@, x),
        final(worker_inv).room() == 0 || forall|k: int|
            0 <= k < materials@.len() ==> gained(
                old(worker_inv),
                final(worker_inv),
                (#[trigger] materials@[k]).0,
            ) >= min_nat(materials@[k].1 as nat, old(store_inv).count(materials@[k].0)),
        old(worker_inv).total() <= old(worker_inv).capacity() ==> final(worker_inv).total()
            <= final(worker_inv).capacity(),
{
    let mut k: usize = 0;
    while k < materials.len()
        invariant
            store_inv.wf(),
            worker_inv.wf(),
            store_inv.limit == old(store_inv).limit,
            worker_inv.limit == old(worker_inv).limit,
            k <= materials@.len(),
            forall|x: InventoryItems|
                #[trigger] store_inv.count(x) + worker_inv.count(x) == old(store_inv).count(x) + old(
                    worker_inv,
                ).count(x),
            forall|x: InventoryItems| #[trigger] store_inv.count(x) <= old(store_inv).count(x),
            forall|x: InventoryItems|
                0 <= #[trigger] gained(old(worker_inv), worker_inv, x) <= bundle_count(
                    materials@.take(k as int),
                    x,
                ),
            worker_inv.room() == 0 || forall|j: int|
                0 <= j < k ==> gained(old(worker_inv), worker_inv, (#[trigger] materials@[j]).0)
                    >= min_nat(materials@[j].1 as nat, old(store_inv).count(materials@[j].0)),
            old(worker_inv).total() <= old(worker_inv).capacity() ==> worker_inv.total()
                <= worker_inv.capacity(),
        decreases materials@.len() - k,
    {
        let (item, requested) = materials[k];
        proof {
            assert forall|x: InventoryItems| true implies bundle_count(materials@.take(k as int + 1), x)
                == bundle_count(materials@.take(k as int), x) + if materials@[k as int].0 == x {
                materials@[k as int].1 as nat
            } else {
                0nat
            } by {
                crate::inventory::lemma_bundle_take(materials@, k as int, x);
            }
        }
        let room = worker_inv.room_left();
        let have = store_inv.get(&item);
        let mut amount = requested;
        if have < amount {
            amount = have;
        }
        if room < amount {
            amount = room;
        }
        let ghost s0 = *store_inv;
        let ghost w0 = *worker_inv;
        if amount > 0 {
            store_inv.remove(&item, amount);
            worker_inv.add(&item, amount);
        }
        proof {
            assert forall|x: InventoryItems|
                #[trigger] store_inv.count(x) + worker_inv.count(x) == old(store_inv).count(x)
                    + old(worker_inv).count(x) by {
                assert(s0.count(x) + w0.count(x) == old(store_inv).count(x) + old(worker_inv).count(x));
            }
            assert forall|x: InventoryItems| #[trigger] store_inv.count(x) <= old(store_inv).count(x) by {
                assert(s0.count(x) <= old(store_inv).count(x));
            }
            assert forall|x: InventoryItems|
                0 <= #[trigger] gained(old(worker_inv), worker_inv, x) <= bundle_count(
                    materials@.take(k as int + 1),
                    x,
                ) by {
                assert(0 <= gained(old(worker_inv), &w0, x) <= bundle_count(materials@.take(k as int), x));
            }
            if worker_inv.room() != 0 {
                assert(amount < room || amount == 0 || room > amount);
                assert(w0.room() != 0);
                assert forall|j: int|
                    0 <= j < k + 1 implies gained(old(worker_inv), worker_inv, (#[trigger] materials@[j]).0)
                    >= min_nat(materials@[j].1 as nat, old(store_inv).count(materials@[j].0)) by {
                    let y = materials@[j].0;
                    assert(gained(old(worker_inv), worker_inv, y) >= gained(old(worker_inv), &w0, y));
                    if j == k {
                        assert(s0.count(item) == old(store_inv).count(item) - gained(old(worker_inv), &w0, item));
                    }
                }
            }
        }
        k = k + 1;
    }
    assert(materials@.take(k as int) =~= materials@);
}

/// The part of each requirement that has not been delivered yet, for those not yet met.
pub open spec fn missing_materials(required: Seq<(InventoryItems, u64)>, delivered: &Inventory) -> Seq<(InventoryItems, u64)>
    decreases required.len(),
{
    if required.len() == 0 {
        Seq::empty()
    } else {
        let rest = missing_materials(required.drop_last(), delivered);
        let (item, amount) = required.last();
        if delivered.count(item) < amount {
            rest.push((item, (amount - delivered.count(item)) as u64))
        } else {
            rest
        }
    }
}

fn missing_of(zone: &BuildZone) -> (r: Vec<(InventoryItems, u64)>)
    requires
        zone.materials_delivered.wf(),
    ensures
        r@ == missing_materials(zone.materials_required@, &zone.materials_delivered),
{
    let mut r: Vec<(InventoryItems, u64)> = Vec::new();
    let mut k: usize = 0;
    while k < zone.materials_required.len()
        invariant
            zone.materials_delivered.wf(),
            k <= zone.materials_required@.len(),
            r@ == missing_materials(zone.materials_required@.take(k as int), &zone.materials_delivered),
        decreases zone.materials_required@.len() - k,
    {
        let (item, amount) = zone.materials_required[k];
        let have = zone.materials_delivered.get(&item);
        proof {
            assert(zone.materials_required@.take(k as int + 1).drop_last() =~= zone.materials_required@.take(k as int));
        }
        if have < amount {
            r.push((item, amount - have));
        }
        k = k + 1;
    }
    assert(zone.materials_required@.take(k as int) =~= zone.materials_required@);
    r
}

} // verus!
