use vstd::prelude::*;

use crate::actions::{ActionResult, BasicAction};
use crate::config::{
    BuildingBehaviourDiscriminants, Buildings, ProducedReceipe, Receipe,
};
use crate::inventory::{bundle_count, min_nat, received, Inventory, QUANTITY_CEILING};
use crate::items::InventoryItems;
use crate::math::{in_grid, Pos};
use crate::pathfinding::{dijkstra_closest, leads_to_match, query_matches, reachable, TileQuery};
use crate::world_map::TileType;
use crate::worker::{claimed, ticked, trip_ends, StateKind, Worker, WorkerActionResult, WorkerState};
use crate::world::{closest_shop, filter_accepts, holds_some, shops_kept, ShopFilter, World, OUTPUT_LIMIT};

verus! {

/// The hearth restocks fuel once it holds no more than this.
pub const MATERIAL_SUPPLYING_THRESHOLD: u64 = 10;

/// How long one unit of fuel burns, in microseconds.
pub const WOOD_BURNING_RATE: u64 = 20_000_000;

/// What every building has: where it stands, who works there, and its output.
pub struct BuildingBase {
    pub pos: Pos,
    pub workers: Vec<Worker>,
    pub max_workers: u8,
    pub output: Inventory,
    pub building: Buildings,
}

impl BuildingBase {
    /// Adds a worker to the building.
    pub fn assign_worker(&mut self, worker: Worker)
        ensures
            final(self).workers@ == old(self).workers@.push(worker),
            final(self).pos == old(self).pos,
            final(self).output == old(self).output,
            final(self).building == old(self).building,
    {
        self.workers.push(worker);
    }
}

pub struct Building {
    pub building_base: BuildingBase,
    pub building_behaviour: BuildingBehaviour,
}

pub enum BuildingBehaviour {
    Hearth(HearthBehaviour),
    Store(StoreBehaviour),
    Gatherer(GathererBehaviour),
    Producer(ProducerBehaviour),
}

/// A store has no behaviour of its own: others put goods in and take them out.
pub struct StoreBehaviour {}

pub enum HearthAction {
    Idle,
    Burning(BasicAction),
}

/// The hearth burns fuel from its private input, and houses the workers that belong to no
/// building.
pub struct HearthBehaviour {
    pub action: HearthAction,
    pub input: Inventory,
    pub unassigned_workers: Vec<Worker>,
}

pub struct GathererBehaviour {
    pub storing_all: bool,
    pub gathered_resource_types: Vec<InventoryItems>,
}

#[derive(Clone, Copy, Debug, PartialEq, Eq, Structural)]
pub enum InternalProducerState {
    Supplying,
    Producing,
    Storing,
}

pub struct ProducerBehaviour {
    pub input: Inventory,
    pub production_cycle: usize,
    pub internal_state: InternalProducerState,
    pub receipes: Vec<Receipe>,
}

pub open spec fn workers_wf(ws: Seq<Worker>, w: usize, h: usize) -> bool {
    forall|i: int| 0 <= i < ws.len() ==> (#[trigger] ws[i]).wf(w, h)
}

impl Building {
    pub open spec fn wf(&self, w: usize, h: usize) -> bool {
        &&& self.building_base.output.wf()
        &&& in_grid(self.building_base.pos, w, h)
        &&& workers_wf(self.building_base.workers@, w, h)
        &&& match &self.building_behaviour {
            BuildingBehaviour::Hearth(hb) => hb.input.wf() && workers_wf(
                hb.unassigned_workers@,
                w,
                h,
            ),
            BuildingBehaviour::Producer(pb) => pb.input.wf(),
            _ => true,
        }
    }

    /// One tick of this building's behaviour. The building is not in `world.shops` meanwhile.
    pub fn process(&mut self, world: &mut World, delta: u64)
        requires
            old(world).wf(),
            old(self).wf(old(world).map.width, old(world).map.height),
        ensures
            final(world).wf(),
            final(world).map.width == old(world).map.width,
            final(world).map.height == old(world).map.height,
            final(world).shops@.len() >= old(world).shops@.len(),
            shops_kept(old(world), final(world)),
            final(self).wf(final(world).map.width, final(world).map.height),
            final(self).building_base.pos == old(self).building_base.pos,
            final(self).building_base.building == old(self).building_base.building,
            fuel_bounded(old(self), final(self), delta),
            building_step(old(self), final(self), old(world), final(world), delta),
    {
        match &mut self.building_behaviour {
            BuildingBehaviour::Hearth(hearth) => hearth.process(&mut self.building_base, world, delta),
            BuildingBehaviour::Gatherer(gatherer) => gatherer.process(
                &mut self.building_base,
                world,
                delta,
            ),
            BuildingBehaviour::Producer(producer) => producer.process(
                &mut self.building_base,
                world,
                delta,
            ),
            BuildingBehaviour::Store(_) => {},
        }
    }
}

/// Whether the fire went from idle to burning.
pub open spec fn lit(h0: &HearthBehaviour, h1: &HearthBehaviour) -> nat {
    if h0.action is Idle && h1.action is Burning {
        1
    } else {
        0
    }
}

/// One tick of the hearth `h0` with workers `ws` giving `h1`: fuel drops only by the one unit
/// taken when an idle fire is lit with a worker present, which happens whenever it can, and it
/// rises by no more than its workers coming home hand over.
pub open spec fn fuel_step(h0: &HearthBehaviour, h1: &HearthBehaviour, ws: Seq<Worker>, delta: u64) -> bool {
    &&& h1.input.count(InventoryItems::Wood) + lit(h0, h1) >= h0.input.count(InventoryItems::Wood)
    &&& h1.input.count(InventoryItems::Wood) + lit(h0, h1) <= h0.input.count(InventoryItems::Wood)
        + delivered(ws, delta, InventoryItems::Wood)
    &&& lit(h0, h1) == 1 ==> ws.len() > 0
    &&& h0.action is Idle && ws.len() > 0 && h0.input.count(InventoryItems::Wood) >= 1 ==> h1.action is Burning
}

/// One tick of a building: a hearth stays a hearth and its fuel moves as `fuel_step` says;
/// other buildings keep their kind of behaviour.
pub open spec fn fuel_bounded(b0: &Building, b1: &Building, delta: u64) -> bool {
    match &b0.building_behaviour {
        BuildingBehaviour::Hearth(h0) => match &b1.building_behaviour {
            BuildingBehaviour::Hearth(h1) => fuel_step(h0, h1, b0.building_base.workers@, delta),
            _ => false,
        },
        BuildingBehaviour::Store(_) => b1.building_behaviour is Store,
        BuildingBehaviour::Gatherer(_) => b1.building_behaviour is Gatherer,
        BuildingBehaviour::Producer(_) => b1.building_behaviour is Producer,
    }
}

/// One tick of building `b0` in world `w0`, giving `b1` and `w1`: gatherers and producers let
/// each of their workers take a turn in order (`gatherer_trace`, `producer_trace`), a hearth's
/// fuel moves as `fuel_step` says, and a store does nothing.
pub open spec fn building_step(b0: &Building, b1: &Building, w0: &World, w1: &World, delta: u64) -> bool {
    match &b0.building_behaviour {
        BuildingBehaviour::Gatherer(g0) => match &b1.building_behaviour {
            BuildingBehaviour::Gatherer(g1) => exists|gs: Seq<GathererBehaviour>, os: Seq<Inventory>, wds: Seq<World>|
                #[trigger] gatherer_trace(gs, os, wds, b0.building_base.workers@, b1.building_base.workers@, b0.building_base.pos, delta)
                    && gs[0] == *g0 && gs.last() == *g1 && os[0] == b0.building_base.output
                    && os.last() == b1.building_base.output && wds[0] == *w0 && wds.last() == *w1,
            _ => false,
        },
        BuildingBehaviour::Producer(p0) => match &b1.building_behaviour {
            BuildingBehaviour::Producer(p1) => exists|ps: Seq<ProducerBehaviour>, os: Seq<Inventory>, wds: Seq<World>|
                #[trigger] producer_trace(ps, os, wds, b0.building_base.workers@, b1.building_base.workers@, b0.building_base.pos, delta)
                    && ps[0] == *p0 && ps.last() == *p1 && os[0] == b0.building_base.output
                    && os.last() == b1.building_base.output && wds[0] == *w0 && wds.last() == *w1,
            _ => false,
        },
        BuildingBehaviour::Hearth(h0) => match &b1.building_behaviour {
            BuildingBehaviour::Hearth(h1) => fuel_step(h0, h1, b0.building_base.workers@, delta),
            _ => false,
        },
        BuildingBehaviour::Store(_) => *b1 == *b0 && *w1 == *w0,
    }
}

/// A finished building of kind `kind` at `pos`, with no workers, made from its static data.
pub fn make_building(kind: Buildings, pos: Pos) -> (r: Option<Building>)
    ensures
        r is Some <==> kind.is_configured(),
        r matches Some(b) ==> b.building_base.pos == pos && b.building_base.building == kind
            && b.building_base.workers@.len() == 0 && forall|w: usize, h: usize|
            in_grid(pos, w, h) ==> #[trigger] b.wf(w, h),
{
    let data = match kind.get_data() {
        Some(d) => d,
        None => {
            return None;
        },
    };
    let building_behaviour = match data.building_behaviour {
        BuildingBehaviourDiscriminants::Hearth => BuildingBehaviour::Hearth(
            HearthBehaviour {
                action: HearthAction::Idle,
                input: Inventory::new(),
                unassigned_workers: Vec::new(),
            },
        ),
        BuildingBehaviourDiscriminants::Store => BuildingBehaviour::Store(StoreBehaviour {}),
        BuildingBehaviourDiscriminants::Gatherer => BuildingBehaviour::Gatherer(
            GathererBehaviour {
                storing_all: false,
                gathered_resource_types: data.gathered_resource_types,
            },
        ),
        BuildingBehaviourDiscriminants::Producer => BuildingBehaviour::Producer(
            ProducerBehaviour {
                input: Inventory::new(),
                production_cycle: 0,
                internal_state: InternalProducerState::Supplying,
                receipes: data.production_receipes,
            },
        ),
    };
    let b = Building {
        building_base: BuildingBase {
            pos,
            workers: Vec::new(),
            max_workers: data.max_workers,
            output: Inventory::limited(OUTPUT_LIMIT),
            building: kind,
        },
        building_behaviour,
    };
    Some(b)
}

/// The first of `items` with at least `min` units in `inv`.
fn first_held(inv: &Inventory, items: &Vec<InventoryItems>, min: u64) -> (r: InventoryItems)
    requires
        inv.wf(),
        exists|k: int| 0 <= k < items@.len() && inv.count(#[trigger] items@[k]) >= min,
    ensures
        inv.count(r) >= min,
        items@.contains(r),
{
    let mut k: usize = 0;
    while k < items.len()
        invariant
            inv.wf(),
            k <= items@.len(),
            forall|j: int| 0 <= j < k ==> inv.count(#[trigger] items@[j]) < min,
            exists|k: int| 0 <= k < items@.len() && inv.count(#[trigger] items@[k]) >= min,
        decreases items@.len() - k,
    {
        if inv.get(&items[k]) >= min {
            assert(items@[k as int] == items[k as int]);
            return items[k];
        }
        k = k + 1;
    }
    assert(false);
    items[0]
}

/// What building `j` gave up and the worker received in one reservation.
pub open spec fn took(
    w0: &World,
    w1: &World,
    a0: &Worker,
    a1: &Worker,
    j: int,
    item: InventoryItems,
    t: nat,
) -> bool {
    &&& 0 <= j < w0.shops@.len()
    &&& t <= w0.stock(j, item)
    &&& w1.stock(j, item) == w0.stock(j, item) - t
    &&& forall|k: int, x: InventoryItems|
        0 <= k < w0.shops@.len() && (k != j || x != item) ==> #[trigger] w1.stock(k, x) == w0.stock(
            k,
            x,
        )
    &&& a1.inventory.count(item) == a0.inventory.count(item) + t
    &&& forall|x: InventoryItems| x != item ==> #[trigger] a1.inventory.count(x) == a0.inventory.count(x)
}

/// A supply command either left all stocks and the worker's goods as they were, or moved
/// some quantity of one item out of one building's output into the worker's hands.
pub open spec fn reserved(w0: &World, w1: &World, a0: &Worker, a1: &Worker) -> bool {
    &&& w1.shops@.len() == w0.shops@.len()
    &&& {
        ||| (forall|k: int, x: InventoryItems|
            0 <= k < w0.shops@.len() ==> #[trigger] w1.stock(k, x) == w0.stock(k, x)) && (forall|
            x: InventoryItems,
        | #[trigger] a1.inventory.count(x) == a0.inventory.count(x))
        ||| exists|j: int, item: InventoryItems, t: nat| took(w0, w1, a0, a1, j, item, t)
    }
}

/// Two reservations made one after the other against the same building never take more than
/// it held before the first.
pub proof fn lemma_same_tick_reservations(
    w0: &World,
    w1: &World,
    w2: &World,
    a0: &Worker,
    a1: &Worker,
    b0: &Worker,
    b1: &Worker,
    j: int,
    item: InventoryItems,
    t1: nat,
    t2: nat,
)
    requires
        took(w0, w1, a0, a1, j, item, t1),
        w1.shops@.len() == w0.shops@.len(),
        took(w1, w2, b0, b1, j, item, t2),
    ensures
        t1 + t2 <= w0.stock(j, item),
        w2.stock(j, item) == w0.stock(j, item) - t1 - t2,
{
}

/// Building `j` of `w` holds at least `min` of one of `items` and can be reached from `from`.
pub open spec fn supply_source(w: &World, from: Pos, items: Seq<InventoryItems>, min: u64, j: int) -> bool {
    0 <= j < w.shops@.len() && holds_some(&w.shops@[j].building_base.output, items, min)
        && reachable(&w.map, from, w.shops@[j].building_base.pos)
}

/// What a supply command does: an idle worker with a source in reach sets off to supply,
/// with `min(stock, room)` of one of the items taken from one such source at once; any other
/// worker comes back unchanged and nothing in the world moves.
pub open spec fn supplied(
    w0: &World,
    w1: &World,
    a0: &Worker,
    a1: &Worker,
    from: Pos,
    items: Seq<InventoryItems>,
    min: u64,
) -> bool {
    let go = a0.kind() == StateKind::Idle && exists|j: int| #[trigger] supply_source(w0, from, items, min, j);
    &&& go ==> a1.kind() == StateKind::Supplying && exists|j: int, item: InventoryItems|
        supply_source(w0, from, items, min, j) && items.contains(item) && w0.stock(j, item) >= min
            && #[trigger] took(w0, w1, a0, a1, j, item, min_nat(w0.stock(j, item), a0.inventory.room()))
    &&& !go ==> *a1 == *a0 && *w1 == *w0
}

/// Sends an idle worker to fetch one of `materials` from the closest building that holds at
/// least `min` units of it. The goods are taken out of that building's output at once, before
/// the worker sets off, as much as the worker can carry. A worker that is not idle, or finds
/// no such building, is handed back unchanged.
pub fn supply_command(
    worker: Worker,
    shop_pos: Pos,
    world: &mut World,
    materials: Vec<InventoryItems>,
    min: u64,
) -> (r: Worker)
    requires
        old(world).wf(),
        worker.wf(old(world).map.width, old(world).map.height),
        old(world).map.in_bounds(shop_pos),
    ensures
        final(world).wf(),
        final(world).map == old(world).map,
        final(world).shops@.len() == old(world).shops@.len(),
        shops_kept(old(world), final(world)),
        r.wf(final(world).map.width, final(world).map.height),
        r.name == worker.name,
        r.pos == worker.pos,
        reserved(old(world), final(world), &worker, &r),
        worker.kind() != StateKind::Idle ==> r.kind() == worker.kind(),
        r.kind() == StateKind::Idle || r.kind() == StateKind::Supplying || r.kind()
            == worker.kind(),
        (r.kind() == StateKind::Supplying && worker.kind() == StateKind::Idle) <==> (worker.kind()
            == StateKind::Idle && exists|j: int|
            0 <= j < old(world).shops@.len() && filter_accepts(
                &ShopFilter::HoldsAnyOf(materials, min),
                #[trigger] &old(world).shops@[j],
            ) && reachable(&old(world).map, shop_pos, old(world).shops@[j].building_base.pos)),
        r.kind() != StateKind::Supplying ==> r == worker && *final(world) == *old(world),
        r.kind() == StateKind::Supplying && worker.kind() == StateKind::Idle ==> exists|
            j: int,
            item: InventoryItems,
        |
            materials@.contains(item) && old(world).stock(j, item) >= min && reachable(
                &old(world).map,
                shop_pos,
                old(world).shops@[j].building_base.pos,
            ) && #[trigger] took(
                old(world),
                final(world),
                &worker,
                &r,
                j,
                item,
                min_nat(old(world).stock(j, item), worker.inventory.room()),
            ),
        supplied(old(world), final(world), &worker, &r, shop_pos, materials@, min),
{
    if worker.state_kind() != StateKind::Idle {
        return worker;
    }
    let ghost wanted = materials;
    let filter = ShopFilter::HoldsAnyOf(materials, min);
    let found = closest_shop(shop_pos, world, &filter);
    match found {
        None => {
            proof {
                assert forall|j: int|
                    0 <= j < old(world).shops@.len() && filter_accepts(
                        &ShopFilter::HoldsAnyOf(materials, min),
                        #[trigger] &old(world).shops@[j],
                    ) implies !reachable(&old(world).map, shop_pos, old(world).shops@[j].building_base.pos) by {
                }
                assert forall|j: int| !#[trigger] supply_source(old(world), shop_pos, wanted@, min, j) by {
                    if supply_source(old(world), shop_pos, wanted@, min, j) {
                        assert(filter_accepts(&filter, &old(world).shops@[j]));
                    }
                }
            }
            worker
        },
        Some((i, path)) => {
            let ghost w0 = *world;
            let ghost src0 = world.shops@[i as int];
            let mut src = world.shops.remove(i);
            proof {
                assert(src0.wf(world.map.width, world.map.height));
            }
            let item = first_held(&src.building_base.output, &filter_items(&filter), min);
            let have = src.building_base.output.get(&item);
            let room = worker.inventory.room_left();
            let take = if have <= room {
                have
            } else {
                room
            };
            src.building_base.output.remove(&item, take);
            world.shops.insert(i, src);
            proof {
                assert(world.shops@ =~= w0.shops@.update(i as int, src));
                assert forall|k: int| 0 <= k < world.shops@.len() implies (#[trigger] world.shops@[k]).wf(
                    world.map.width,
                    world.map.height,
                ) by {
                    if k != i {
                        assert(world.shops@[k] == w0.shops@[k]);
                    }
                }

            }
            let r = worker.to_supplying(path, &world.map, item, take);
            proof {
                assert(take as nat == min_nat(w0.stock(i as int, item), worker.inventory.room()));
                assert(wanted@.contains(item));
                assert(supply_source(&w0, shop_pos, wanted@, min, i as int));
                assert(took(&w0, world, &worker, &r, i as int, item, take as nat)) by {
                    assert forall|k: int, x: InventoryItems|
                        0 <= k < w0.shops@.len() && (k != i || x != item) implies #[trigger] world.stock(k, x)
                        == w0.stock(k, x) by {
                        if k != i {
                            assert(world.shops@[k] == w0.shops@[k]);
                        }
                    }
                }
                assert(wanted@.contains(item));
                assert(w0.stock(i as int, item) >= min);
                assert(supply_source(&w0, shop_pos, wanted@, min, i as int) && wanted@.contains(item)
                    && w0.stock(i as int, item) >= min && took(
                    &w0,
                    world,
                    &worker,
                    &r,
                    i as int,
                    item,
                    min_nat(w0.stock(i as int, item), worker.inventory.room()),
                ));
            }
            r
        },
    }
}

fn filter_items(f: &ShopFilter) -> (r: Vec<InventoryItems>)
    ensures
        f matches ShopFilter::HoldsAnyOf(items, _) ==> r@ == items@,
{
    match f {
        ShopFilter::HoldsAnyOf(items, _) => {
            let c = items.clone();
            assert(c@ =~= items@);
            c
        },
        _ => Vec::new(),
    }
}

/// Sends an idle worker to the closest store with as much of `shop_output` as it can carry.
/// Anything else is handed back unchanged.
pub fn store_command(worker: Worker, world: &mut World, shop_output: &mut Inventory) -> (r: Worker)
    requires
        old(world).wf(),
        worker.wf(old(world).map.width, old(world).map.height),
        old(shop_output).wf(),
    ensures
        *final(world) == *old(world),
        final(shop_output).wf(),
        r.wf(final(world).map.width, final(world).map.height),
        r.name == worker.name,
        forall|x: InventoryItems|
            #[trigger] final(shop_output).count(x) + r.inventory.count(x) == old(shop_output).count(x)
                + worker.inventory.count(x),
        worker.kind() != StateKind::Idle ==> r.kind() == worker.kind() && *final(shop_output) == *old(
            shop_output,
        ),
        r.kind() == StateKind::Idle || r.kind() == StateKind::Storing || r.kind() == worker.kind(),
        worker.kind() == StateKind::Idle ==> (r.kind() == StateKind::Storing <==> exists|i: int|
            0 <= i < old(world).shops@.len() && filter_accepts(
                &ShopFilter::Store,
                #[trigger] &old(world).shops@[i],
            ) && reachable(&old(world).map, worker.pos, old(world).shops@[i].building_base.pos)),
        final(shop_output).limit == old(shop_output).limit,
        forall|x: InventoryItems| #[trigger] final(shop_output).count(x) <= old(shop_output).count(x),
{
    if worker.state_kind() != StateKind::Idle {
        return worker;
    }
    let mut w = worker.try_storing(world);
    if w.state_kind() == StateKind::Storing {
        shop_output.transfer_until_full(&mut w.inventory);
    }
    w
}

/// Sends an idle worker to the closest unclaimed resource yielding one of `items`, and claims
/// it. Anything else is handed back unchanged.
pub fn gather_command(worker: Worker, world: &mut World, items: &Vec<InventoryItems>) -> (r: Worker)
    requires
        old(world).wf(),
        worker.wf(old(world).map.width, old(world).map.height),
    ensures
        final(world).wf(),
        final(world).shops == old(world).shops,
        final(world).build_zones == old(world).build_zones,
        final(world).map.width == old(world).map.width,
        final(world).map.height == old(world).map.height,
        r.wf(final(world).map.width, final(world).map.height),
        r.name == worker.name,
        r.inventory == worker.inventory,
        worker.kind() != StateKind::Idle ==> r.kind() == worker.kind(),
        r.kind() == StateKind::Idle || r.kind() == StateKind::Gathering || r.kind() == worker.kind(),
        worker.kind() == StateKind::Idle ==> (r.kind() == StateKind::Gathering <==> exists|
            p: Seq<Pos>,
        | leads_to_match(&old(world).map, p, worker.pos, &TileQuery::UnclaimedResource(*items))),
        r.kind() != StateKind::Gathering || worker.kind() != StateKind::Idle ==> r == worker
            && *final(world) == *old(world),
        r.kind() == StateKind::Gathering && worker.kind() == StateKind::Idle ==> (r.state matches WorkerState::Gathering(g)
            && claimed(&old(world).map, &final(world).map, g.target) && exists|p: Seq<Pos>|
            #[trigger] leads_to_match(&old(world).map, p, worker.pos, &TileQuery::UnclaimedResource(*items))
                && p.last() == g.target),
{
    if worker.state_kind() != StateKind::Idle {
        return worker;
    }
    let wanted = items.clone();
    assert(wanted@ =~= items@);
    let query = TileQuery::UnclaimedResource(wanted);
    let found = dijkstra_closest(&world.map, worker.pos, &query);
    proof {
        let q2 = TileQuery::UnclaimedResource(*items);
        assert forall|t: TileType| query_matches(&query, t) == query_matches(&q2, t) by {}
        if exists|p: Seq<Pos>| leads_to_match(&world.map, p, worker.pos, &query) {
            let p = choose|p: Seq<Pos>| leads_to_match(&world.map, p, worker.pos, &query);
            assert(leads_to_match(&world.map, p, worker.pos, &q2));
        }
        if exists|p: Seq<Pos>| leads_to_match(&world.map, p, worker.pos, &q2) {
            let p = choose|p: Seq<Pos>| leads_to_match(&world.map, p, worker.pos, &q2);
            assert(leads_to_match(&world.map, p, worker.pos, &query));
        }
    }
    match found {
        None => worker,
        Some(path) => {
            let ghost pv = path@;
            proof {
                assert(leads_to_match(&world.map, pv, worker.pos, &TileQuery::UnclaimedResource(*items)));
            }
            let r = worker.to_gathering(path, &mut world.map);
            proof {
                assert forall|i: int| 0 <= i < world.shops@.len() implies (#[trigger] world.shops@[i]).wf(
                    world.map.width,
                    world.map.height,
                ) by {
                    assert(old(world).shops@[i].wf(world.map.width, world.map.height));
                }
                assert forall|i: int|
                    0 <= i < world.build_zones@.len() implies (#[trigger] world.build_zones@[i]).wf(
                    world.map.width,
                    world.map.height,
                ) by {
                    assert(old(world).build_zones@[i].wf(world.map.width, world.map.height));
                }
            }
            r
        },
    }
}

/// Starts an idle worker on a recipe whose inputs have already been taken.
pub fn produce_command(worker: Worker, receipe: ProducedReceipe) -> (r: Worker)
    ensures
        worker.kind() == StateKind::Idle ==> r.kind() == StateKind::Producing,
        worker.kind() != StateKind::Idle ==> r.kind() == worker.kind(),
        r.name == worker.name,
        r.inventory == worker.inventory,
        r.pos == worker.pos,
        forall|w: usize, h: usize| worker.wf(w, h) ==> #[trigger] r.wf(w, h),
        worker.kind() == StateKind::Idle ==> (r.state matches WorkerState::Producing(t, pr) && pr
            == receipe && t.progress == 0 && t.requirement == receipe.time_requirement),
{
    if worker.state_kind() != StateKind::Idle {
        return worker;
    }
    worker.to_producing(receipe)
}

impl HearthBehaviour {
    /// One tick: the workers act, the fire burns on or is lit again, and the workers of no
    /// building look for construction work.
    pub fn process(&mut self, shop_base: &mut BuildingBase, world: &mut World, delta: u64)
        requires
            old(world).wf(),
            old(shop_base).output.wf(),
            in_grid(old(shop_base).pos, old(world).map.width, old(world).map.height),
            workers_wf(old(shop_base).workers@, old(world).map.width, old(world).map.height),
            old(self).input.wf(),
            workers_wf(old(self).unassigned_workers@, old(world).map.width, old(world).map.height),
        ensures
            final(world).wf(),
            final(world).map.width == old(world).map.width,
            final(world).map.height == old(world).map.height,
            final(world).shops@.len() >= old(world).shops@.len(),
            shops_kept(old(world), final(world)),
            final(shop_base).output.wf(),
            final(shop_base).pos == old(shop_base).pos,
            final(shop_base).building == old(shop_base).building,
            workers_wf(final(shop_base).workers@, final(world).map.width, final(world).map.height),
            final(self).input.wf(),
            workers_wf(final(self).unassigned_workers@, final(world).map.width, final(world).map.height),
            fuel_step(old(self), final(self), old(shop_base).workers@, delta),
            forall|x: InventoryItems|
                x != InventoryItems::Wood ==> #[trigger] final(self).input.count(x) >= old(
                    self,
                ).input.count(x),

            final(shop_base).workers@.len() == old(shop_base).workers@.len(),
    {
        let n = shop_base.workers.len();
        let mut k: usize = 0;
        while k < n
            invariant
                world.wf(),
                world.map.width == old(world).map.width,
                world.map.height == old(world).map.height,
                world.shops@.len() >= old(world).shops@.len(),
                shops_kept(old(world), world),
                shop_base.output.wf(),
                shop_base.pos == old(shop_base).pos,
                shop_base.building == old(shop_base).building,
                in_grid(shop_base.pos, world.map.width, world.map.height),
                workers_wf(shop_base.workers@, world.map.width, world.map.height),
                shop_base.workers@.len() == n,
                n == old(shop_base).workers@.len(),
                self.input.wf(),
                self.action == old(self).action,
                forall|x: InventoryItems| #[trigger] self.input.count(x) >= old(self).input.count(x),
                workers_wf(self.unassigned_workers@, world.map.width, world.map.height),
                k <= n,
                forall|i: int| 0 <= i < n - k ==> #[trigger] shop_base.workers@[i] == old(shop_base).workers@[i + k],
                self.input.count(InventoryItems::Wood) <= old(self).input.count(InventoryItems::Wood)
                    + delivered(old(shop_base).workers@.take(k as int), delta, InventoryItems::Wood),
            decreases n - k,
        {
            let ghost ws = shop_base.workers@;
            let ghost fuel0 = self.input.count(InventoryItems::Wood);
            proof {
                lemma_delivered_take(old(shop_base).workers@, delta, k as int, InventoryItems::Wood);
            }
            let w = shop_base.workers.remove(0);
            proof {
                assert(ws[0].wf(world.map.width, world.map.height));
                assert forall|i: int| 0 <= i < shop_base.workers@.len() implies (
                #[trigger] shop_base.workers@[i]).wf(world.map.width, world.map.height) by {
                    assert(shop_base.workers@[i] == ws[i + 1]);
                }
            }
            let w = self.process_worker(w, world, shop_base.pos, delta);
            let ghost ws2 = shop_base.workers@;
            shop_base.workers.push(w);
            proof {
                assert forall|i: int| 0 <= i < shop_base.workers@.len() implies (
                #[trigger] shop_base.workers@[i]).wf(world.map.width, world.map.height) by {
                    if i < ws2.len() {
                        assert(shop_base.workers@[i] == ws2[i]);
                    }
                }
                assert forall|i: int| 0 <= i < n - (k + 1) implies #[trigger] shop_base.workers@[i] == old(shop_base).workers@[i + k + 1] by {
                    assert(shop_base.workers@[i] == ws2[i]);
                    assert(ws2[i] == ws[i + 1]);
                }
                assert(ws[0] == old(shop_base).workers@[k as int]);
            }
            k = k + 1;
        }
        proof {
            assert(old(shop_base).workers@.take(n as int) =~= old(shop_base).workers@);
        }
        let ghost mid = self.input;
        let m = self.unassigned_workers.len();
        let mut k: usize = 0;
        while k < m
            invariant
                self.input == mid,
                self.action == old(self).action,
                shop_base.workers@.len() == old(shop_base).workers@.len(),
                world.wf(),
                world.map.width == old(world).map.width,
                world.map.height == old(world).map.height,
                world.shops@.len() >= old(world).shops@.len(),
                shops_kept(old(world), world),
                in_grid(shop_base.pos, world.map.width, world.map.height),
                workers_wf(self.unassigned_workers@, world.map.width, world.map.height),
                self.unassigned_workers@.len() == m,
                self.input.wf(),
                shop_base.output.wf(),
                shop_base.pos == old(shop_base).pos,
                shop_base.building == old(shop_base).building,
                workers_wf(shop_base.workers@, world.map.width, world.map.height),
                k <= m,
            decreases m - k,
        {
            let ghost ws = self.unassigned_workers@;
            let w = self.unassigned_workers.remove(0);
            proof {
                assert(ws[0].wf(world.map.width, world.map.height));
                assert forall|i: int| 0 <= i < self.unassigned_workers@.len() implies (
                #[trigger] self.unassigned_workers@[i]).wf(world.map.width, world.map.height) by {
                    assert(self.unassigned_workers@[i] == ws[i + 1]);
                }
            }
            let w = w.process_unassigned_worker(shop_base.pos, world, delta);
            let ghost ws2 = self.unassigned_workers@;
            self.unassigned_workers.push(w);
            proof {
                assert forall|i: int| 0 <= i < self.unassigned_workers@.len() implies (
                #[trigger] self.unassigned_workers@[i]).wf(world.map.width, world.map.height) by {
                    if i < ws2.len() {
                        assert(self.unassigned_workers@[i] == ws2[i]);
                    }
                }
            }
            k = k + 1;
        }
        let has_worker = shop_base.workers.len() > 0;
        let maybe_new_action = match &mut self.action {
            HearthAction::Burning(burning) => continue_burning(burning, delta),
            HearthAction::Idle => process_idle(&mut self.input, has_worker),
        };
        match maybe_new_action {
            Some(a) => {
                self.action = a;
            },
            None => {},
        }
    }

    /// One tick of one hearth worker: fuel brought in goes to the input; an idle worker is sent
    /// for fuel when the stock has run down to the threshold.
    pub fn process_worker(&mut self, worker: Worker, world: &mut World, home: Pos, delta: u64) -> (r:
        Worker)
        requires
            old(world).wf(),
            worker.wf(old(world).map.width, old(world).map.height),
            in_grid(home, old(world).map.width, old(world).map.height),
            old(self).input.wf(),
        ensures
            final(world).wf(),
            final(world).map.width == old(world).map.width,
            final(world).map.height == old(world).map.height,
            final(world).shops@.len() >= old(world).shops@.len(),
            shops_kept(old(world), final(world)),
            r.wf(final(world).map.width, final(world).map.height),
            final(self).input.wf(),
            final(self).unassigned_workers == old(self).unassigned_workers,
            final(self).action == old(self).action,
            forall|x: InventoryItems| #[trigger] final(self).input.count(x) >= old(self).input.count(x),
            forall|x: InventoryItems|
                #[trigger] final(self).input.count(x) <= old(self).input.count(x) + delivering(&worker, delta, x),
            exists|wm: World, am: Worker, res: WorkerActionResult|
                #[trigger] ticked(old(world), &wm, &worker, &am, &res, home, delta) && hearth_after(
                    &old(self).input,
                    &final(self).input,
                    &wm,
                    final(world),
                    &am,
                    &r,
                    &res,
                    home,
                ),
    {
        let ghost w0 = *world;
        let ghost a0 = worker;
        let (worker, result) = worker.continue_action(home, delta, world, true);
        let ghost wm = *world;
        let ghost am = worker;
        let ghost res = result;
        let r = self.after_action(worker, result, world, home);
        proof {
            assert(ticked(&w0, &wm, &a0, &am, &res, home, delta));
        }
        r
    }

    /// What the hearth does after a worker's tick: fuel brought in goes to the input; an idle
    /// worker is sent for fuel when the stock is down to the threshold.
    pub fn after_action(&mut self, worker: Worker, result: WorkerActionResult, world: &mut World, home: Pos) -> (r:
        Worker)
        requires
            old(world).wf(),
            worker.wf(old(world).map.width, old(world).map.height),
            in_grid(home, old(world).map.width, old(world).map.height),
            old(self).input.wf(),
            result is Idle ==> worker.kind() == StateKind::Idle,
            result matches WorkerActionResult::BroughtToShop(inv) ==> inv.wf(),
        ensures
            final(world).wf(),
            final(world).map.width == old(world).map.width,
            final(world).map.height == old(world).map.height,
            final(world).shops@.len() >= old(world).shops@.len(),
            shops_kept(old(world), final(world)),
            r.wf(final(world).map.width, final(world).map.height),
            final(self).input.wf(),
            final(self).unassigned_workers == old(self).unassigned_workers,
            final(self).action == old(self).action,
            forall|x: InventoryItems| #[trigger] final(self).input.count(x) >= old(self).input.count(x),
            result matches WorkerActionResult::BroughtToShop(inv) ==> received(
                &old(self).input,
                &final(self).input,
                &inv,
            ) && r == worker && *final(world) == *old(world),
            result is Idle && old(self).input.count(InventoryItems::Wood) <= MATERIAL_SUPPLYING_THRESHOLD
                ==> supplied(old(world), final(world), &worker, &r, home, seq![InventoryItems::Wood], 1)
                && final(self).input == old(self).input,
            !(result is BroughtToShop) && !(result is Idle && old(self).input.count(InventoryItems::Wood)
                <= MATERIAL_SUPPLYING_THRESHOLD) ==> r == worker && *final(world) == *old(world)
                && final(self).input == old(self).input,
            hearth_after(&old(self).input, &final(self).input, old(world), final(world), &worker, &r, &result, home),
    {
        let mut worker = worker;
        match result {
            WorkerActionResult::InProgress => {},
            WorkerActionResult::ProductionComplete(_) => {},
            WorkerActionResult::BroughtToShop(inv) => {
                self.input.receive(inv);
            },
            WorkerActionResult::Idle => {
                if self.input.get(&InventoryItems::Wood) > MATERIAL_SUPPLYING_THRESHOLD {
                } else {
                    let fuel = vec![InventoryItems::Wood];
                    assert(fuel@ =~= seq![InventoryItems::Wood]);
                    worker = supply_command(worker, home, world, fuel, 1);
                }
            },
        }
        worker
    }
}

/// Units of `x` a worker hands to its building in the tick of length `delta`: what it carries
/// if it is on its way home and arrives, else nothing.
pub open spec fn delivering(w: &Worker, delta: u64, x: InventoryItems) -> nat {
    if w.kind() == StateKind::Returning && trip_ends(w, delta) {
        w.inventory.count(x)
    } else {
        0
    }
}

/// Units of `x` the workers of `ws` hand over in a tick of length `delta`.
pub open spec fn delivered(ws: Seq<Worker>, delta: u64, x: InventoryItems) -> nat
    decreases ws.len(),
{
    if ws.len() == 0 {
        0
    } else {
        delivered(ws.drop_last(), delta, x) + delivering(&ws.last(), delta, x)
    }
}

proof fn lemma_delivered_take(ws: Seq<Worker>, delta: u64, k: int, x: InventoryItems)
    requires
        0 <= k < ws.len(),
    ensures
        delivered(ws.take(k + 1), delta, x) == delivered(ws.take(k), delta, x) + delivering(&ws[k], delta, x),
{
    assert(ws.take(k + 1).drop_last() =~= ws.take(k));
}

/// What the hearth at `home` does after a worker's tick, as `HearthBehaviour::after_action`
/// states it, over its fuel store `i0`/`i1`.
pub open spec fn hearth_after(
    i0: &Inventory,
    i1: &Inventory,
    w0: &World,
    w1: &World,
    a0: &Worker,
    a1: &Worker,
    res: &WorkerActionResult,
    home: Pos,
) -> bool {
    &&& (res matches WorkerActionResult::BroughtToShop(inv) ==> received(i0, i1, &inv) && *a1 == *a0
        && *w1 == *w0)
    &&& (res is Idle && i0.count(InventoryItems::Wood) <= MATERIAL_SUPPLYING_THRESHOLD ==> supplied(
        w0,
        w1,
        a0,
        a1,
        home,
        seq![InventoryItems::Wood],
        1,
    ) && *i1 == *i0)
    &&& (!(res is BroughtToShop) && !(res is Idle && i0.count(InventoryItems::Wood)
        <= MATERIAL_SUPPLYING_THRESHOLD) ==> *a1 == *a0 && *w1 == *w0 && *i1 == *i0)
}

/// Burns on; once the unit of fuel is spent the hearth goes idle.
fn continue_burning(action: &mut BasicAction, delta: u64) -> (r: Option<HearthAction>)
    ensures
        r is Some <==> final(action).spec_completed(),
        r matches Some(a) ==> a is Idle,
{
    let result = action.continue_action(delta);
    match result {
        ActionResult::Completed => Some(HearthAction::Idle),
        ActionResult::InProgress => None,
    }
}

/// Lights the hearth when it has fuel and someone tends it: one unit of fuel is taken.
fn process_idle(inventory: &mut Inventory, has_worker: bool) -> (r: Option<HearthAction>)
    requires
        old(inventory).wf(),
    ensures
        final(inventory).wf(),
        final(inventory).limit == old(inventory).limit,
        (r is Some) == (has_worker && old(inventory).count(InventoryItems::Wood) >= 1),
        r is Some ==> final(inventory).count(InventoryItems::Wood) == old(inventory).count(
            InventoryItems::Wood,
        ) - 1,
        r is None ==> *final(inventory) == *old(inventory),
        forall|x: InventoryItems| x != InventoryItems::Wood ==> #[trigger] final(inventory).count(x) == old(inventory).count(x),
        r matches Some(a) ==> a matches HearthAction::Burning(b) && b.progress == 0 && b.requirement
            == WOOD_BURNING_RATE,
{
    let wood = inventory.get(&InventoryItems::Wood);
    if wood >= 1 && has_worker {
        inventory.remove(&InventoryItems::Wood, 1);
        return Some(HearthAction::Burning(BasicAction::new(WOOD_BURNING_RATE)));
    }
    None
}

impl GathererBehaviour {
    /// One tick: gatherers bring goods into the output; once the output is full it is carried
    /// to a store until empty, otherwise idle workers are sent to gather.
    pub fn process(&mut self, shop_base: &mut BuildingBase, world: &mut World, delta: u64)
        requires
            old(world).wf(),
            old(shop_base).output.wf(),
            in_grid(old(shop_base).pos, old(world).map.width, old(world).map.height),
            workers_wf(old(shop_base).workers@, old(world).map.width, old(world).map.height),
        ensures
            final(world).wf(),
            final(world).map.width == old(world).map.width,
            final(world).map.height == old(world).map.height,
            final(world).shops@.len() >= old(world).shops@.len(),
            shops_kept(old(world), final(world)),
            final(shop_base).output.wf(),
            final(shop_base).pos == old(shop_base).pos,
            final(shop_base).building == old(shop_base).building,
            workers_wf(final(shop_base).workers@, final(world).map.width, final(world).map.height),
            final(shop_base).workers@.len() == old(shop_base).workers@.len(),
            forall|x: InventoryItems|
                #[trigger] final(shop_base).output.count(x) <= old(shop_base).output.count(x) + delivered(old(shop_base).workers@, delta, x),
            exists|gs: Seq<GathererBehaviour>, os: Seq<Inventory>, wds: Seq<World>|
                #[trigger] gatherer_trace(gs, os, wds, old(shop_base).workers@, final(shop_base).workers@, old(shop_base).pos, delta)
                    && gs[0] == *old(self) && gs.last() == *final(self) && os[0] == old(shop_base).output
                    && os.last() == final(shop_base).output && wds[0] == *old(world) && wds.last() == *final(world),
    {
        let n = shop_base.workers.len();
        let ghost ws_start = shop_base.workers@;
        let ghost mut gs: Seq<GathererBehaviour> = seq![*self];
        let ghost mut os: Seq<Inventory> = seq![shop_base.output];
        let ghost mut wds: Seq<World> = seq![*world];
        let ghost mut done: Seq<Worker> = Seq::empty();
        proof {
            assert(ws_start.subrange(0, n as int) + done =~= ws_start);
        }
        let mut k: usize = 0;
        while k < n
            invariant
                world.wf(),
                world.map.width == old(world).map.width,
                world.map.height == old(world).map.height,
                world.shops@.len() >= old(world).shops@.len(),
                shops_kept(old(world), world),
                shop_base.output.wf(),
                shop_base.pos == old(shop_base).pos,
                shop_base.building == old(shop_base).building,
                in_grid(shop_base.pos, world.map.width, world.map.height),
                workers_wf(shop_base.workers@, world.map.width, world.map.height),
                shop_base.workers@.len() == n,
                n == old(shop_base).workers@.len(),
                k <= n,
                forall|i: int| 0 <= i < n - k ==> #[trigger] shop_base.workers@[i] == old(shop_base).workers@[i + k],
                forall|x: InventoryItems|
                    #[trigger] shop_base.output.count(x) <= old(shop_base).output.count(x) + delivered(old(shop_base).workers@.take(k as int), delta, x),
                ws_start == old(shop_base).workers@,
                gs.len() == k + 1 && os.len() == k + 1 && wds.len() == k + 1 && done.len() == k,
                gs[0] == *old(self) && gs[k as int] == *self,
                os[0] == old(shop_base).output && os[k as int] == shop_base.output,
                wds[0] == *old(world) && wds[k as int] == *world,
                shop_base.workers@ == ws_start.subrange(k as int, n as int) + done,
                forall|j: int|
                    0 <= j < k ==> #[trigger] gatherer_worker_step(
                        &gs[j],
                        &gs[j + 1],
                        &os[j],
                        &os[j + 1],
                        &wds[j],
                        &wds[j + 1],
                        &ws_start[j],
                        &done[j],
                        shop_base.pos,
                        delta,
                    ),
            decreases n - k,
        {
            let ghost ws = shop_base.workers@;
            let ghost out0 = shop_base.output;
            let w = shop_base.workers.remove(0);
            proof {
                assert(ws[0].wf(world.map.width, world.map.height));
                assert forall|i: int| 0 <= i < shop_base.workers@.len() implies (
                #[trigger] shop_base.workers@[i]).wf(world.map.width, world.map.height) by {
                    assert(shop_base.workers@[i] == ws[i + 1]);
                }
            }
            let ghost w0 = w;
            let ghost g_before = *self;
            let ghost world_before = *world;
            let (w, result) = w.continue_action(shop_base.pos, delta, world, false);
            let ghost w1 = w;
            let ghost wm = *world;
            let ghost res = result;
            let w = self.after_action(&mut shop_base.output, w, result, world);
            proof {
                assert(ticked(&world_before, &wm, &w0, &w1, &res, shop_base.pos, delta));
                assert(gatherer_worker_step(&g_before, self, &out0, &shop_base.output, &world_before, world, &w0, &w, shop_base.pos, delta));
                let ghost gs0 = gs;
                let ghost os0 = os;
                let ghost wds0 = wds;
                let ghost done0 = done;
                gs = gs.push(*self);
                os = os.push(shop_base.output);
                wds = wds.push(*world);
                done = done.push(w);
                assert forall|j: int|
                    0 <= j < k + 1 implies #[trigger] gatherer_worker_step(
                        &gs[j],
                        &gs[j + 1],
                        &os[j],
                        &os[j + 1],
                        &wds[j],
                        &wds[j + 1],
                        &ws_start[j],
                        &done[j],
                        shop_base.pos,
                        delta,
                    ) by {
                    if j < k {
                        assert(gs[j] == gs0[j] && gs[j + 1] == gs0[j + 1]);
                        assert(os[j] == os0[j] && os[j + 1] == os0[j + 1]);
                        assert(wds[j] == wds0[j] && wds[j + 1] == wds0[j + 1]);
                        assert(done[j] == done0[j]);
                    } else {
                        assert(ws_start[j] == w0);
                    }
                }
            }
            let ghost ws2 = shop_base.workers@;
            shop_base.workers.push(w);
            proof {
                assert(shop_base.workers@ =~= ws_start.subrange(k as int + 1, n as int) + done);
                assert forall|i: int| 0 <= i < shop_base.workers@.len() implies (
                #[trigger] shop_base.workers@[i]).wf(world.map.width, world.map.height) by {
                    if i < ws2.len() {
                        assert(shop_base.workers@[i] == ws2[i]);
                    }
                }
                assert forall|i: int| 0 <= i < n - (k + 1) implies #[trigger] shop_base.workers@[i] == old(shop_base).workers@[i + k + 1] by {
                    assert(shop_base.workers@[i] == ws2[i]);
                    assert(ws2[i] == ws[i + 1]);
                }
                assert(w0 == old(shop_base).workers@[k as int]);
                lemma_delivered_take(old(shop_base).workers@, delta, k as int, InventoryItems::Wood);
                assert forall|x: InventoryItems| #[trigger] shop_base.output.count(x) <= old(shop_base).output.count(x) + delivered(old(shop_base).workers@.take(k + 1), delta, x) by {
                    lemma_delivered_take(old(shop_base).workers@, delta, k as int, x);
                    assert(shop_base.output.count(x) <= out0.count(x) + delivering(&w0, delta, x));
                }
            }
            k = k + 1;
        }
        proof {
            assert(old(shop_base).workers@.take(n as int) =~= old(shop_base).workers@);
            assert(shop_base.workers@ =~= done);
            assert(gatherer_trace(gs, os, wds, old(shop_base).workers@, shop_base.workers@, old(shop_base).pos, delta));
        }
    }
}

/// The gatherer's decision for an idle worker `a0`. With a full output, or while emptying it,
/// the worker takes what it can carry of the output to the closest reachable store (if any),
/// and the emptying goes on as long as something is left. Otherwise the output stays as it is
/// and the worker sets off to gather exactly when an unclaimed resource of the gathered items
/// can be reached.
pub open spec fn gatherer_idle_post(
    g0: &GathererBehaviour,
    g1: &GathererBehaviour,
    o0: &Inventory,
    o1: &Inventory,
    w0: &World,
    w1: &World,
    a0: &Worker,
    a1: &Worker,
) -> bool {
    let busy = o0.spec_is_full() || g0.storing_all;
    &&& g1.gathered_resource_types == g0.gathered_resource_types
    &&& busy ==> {
        &&& g1.storing_all == (o1.total() > 0)
        &&& *w1 == *w0
        &&& forall|x: InventoryItems| #[trigger] o1.count(x) + a1.inventory.count(x) == o0.count(x) + a0.inventory.count(x)
        &&& forall|x: InventoryItems| #[trigger] o1.count(x) <= o0.count(x)
        &&& (a1.kind() == StateKind::Storing <==> exists|i: int|
            0 <= i < w0.shops@.len() && filter_accepts(&ShopFilter::Store, #[trigger] &w0.shops@[i])
                && reachable(&w0.map, a0.pos, w0.shops@[i].building_base.pos))
        &&& a1.kind() != StateKind::Storing ==> a1.kind() == StateKind::Idle
    }
    &&& !busy ==> {
        &&& !g1.storing_all
        &&& *o1 == *o0
        &&& w1.shops == w0.shops
        &&& w1.build_zones == w0.build_zones
        &&& (a1.kind() == StateKind::Gathering <==> exists|p: Seq<Pos>|
            leads_to_match(&w0.map, p, a0.pos, &TileQuery::UnclaimedResource(g0.gathered_resource_types)))
        &&& a1.kind() != StateKind::Gathering ==> a1.kind() == StateKind::Idle
    }
}

/// What the gatherer does after a worker's tick, as `GathererBehaviour::after_action` states it.
pub open spec fn gatherer_after(
    g0: &GathererBehaviour,
    g1: &GathererBehaviour,
    o0: &Inventory,
    o1: &Inventory,
    w0: &World,
    w1: &World,
    a0: &Worker,
    a1: &Worker,
    res: &WorkerActionResult,
) -> bool {
    &&& w1.wf()
    &&& w1.map.width == w0.map.width
    &&& w1.map.height == w0.map.height
    &&& w1.shops@.len() == w0.shops@.len()
    &&& shops_kept(w0, w1)
    &&& o1.wf()
    &&& o1.limit == o0.limit
    &&& a1.wf(w1.map.width, w1.map.height)
    &&& (res matches WorkerActionResult::BroughtToShop(inv) ==> received(o0, o1, &inv) && *a1 == *a0
        && *w1 == *w0 && *g1 == *g0)
    &&& (res is Idle ==> gatherer_idle_post(g0, g1, o0, o1, w0, w1, a0, a1))
    &&& (!(res is BroughtToShop) && !(res is Idle) ==> *a1 == *a0 && *w1 == *w0 && *g1 == *g0 && *o1 == *o0)
}

/// One worker's turn at a gatherer: its own tick (`ticked`), then what the gatherer does with
/// the result (`gatherer_after`).
pub open spec fn gatherer_worker_step(
    g0: &GathererBehaviour,
    g1: &GathererBehaviour,
    o0: &Inventory,
    o1: &Inventory,
    w0: &World,
    w1: &World,
    a0: &Worker,
    a1: &Worker,
    home: Pos,
    delta: u64,
) -> bool {
    exists|wm: World, am: Worker, res: WorkerActionResult|
        #[trigger] ticked(w0, &wm, a0, &am, &res, home, delta) && gatherer_after(g0, g1, o0, o1, &wm, w1, &am, a1, &res)
}

/// The workers `ws0` took their turns one after another, becoming `ws1`, through the gatherer
/// states `gs`, outputs `os` and worlds `wds`.
pub open spec fn gatherer_trace(
    gs: Seq<GathererBehaviour>,
    os: Seq<Inventory>,
    wds: Seq<World>,
    ws0: Seq<Worker>,
    ws1: Seq<Worker>,
    home: Pos,
    delta: u64,
) -> bool {
    &&& gs.len() == ws0.len() + 1
    &&& os.len() == ws0.len() + 1
    &&& wds.len() == ws0.len() + 1
    &&& ws1.len() == ws0.len()
    &&& forall|k: int|
        0 <= k < ws0.len() ==> #[trigger] gatherer_worker_step(
            &gs[k],
            &gs[k + 1],
            &os[k],
            &os[k + 1],
            &wds[k],
            &wds[k + 1],
            &ws0[k],
            &ws1[k],
            home,
            delta,
        )
}

impl GathererBehaviour {
    /// What the gatherer does after a worker's tick: goods brought in go to the output; an idle
    /// worker is handled as `gatherer_idle_post` says.
    pub fn after_action(&mut self, output: &mut Inventory, worker: Worker, result: WorkerActionResult, world: &mut World) -> (r: Worker)
        requires
            old(world).wf(),
            old(output).wf(),
            worker.wf(old(world).map.width, old(world).map.height),
            result is Idle ==> worker.kind() == StateKind::Idle,
            result matches WorkerActionResult::BroughtToShop(inv) ==> inv.wf(),
        ensures
            final(world).wf(),
            final(world).map.width == old(world).map.width,
            final(world).map.height == old(world).map.height,
            final(world).shops@.len() == old(world).shops@.len(),
            shops_kept(old(world), final(world)),
            final(output).wf(),
            final(output).limit == old(output).limit,
            r.wf(final(world).map.width, final(world).map.height),
            result matches WorkerActionResult::BroughtToShop(inv) ==> received(old(output), final(output), &inv)
                && r == worker && *final(world) == *old(world) && *final(self) == *old(self),
            result is Idle ==> gatherer_idle_post(old(self), final(self), old(output), final(output), old(world), final(world), &worker, &r),
            !(result is BroughtToShop) && !(result is Idle) ==> r == worker && *final(world) == *old(world)
                && *final(self) == *old(self) && *final(output) == *old(output),
            gatherer_after(old(self), final(self), old(output), final(output), old(world), final(world), &worker, &r, &result),
    {
        match result {
            WorkerActionResult::BroughtToShop(inv) => {
                output.receive(inv);
                worker
            },
            WorkerActionResult::Idle => self.handle_idle(output, worker, world),
            _ => worker,
        }
    }

    /// The gatherer's decision for an idle worker: once the output is full, it is carried to a
    /// store until it is empty; otherwise the worker is sent to gather.
    fn handle_idle(&mut self, output: &mut Inventory, worker: Worker, world: &mut World) -> (r: Worker)
        requires
            old(world).wf(),
            old(output).wf(),
            worker.wf(old(world).map.width, old(world).map.height),
            worker.kind() == StateKind::Idle,
        ensures
            final(world).wf(),
            final(world).map.width == old(world).map.width,
            final(world).map.height == old(world).map.height,
            final(world).shops@.len() == old(world).shops@.len(),
            shops_kept(old(world), final(world)),
            final(output).wf(),
            r.wf(final(world).map.width, final(world).map.height),
            final(self).gathered_resource_types == old(self).gathered_resource_types,
            old(output).spec_is_full() || old(self).storing_all ==> final(self).storing_all == (
            final(output).total() > 0) && r.kind() != StateKind::Gathering,
            !(old(output).spec_is_full() || old(self).storing_all) ==> !final(self).storing_all
                && *final(output) == *old(output) && r.kind() != StateKind::Storing,
            gatherer_idle_post(old(self), final(self), old(output), final(output), old(world), final(world), &worker, &r),
            final(output).limit == old(output).limit,
    {
        if output.is_full() || self.storing_all {
            let r = store_command(worker, world, output);
            self.storing_all = output.total_items() > 0;
            r
        } else {
            gather_command(worker, world, &self.gathered_resource_types)
        }
    }
}

/// Some alternative of `slot` is held in full.
pub open spec fn slot_available(slot: Seq<(InventoryItems, u64)>, inv: &Inventory) -> bool {
    exists|k: int| 0 <= k < slot.len() && inv.count((#[trigger] slot[k]).0) >= slot[k].1
}

/// Every slot of some recipe has an alternative held in full.
pub open spec fn spec_has_enough(receipes: Seq<Receipe>, inv: &Inventory) -> bool {
    exists|r: int|
        #![trigger receipes[r]]
        0 <= r < receipes.len() && forall|s: int|
            0 <= s < receipes[r].input@.len() ==> slot_available(
                #[trigger] receipes[r].input@[s]@,
                inv,
            )
}

/// Some alternative of the slot is held in full.
pub fn has_any_of(receipe_variant_input: &Vec<(InventoryItems, u64)>, current_store: &Inventory) -> (r:
    bool)
    requires
        current_store.wf(),
    ensures
        r == slot_available(receipe_variant_input@, current_store),
{
    let mut k: usize = 0;
    while k < receipe_variant_input.len()
        invariant
            current_store.wf(),
            k <= receipe_variant_input@.len(),
            forall|j: int|
                0 <= j < k ==> current_store.count((#[trigger] receipe_variant_input@[j]).0)
                    < receipe_variant_input@[j].1,
        decreases receipe_variant_input@.len() - k,
    {
        let (key, amount) = receipe_variant_input[k];
        if current_store.get(&key) >= amount {
            assert(receipe_variant_input@[k as int] == (key, amount));
            return true;
        }
        k = k + 1;
    }
    false
}

/// Whether the input holds enough for at least one recipe.
pub fn has_enough_materials(receipes: &Vec<Receipe>, input: &Inventory) -> (r: bool)
    requires
        input.wf(),
    ensures
        r == spec_has_enough(receipes@, input),
{
    let mut i: usize = 0;
    while i < receipes.len()
        invariant
            input.wf(),
            i <= receipes@.len(),
            forall|r: int|
                #![trigger receipes@[r]]
                0 <= r < i ==> !(forall|s: int|
                    0 <= s < receipes@[r].input@.len() ==> slot_available(
                        #[trigger] receipes@[r].input@[s]@,
                        input,
                    )),
        decreases receipes@.len() - i,
    {
        let rec = &receipes[i];
        let mut can_make = true;
        let mut s: usize = 0;
        while s < rec.input.len()
            invariant
                input.wf(),
                s <= rec.input@.len(),
                can_make == forall|t: int|
                    0 <= t < s ==> slot_available(#[trigger] rec.input@[t]@, input),
            decreases rec.input@.len() - s,
        {
            let ok = has_any_of(&rec.input[s], input);
            can_make = can_make && ok;
            s = s + 1;
        }
        if can_make {
            return true;
        }
        i = i + 1;
    }
    false
}

/// How much of an item a producer likes to keep for a recipe that needs `amount` of it: twice
/// that, but at least ten.
pub open spec fn preferred_amount(amount: u64) -> nat {
    let twice: nat = if 2 * amount > u64::MAX {
        u64::MAX as nat
    } else {
        (2 * amount) as nat
    };
    if twice > 10 {
        twice
    } else {
        10
    }
}

/// Some alternative of some slot of some recipe names `x`, and the input holds less of `x`
/// than that alternative's preferred amount.
pub open spec fn lacking(receipes: Seq<Receipe>, input: &Inventory, x: InventoryItems) -> bool {
    exists|r: int, s: int, a: int|
        0 <= r < receipes.len() && 0 <= s < receipes[r].input@.len() && 0 <= a
            < receipes[r].input@[s]@.len() && (#[trigger] receipes[r].input@[s]@[a]).0 == x
            && input.count(x) < preferred_amount(receipes[r].input@[s]@[a].1)
}

/// The items the producer wants more of: exactly those that are `lacking`, each once.
pub fn get_materials_to_supply(receipes: &Vec<Receipe>, input: &Inventory) -> (r: Vec<InventoryItems>)
    requires
        input.wf(),
    ensures
        forall|a: int, b: int| 0 <= a < b < r@.len() ==> r@[a] != r@[b],
        forall|k: int| 0 <= k < r@.len() ==> lacking(receipes@, input, #[trigger] r@[k]),
        forall|x: InventoryItems| lacking(receipes@, input, x) ==> r@.contains(x),
{
    let mut ret: Vec<InventoryItems> = Vec::new();
    let mut i: usize = 0;
    while i < receipes.len()
        invariant
            input.wf(),
            i <= receipes@.len(),
            forall|a: int, b: int| 0 <= a < b < ret@.len() ==> ret@[a] != ret@[b],
            forall|k: int| 0 <= k < ret@.len() ==> lacking(receipes@, input, #[trigger] ret@[k]),
            forall|r: int, s: int, a: int|
                0 <= r < i && 0 <= s < receipes@[r].input@.len() && 0 <= a
                    < receipes@[r].input@[s]@.len() && input.count(
                    (#[trigger] receipes@[r].input@[s]@[a]).0,
                ) < preferred_amount(receipes@[r].input@[s]@[a].1) ==> ret@.contains(
                    receipes@[r].input@[s]@[a].0,
                ),
        decreases receipes@.len() - i,
    {
        let rec = &receipes[i];
        let mut s: usize = 0;
        while s < rec.input.len()
            invariant
                input.wf(),
                i < receipes@.len(),
                *rec == receipes@[i as int],
                s <= rec.input@.len(),
                forall|a: int, b: int| 0 <= a < b < ret@.len() ==> ret@[a] != ret@[b],
                forall|k: int| 0 <= k < ret@.len() ==> lacking(receipes@, input, #[trigger] ret@[k]),
                forall|r: int, s2: int, a: int|
                    (0 <= r < i || (r == i && 0 <= s2 < s)) && 0 <= s2 < receipes@[r].input@.len()
                        && 0 <= a < receipes@[r].input@[s2]@.len() && input.count(
                        (#[trigger] receipes@[r].input@[s2]@[a]).0,
                    ) < preferred_amount(receipes@[r].input@[s2]@[a].1) ==> ret@.contains(
                        receipes@[r].input@[s2]@[a].0,
                    ),
            decreases rec.input@.len() - s,
        {
            let slot = &rec.input[s];
            let mut k: usize = 0;
            while k < slot.len()
                invariant
                    input.wf(),
                    i < receipes@.len(),
                    *rec == receipes@[i as int],
                    s < rec.input@.len(),
                    *slot == rec.input@[s as int],
                    k <= slot@.len(),
                    forall|a: int, b: int| 0 <= a < b < ret@.len() ==> ret@[a] != ret@[b],
                    forall|k: int| 0 <= k < ret@.len() ==> lacking(receipes@, input, #[trigger] ret@[k]),
                    forall|r: int, s2: int, a: int|
                        (0 <= r < i || (r == i && 0 <= s2 < s) || (r == i && s2 == s && 0 <= a < k))
                            && 0 <= s2 < receipes@[r].input@.len() && 0 <= a
                            < receipes@[r].input@[s2]@.len() && input.count(
                            (#[trigger] receipes@[r].input@[s2]@[a]).0,
                        ) < preferred_amount(receipes@[r].input@[s2]@[a].1) ==> ret@.contains(
                            receipes@[r].input@[s2]@[a].0,
                        ),
                decreases slot@.len() - k,
            {
                let (item, amount) = slot[k];
                let twice = amount.saturating_add(amount);
                let preferred = if twice > 10 {
                    twice
                } else {
                    10
                };
                proof {
                    assert(receipes@[i as int].input@[s as int]@[k as int] == (item, amount));
                }
                if input.get(&item) < preferred && !crate::pathfinding::contains_item(&ret, item) {
                    let ghost before = ret@;
                    ret.push(item);
                    proof {
                        assert(lacking(receipes@, input, item));
                        assert forall|k2: int| 0 <= k2 < ret@.len() implies lacking(
                            receipes@,
                            input,
                            #[trigger] ret@[k2],
                        ) by {
                            if k2 < before.len() {
                                assert(ret@[k2] == before[k2]);
                            }
                        }
                        assert forall|x: InventoryItems| before.contains(x) implies ret@.contains(x) by {
                            let w = choose|w: int| 0 <= w < before.len() && before[w] == x;
                            assert(ret@[w] == x);
                        }
                        assert(ret@[ret@.len() - 1] == item);
                    }
                }
                k = k + 1;
            }
            s = s + 1;
        }
        i = i + 1;
    }
    proof {
        assert forall|x: InventoryItems| lacking(receipes@, input, x) implies ret@.contains(x) by {
            let (r, s, a) = choose|r: int, s: int, a: int|
                0 <= r < receipes@.len() && 0 <= s < receipes@[r].input@.len() && 0 <= a
                    < receipes@[r].input@[s]@.len() && (#[trigger] receipes@[r].input@[s]@[a]).0 == x
                    && input.count(x) < preferred_amount(receipes@[r].input@[s]@[a].1);
            assert(input.count(receipes@[r].input@[s]@[a].0) < preferred_amount(
                receipes@[r].input@[s]@[a].1,
            ));
        }
    }
    ret
}

fn copy_pairs(v: &Vec<(InventoryItems, u64)>) -> (r: Vec<(InventoryItems, u64)>)
    ensures
        r@ == v@,
{
    let mut r: Vec<(InventoryItems, u64)> = Vec::new();
    let mut k: usize = 0;
    while k < v.len()
        invariant
            k <= v@.len(),
            r@ == v@.take(k as int),
        decreases v@.len() - k,
    {
        r.push(v[k]);
        k = k + 1;
        assert(r@ =~= v@.take(k as int));
    }
    assert(v@.take(k as int) =~= v@);
    r
}

/// Units of `item` the pairs of `v` name together.
fn bundle_count_of(v: &Vec<(InventoryItems, u64)>, item: InventoryItems) -> (r: u64)
    requires
        bundle_count(v@, item) <= QUANTITY_CEILING,
    ensures
        r == bundle_count(v@, item),
{
    let mut acc: u64 = 0;
    let mut k: usize = 0;
    while k < v.len()
        invariant
            k <= v@.len(),
            bundle_count(v@, item) <= QUANTITY_CEILING,
            acc == bundle_count(v@.take(k as int), item),
        decreases v@.len() - k,
    {
        proof {
            crate::inventory::lemma_bundle_take(v@, k as int, item);
            crate::inventory::lemma_bundle_count_prefix(v@, k as int + 1, item);
        }
        if v[k].0 == item {
            acc = acc + v[k].1;
        }
        k = k + 1;
    }
    assert(v@.take(k as int) =~= v@);
    acc
}

/// The alternative `a` still fits in `inv` after the pairs already `chosen`.
pub open spec fn fits(inv: &Inventory, chosen: Seq<(InventoryItems, u64)>, a: (InventoryItems, u64)) -> bool {
    inv.count(a.0) >= bundle_count(chosen, a.0) + a.1
}

/// The first alternative of `slot`, from index `k` on, that fits.
pub open spec fn first_fit_from(
    slot: Seq<(InventoryItems, u64)>,
    inv: &Inventory,
    chosen: Seq<(InventoryItems, u64)>,
    k: int,
) -> Option<(InventoryItems, u64)>
    decreases slot.len() - k,
{
    if k < 0 || k >= slot.len() {
        None
    } else if fits(inv, chosen, slot[k]) {
        Some(slot[k])
    } else {
        first_fit_from(slot, inv, chosen, k + 1)
    }
}

/// For the first `n` slots in order, the first alternative that fits given the ones picked
/// before it; `None` once some slot has none.
pub open spec fn chosen_inputs(slots: Seq<Vec<(InventoryItems, u64)>>, inv: &Inventory, n: nat) -> Option<
    Seq<(InventoryItems, u64)>,
>
    decreases n,
{
    if n == 0 {
        Some(Seq::empty())
    } else {
        match chosen_inputs(slots, inv, (n - 1) as nat) {
            None => None,
            Some(c) => match first_fit_from(slots[n - 1]@, inv, c, 0) {
                None => None,
                Some(a) => Some(c.push(a)),
            },
        }
    }
}

proof fn lemma_chosen_none_stays(slots: Seq<Vec<(InventoryItems, u64)>>, inv: &Inventory, n: nat, m: nat)
    requires
        n <= m,
        chosen_inputs(slots, inv, n) is None,
    ensures
        chosen_inputs(slots, inv, m) is None,
    decreases m - n,
{
    if n < m {
        lemma_chosen_none_stays(slots, inv, n, (m - 1) as nat);
    }
}

/// Picks, for every slot of `receipe`, the first alternative that the store still holds in
/// full after the alternatives picked for earlier slots; `None` where some slot has none.
pub fn make_produced_receipe_from_variant_receipe(store_inventory: &Inventory, receipe: &Receipe) -> (r:
    Option<ProducedReceipe>)
    requires
        store_inventory.wf(),
    ensures
        r is Some <==> chosen_inputs(receipe.input@, store_inventory, receipe.input@.len()) is Some,
        r matches Some(pr) ==> {
            &&& Some(pr.input@) == chosen_inputs(receipe.input@, store_inventory, receipe.input@.len())
            &&& pr.input@.len() == receipe.input@.len()
            &&& forall|x: InventoryItems| bundle_count(pr.input@, x) <= store_inventory.count(x)
            &&& pr.output@ == receipe.output@
            &&& pr.time_requirement == receipe.time_requirement
        },
{
    let mut chosen: Vec<(InventoryItems, u64)> = Vec::new();
    let mut s: usize = 0;
    while s < receipe.input.len()
        invariant
            store_inventory.wf(),
            s <= receipe.input@.len(),
            chosen@.len() == s,
            chosen_inputs(receipe.input@, store_inventory, s as nat) == Some(chosen@),
            forall|x: InventoryItems| bundle_count(chosen@, x) <= store_inventory.count(x),
        decreases receipe.input@.len() - s,
    {
        let slot = &receipe.input[s];
        let ghost c0 = chosen@;
        let mut picked = false;
        let mut k: usize = 0;
        while k < slot.len() && !picked
            invariant
                store_inventory.wf(),
                k <= slot@.len(),
                !picked ==> chosen@ == c0,
                !picked ==> first_fit_from(slot@, store_inventory, c0, 0) == first_fit_from(
                    slot@,
                    store_inventory,
                    c0,
                    k as int,
                ),
                picked ==> (first_fit_from(slot@, store_inventory, c0, 0) matches Some(a)
                    && chosen@ == c0.push(a)),
                forall|x: InventoryItems| bundle_count(chosen@, x) <= store_inventory.count(x),
                forall|x: InventoryItems| bundle_count(c0, x) <= store_inventory.count(x),
                s < receipe.input@.len(),
                slot@ == receipe.input@[s as int]@,
            decreases slot@.len() - k,
        {
            let (key, amount) = slot[k];
            proof {
                store_inventory.lemma_count_le_total(key);
                assert(slot@[k as int] == (key, amount));
            }
            let have = store_inventory.get(&key);
            let used = bundle_count_of(&chosen, key);
            if used <= have && have - used >= amount {
                let ghost before = chosen@;
                chosen.push((key, amount));
                proof {
                    assert(before =~= chosen@.drop_last());
                    assert forall|x: InventoryItems| bundle_count(chosen@, x) <= store_inventory.count(x) by {
                        assert(chosen@.drop_last() == before);
                    }
                }
                picked = true;
            }
            k = k + 1;
        }
        if !picked {
            proof {
                assert(first_fit_from(slot@, store_inventory, c0, k as int) is None);
                assert(chosen_inputs(receipe.input@, store_inventory, (s + 1) as nat) is None);
                lemma_chosen_none_stays(
                    receipe.input@,
                    store_inventory,
                    (s + 1) as nat,
                    receipe.input@.len() as nat,
                );
            }
            return None;
        }
        s = s + 1;
    }
    let output = copy_pairs(&receipe.output);
    Some(ProducedReceipe { input: chosen, output, time_requirement: receipe.time_requirement })
}

/// What the producer at `pos` does after a worker's tick, as `ProducerBehaviour::after_action`
/// states it, over the producer (`p`), the building's output (`o`) and the world (`w`).
pub open spec fn producer_after(
    p0: &ProducerBehaviour,
    p1: &ProducerBehaviour,
    o0: &Inventory,
    o1: &Inventory,
    pos: Pos,
    w0: &World,
    w1: &World,
    a0: &Worker,
    a1: &Worker,
    res: &WorkerActionResult,
) -> bool {
    &&& w1.wf()
    &&& w1.map.width == w0.map.width
    &&& w1.map.height == w0.map.height
    &&& w1.shops@.len() == w0.shops@.len()
    &&& shops_kept(w0, w1)
    &&& o1.wf()
    &&& p1.input.wf()
    &&& a1.wf(w1.map.width, w1.map.height)
    &&& (res matches WorkerActionResult::BroughtToShop(inv) ==> received(&p0.input, &p1.input, &inv)
        && p1.receipes == p0.receipes && p1.internal_state == p0.internal_state && p1.production_cycle
        == p0.production_cycle && *a1 == *a0 && *w1 == *w0 && *o1 == *o0)
    &&& (res matches WorkerActionResult::ProductionComplete(rec) ==> (forall|x: InventoryItems|
        o0.count(x) <= #[trigger] o1.count(x) <= o0.count(x) + bundle_count(rec.output@, x)) && (o0.total()
        + crate::inventory::bundle_total(rec.output@) <= QUANTITY_CEILING ==> forall|x: InventoryItems|
        #[trigger] o1.count(x) == o0.count(x) + bundle_count(rec.output@, x)) && *p1 == *p0 && *a1 == *a0
        && *w1 == *w0)
    &&& (res is Idle ==> producer_idle_post(p0, p1, o0, o1, pos, w0, w1, a0, a1) && forall|x: InventoryItems|
        #[trigger] p1.input.count(x) <= p0.input.count(x))
    &&& (res is InProgress ==> *a1 == *a0 && *w1 == *w0 && *p1 == *p0 && *o1 == *o0)
}

/// One worker's turn at a producer: its own tick (`ticked`), then `producer_after`.
pub open spec fn producer_worker_step(
    p0: &ProducerBehaviour,
    p1: &ProducerBehaviour,
    o0: &Inventory,
    o1: &Inventory,
    w0: &World,
    w1: &World,
    a0: &Worker,
    a1: &Worker,
    home: Pos,
    delta: u64,
) -> bool {
    exists|wm: World, am: Worker, res: WorkerActionResult|
        #[trigger] ticked(w0, &wm, a0, &am, &res, home, delta) && producer_after(p0, p1, o0, o1, home, &wm, w1, &am, a1, &res)
}

/// The workers `ws0` took their turns one after another, becoming `ws1`, through the producer
/// states `ps`, outputs `os` and worlds `wds`.
pub open spec fn producer_trace(
    ps: Seq<ProducerBehaviour>,
    os: Seq<Inventory>,
    wds: Seq<World>,
    ws0: Seq<Worker>,
    ws1: Seq<Worker>,
    home: Pos,
    delta: u64,
) -> bool {
    &&& ps.len() == ws0.len() + 1
    &&& os.len() == ws0.len() + 1
    &&& wds.len() == ws0.len() + 1
    &&& ws1.len() == ws0.len()
    &&& forall|k: int|
        0 <= k < ws0.len() ==> #[trigger] producer_worker_step(
            &ps[k],
            &ps[k + 1],
            &os[k],
            &os[k + 1],
            &wds[k],
            &wds[k + 1],
            &ws0[k],
            &ws1[k],
            home,
            delta,
        )
}

impl ProducerBehaviour {
    /// One tick of a producer: finished recipes go to the output, supplies to the input, and
    /// idle workers get their next task.
    pub fn process(&mut self, shop_base: &mut BuildingBase, world: &mut World, delta: u64)
        requires
            old(world).wf(),
            old(shop_base).output.wf(),
            in_grid(old(shop_base).pos, old(world).map.width, old(world).map.height),
            workers_wf(old(shop_base).workers@, old(world).map.width, old(world).map.height),
            old(self).input.wf(),
        ensures
            final(world).wf(),
            final(world).map.width == old(world).map.width,
            final(world).map.height == old(world).map.height,
            final(world).shops@.len() >= old(world).shops@.len(),
            shops_kept(old(world), final(world)),
            final(shop_base).output.wf(),
            final(shop_base).pos == old(shop_base).pos,
            final(shop_base).building == old(shop_base).building,
            workers_wf(final(shop_base).workers@, final(world).map.width, final(world).map.height),
            final(self).input.wf(),
            final(shop_base).workers@.len() == old(shop_base).workers@.len(),
            forall|x: InventoryItems|
                #[trigger] final(self).input.count(x) <= old(self).input.count(x) + delivered(old(shop_base).workers@, delta, x),
            exists|ps: Seq<ProducerBehaviour>, os: Seq<Inventory>, wds: Seq<World>|
                #[trigger] producer_trace(ps, os, wds, old(shop_base).workers@, final(shop_base).workers@, old(shop_base).pos, delta)
                    && ps[0] == *old(self) && ps.last() == *final(self) && os[0] == old(shop_base).output
                    && os.last() == final(shop_base).output && wds[0] == *old(world) && wds.last() == *final(world),
    {
        let n = shop_base.workers.len();
        let ghost ws_start = shop_base.workers@;
        let ghost mut ps: Seq<ProducerBehaviour> = seq![*self];
        let ghost mut os: Seq<Inventory> = seq![shop_base.output];
        let ghost mut wds: Seq<World> = seq![*world];
        let ghost mut done: Seq<Worker> = Seq::empty();
        proof {
            assert(ws_start.subrange(0, n as int) + done =~= ws_start);
        }
        let mut k: usize = 0;
        while k < n
            invariant
                world.wf(),
                world.map.width == old(world).map.width,
                world.map.height == old(world).map.height,
                world.shops@.len() >= old(world).shops@.len(),
                shops_kept(old(world), world),
                shop_base.output.wf(),
                shop_base.pos == old(shop_base).pos,
                shop_base.building == old(shop_base).building,
                in_grid(shop_base.pos, world.map.width, world.map.height),
                workers_wf(shop_base.workers@, world.map.width, world.map.height),
                shop_base.workers@.len() == n,
                n == old(shop_base).workers@.len(),
                self.input.wf(),
                k <= n,
                forall|i: int| 0 <= i < n - k ==> #[trigger] shop_base.workers@[i] == old(shop_base).workers@[i + k],
                forall|x: InventoryItems|
                    #[trigger] self.input.count(x) <= old(self).input.count(x) + delivered(old(shop_base).workers@.take(k as int), delta, x),
                ws_start == old(shop_base).workers@,
                ps.len() == k + 1 && os.len() == k + 1 && wds.len() == k + 1 && done.len() == k,
                ps[0] == *old(self) && ps[k as int] == *self,
                os[0] == old(shop_base).output && os[k as int] == shop_base.output,
                wds[0] == *old(world) && wds[k as int] == *world,
                shop_base.workers@ == ws_start.subrange(k as int, n as int) + done,
                forall|j: int|
                    0 <= j < k ==> #[trigger] producer_worker_step(
                        &ps[j],
                        &ps[j + 1],
                        &os[j],
                        &os[j + 1],
                        &wds[j],
                        &wds[j + 1],
                        &ws_start[j],
                        &done[j],
                        shop_base.pos,
                        delta,
                    ),
            decreases n - k,
        {
            let ghost ws = shop_base.workers@;
            let ghost in0 = self.input;
            let ghost out0 = shop_base.output;
            let w = shop_base.workers.remove(0);
            proof {
                assert(ws[0].wf(world.map.width, world.map.height));
                assert forall|i: int| 0 <= i < shop_base.workers@.len() implies (
                #[trigger] shop_base.workers@[i]).wf(world.map.width, world.map.height) by {
                    assert(shop_base.workers@[i] == ws[i + 1]);
                }
            }
            let ghost w0 = w;
            let ghost p_before = *self;
            let ghost world_before = *world;
            let (w, result) = w.continue_action(shop_base.pos, delta, world, false);
            let ghost w1 = w;
            let ghost wm = *world;
            let ghost res = result;
            let w = self.after_action(shop_base, w, result, world);
            proof {
                assert(ticked(&world_before, &wm, &w0, &w1, &res, shop_base.pos, delta));
                assert(producer_worker_step(&p_before, self, &out0, &shop_base.output, &world_before, world, &w0, &w, shop_base.pos, delta));
                let ghost ps0 = ps;
                let ghost os0 = os;
                let ghost wds0 = wds;
                let ghost done0 = done;
                ps = ps.push(*self);
                os = os.push(shop_base.output);
                wds = wds.push(*world);
                done = done.push(w);
                assert forall|j: int|
                    0 <= j < k + 1 implies #[trigger] producer_worker_step(
                        &ps[j],
                        &ps[j + 1],
                        &os[j],
                        &os[j + 1],
                        &wds[j],
                        &wds[j + 1],
                        &ws_start[j],
                        &done[j],
                        shop_base.pos,
                        delta,
                    ) by {
                    if j < k {
                        assert(ps[j] == ps0[j] && ps[j + 1] == ps0[j + 1]);
                        assert(os[j] == os0[j] && os[j + 1] == os0[j + 1]);
                        assert(wds[j] == wds0[j] && wds[j + 1] == wds0[j + 1]);
                        assert(done[j] == done0[j]);
                    } else {
                        assert(ws_start[j] == w0);
                    }
                }
            }
            let ghost ws2 = shop_base.workers@;
            shop_base.workers.push(w);
            proof {
                assert(shop_base.workers@ =~= ws_start.subrange(k as int + 1, n as int) + done);
                assert forall|i: int| 0 <= i < shop_base.workers@.len() implies (
                #[trigger] shop_base.workers@[i]).wf(world.map.width, world.map.height) by {
                    if i < ws2.len() {
                        assert(shop_base.workers@[i] == ws2[i]);
                    }
                }
                assert forall|i: int| 0 <= i < n - (k + 1) implies #[trigger] shop_base.workers@[i] == old(shop_base).workers@[i + k + 1] by {
                    assert(shop_base.workers@[i] == ws2[i]);
                    assert(ws2[i] == ws[i + 1]);
                }
                assert(w0 == old(shop_base).workers@[k as int]);
                assert forall|x: InventoryItems| #[trigger] self.input.count(x) <= old(self).input.count(x) + delivered(old(shop_base).workers@.take(k + 1), delta, x) by {
                    lemma_delivered_take(old(shop_base).workers@, delta, k as int, x);
                    assert(self.input.count(x) <= in0.count(x) + delivering(&w0, delta, x));
                }
            }
            k = k + 1;
        }
        proof {
            assert(old(shop_base).workers@.take(n as int) =~= old(shop_base).workers@);
            assert(shop_base.workers@ =~= done);
            assert(producer_trace(ps, os, wds, old(shop_base).workers@, shop_base.workers@, old(shop_base).pos, delta));
        }
    }

    /// What the producer does after a worker's tick: goods brought in go to the input, a
    /// finished recipe's output goes to the building's output, and an idle worker is handled as
    /// `producer_idle_post` says.
    pub fn after_action(&mut self, shop_base: &mut BuildingBase, worker: Worker, result: WorkerActionResult, world: &mut World) -> (r:
        Worker)
        requires
            old(world).wf(),
            old(shop_base).output.wf(),
            in_grid(old(shop_base).pos, old(world).map.width, old(world).map.height),
            worker.wf(old(world).map.width, old(world).map.height),
            old(self).input.wf(),
            result is Idle ==> worker.kind() == StateKind::Idle,
            result matches WorkerActionResult::BroughtToShop(inv) ==> inv.wf(),
        ensures
            final(world).wf(),
            final(world).map.width == old(world).map.width,
            final(world).map.height == old(world).map.height,
            final(world).shops@.len() == old(world).shops@.len(),
            shops_kept(old(world), final(world)),
            final(shop_base).output.wf(),
            final(shop_base).pos == old(shop_base).pos,
            final(shop_base).building == old(shop_base).building,
            final(shop_base).workers == old(shop_base).workers,
            r.wf(final(world).map.width, final(world).map.height),
            final(self).input.wf(),
            result matches WorkerActionResult::BroughtToShop(inv) ==> received(
                &old(self).input,
                &final(self).input,
                &inv,
            ) && r == worker && *final(world) == *old(world) && *final(shop_base) == *old(shop_base),
            result matches WorkerActionResult::ProductionComplete(rec) ==> {
                &&& forall|x: InventoryItems|
                    old(shop_base).output.count(x) <= #[trigger] final(shop_base).output.count(x)
                        <= old(shop_base).output.count(x) + bundle_count(rec.output@, x)
                &&& old(shop_base).output.total() + crate::inventory::bundle_total(rec.output@)
                    <= QUANTITY_CEILING ==> forall|x: InventoryItems|
                    #[trigger] final(shop_base).output.count(x) == old(shop_base).output.count(x)
                        + bundle_count(rec.output@, x)
                &&& *final(self) == *old(self) && r == worker && *final(world) == *old(world)
            },
            result is Idle ==> producer_idle_post(old(self), final(self), &old(shop_base).output, &final(shop_base).output, old(shop_base).pos, old(world), final(world), &worker, &r),
            result is Idle ==> forall|x: InventoryItems| #[trigger] final(self).input.count(x) <= old(self).input.count(x),
            result is InProgress ==> r == worker && *final(world) == *old(world) && *final(self) == *old(self)
                && *final(shop_base) == *old(shop_base),
            result is BroughtToShop ==> final(self).receipes == old(self).receipes && final(self).internal_state
                == old(self).internal_state && final(self).production_cycle == old(self).production_cycle,
            producer_after(old(self), final(self), &old(shop_base).output, &final(shop_base).output, old(shop_base).pos, old(world), final(world), &worker, &r, &result),
    {
        match result {
            WorkerActionResult::InProgress => worker,
            WorkerActionResult::BroughtToShop(inv) => {
                self.input.receive(inv);
                worker
            },
            WorkerActionResult::ProductionComplete(receipe) => {
                shop_base.output.add_range(&receipe.output);
                worker
            },
            WorkerActionResult::Idle => self.handle_idle(shop_base, worker, world),
        }
    }

    /// The producer's decision for an idle worker: store a full output until it is empty;
    /// fetch what the recipes want until nothing more can be had; then produce recipes in turn
    /// while the input allows one.
    fn handle_idle(&mut self, shop_base: &mut BuildingBase, worker: Worker, world: &mut World) -> (r:
        Worker)
        requires
            old(world).wf(),
            old(shop_base).output.wf(),
            in_grid(old(shop_base).pos, old(world).map.width, old(world).map.height),
            worker.wf(old(world).map.width, old(world).map.height),
            worker.kind() == StateKind::Idle,
            old(self).input.wf(),
        ensures
            final(world).wf(),
            final(world).map.width == old(world).map.width,
            final(world).map.height == old(world).map.height,
            final(world).shops@.len() == old(world).shops@.len(),
            shops_kept(old(world), final(world)),
            final(shop_base).output.wf(),
            final(shop_base).pos == old(shop_base).pos,
            final(shop_base).building == old(shop_base).building,
            final(shop_base).workers == old(shop_base).workers,
            final(self).receipes == old(self).receipes,
            !producer_busy(old(self), &old(shop_base).output) && old(self).internal_state
                == InternalProducerState::Supplying ==> final(self).input == old(self).input,
            !producer_busy(old(self), &old(shop_base).output) && old(self).internal_state
                == InternalProducerState::Supplying && (forall|x: InventoryItems|
                !#[trigger] lacking(old(self).receipes@, &old(self).input, x)) ==> final(self).internal_state
                == InternalProducerState::Producing && r == worker && *final(world) == *old(world),
            !producer_busy(old(self), &old(shop_base).output) && old(self).internal_state
                == InternalProducerState::Producing && !spec_has_enough(old(self).receipes@, &old(self).input)
                ==> final(self).internal_state == InternalProducerState::Storing && r == worker,
            !producer_busy(old(self), &old(shop_base).output) && old(self).internal_state
                == InternalProducerState::Producing && spec_has_enough(old(self).receipes@, &old(self).input)
                ==> produced_next(old(self), final(self), &worker, &r),
            producer_idle_post(old(self), final(self), &old(shop_base).output, &final(shop_base).output, old(shop_base).pos, old(world), final(world), &worker, &r),
            r.wf(final(world).map.width, final(world).map.height),
            final(self).input.wf(),
            forall|x: InventoryItems| #[trigger] final(self).input.count(x) <= old(self).input.count(x),
            old(self).internal_state == InternalProducerState::Storing || old(
                shop_base,
            ).output.spec_is_full() ==> final(self).internal_state == InternalProducerState::Storing
                || final(self).internal_state == InternalProducerState::Supplying,
            !old(shop_base).output.spec_is_full() && old(self).internal_state
                == InternalProducerState::Supplying ==> final(self).internal_state
                == InternalProducerState::Supplying || final(self).internal_state
                == InternalProducerState::Producing,
            !old(shop_base).output.spec_is_full() && old(self).internal_state
                == InternalProducerState::Producing ==> final(self).internal_state
                == InternalProducerState::Producing || final(self).internal_state
                == InternalProducerState::Storing,
            r.kind() == StateKind::Producing && worker.kind() != StateKind::Producing ==> old(
                self,
            ).internal_state == InternalProducerState::Producing,
    {
        let mut worker = worker;
        if shop_base.output.is_full() || self.internal_state == InternalProducerState::Storing {
            self.internal_state = InternalProducerState::Storing;
            worker = store_command(worker, world, &mut shop_base.output);
            if shop_base.output.is_empty() {
                self.internal_state = InternalProducerState::Supplying;
            }
            return worker;
        }
        if self.internal_state == InternalProducerState::Supplying {
            let materials = get_materials_to_supply(&self.receipes, &self.input);
            if materials.len() == 0 {
                proof {
                    assert forall|x: InventoryItems| !#[trigger] lacking(self.receipes@, &self.input, x) by {
                        if lacking(self.receipes@, &self.input, x) {
                            assert(materials@.contains(x));
                        }
                    }
                }
                self.internal_state = InternalProducerState::Producing;
                return worker;
            }
            proof {
                assert(lacking(self.receipes@, &self.input, materials@[0]));
                assert forall|x: InventoryItems| #[trigger] materials@.contains(x) <==> lacking(self.receipes@, &self.input, x) by {
                    if materials@.contains(x) {
                        let k = choose|k: int| 0 <= k < materials@.len() && materials@[k] == x;
                        assert(lacking(self.receipes@, &self.input, materials@[k]));
                    }
                }
            }
            let ghost items = materials@;
            worker = supply_command(worker, shop_base.pos, world, materials, 1);
            if worker.state_kind() == StateKind::Idle && has_enough_materials(&self.receipes, &self.input) {
                self.internal_state = InternalProducerState::Producing;
            }
            return worker;
        }
        if !has_enough_materials(&self.receipes, &self.input) {
            self.internal_state = InternalProducerState::Storing;
            return worker;
        }
        let count = self.receipes.len();
        if count == 0 {
            return worker;
        }
        let idx = self.production_cycle % count;
        self.production_cycle = (idx + 1) % count;
        let produced = match make_produced_receipe_from_variant_receipe(&self.input, &self.receipes[idx]) {
            Some(pr) => pr,
            None => {
                return worker;
            },
        };
        if worker.state_kind() != StateKind::Idle {
            return worker;
        }
        let ghost before = self.input;
        self.input.remove_range(&produced.input);
        proof {
            assert forall|x: InventoryItems| #[trigger] self.input.count(x) <= before.count(x) by {}
        }
        produce_command(worker, produced)
    }
}

/// The producer's decision for an idle worker `a0`, over producer, building base and world
/// before (`0`) and after (`1`):
/// - with a full output or while emptying it, the worker takes what it can of the output to a
///   store, and the producer goes back to fetching once the output is empty;
/// - while fetching, the worker is sent for one of the items the producer lacks, and with
///   nothing lacking the producer switches to producing;
/// - while producing, the next recipe in turn is started if the input allows one, and with
///   nothing makeable the producer switches to emptying its output.
pub open spec fn producer_idle_post(
    p0: &ProducerBehaviour,
    p1: &ProducerBehaviour,
    o0: &Inventory,
    o1: &Inventory,
    pos: Pos,
    w0: &World,
    w1: &World,
    a0: &Worker,
    a1: &Worker,
) -> bool {
    &&& p1.receipes == p0.receipes
    &&& producer_busy(p0, o0) ==> {
        &&& p1.input == p0.input
        &&& *w1 == *w0
        &&& forall|x: InventoryItems|
            #[trigger] o1.count(x) + a1.inventory.count(x) == o0.count(x) + a0.inventory.count(x)
        &&& p1.internal_state == (if o1.total() == 0 {
            InternalProducerState::Supplying
        } else {
            InternalProducerState::Storing
        })
    }
    &&& !producer_busy(p0, o0) && p0.internal_state == InternalProducerState::Supplying ==> {
        &&& p1.input == p0.input
        &&& *o1 == *o0
        &&& (forall|x: InventoryItems| !#[trigger] lacking(p0.receipes@, &p0.input, x)) ==> p1.internal_state
            == InternalProducerState::Producing && *a1 == *a0 && *w1 == *w0
        &&& (exists|x: InventoryItems| #[trigger] lacking(p0.receipes@, &p0.input, x)) ==> exists|
            items: Seq<InventoryItems>,
        |
            (forall|x: InventoryItems| #[trigger] items.contains(x) <==> lacking(p0.receipes@, &p0.input, x))
                && #[trigger] supplied(w0, w1, a0, a1, pos, items, 1)
    }
    &&& !producer_busy(p0, o0) && p0.internal_state == InternalProducerState::Producing
        && !spec_has_enough(p0.receipes@, &p0.input) ==> p1.internal_state
        == InternalProducerState::Storing && *a1 == *a0 && *w1 == *w0 && p1.input == p0.input
    &&& !producer_busy(p0, o0) && p0.internal_state == InternalProducerState::Producing
        && spec_has_enough(p0.receipes@, &p0.input) ==> produced_next(p0, p1, a0, a1) && *w1 == *w0
        && *o1 == *o0
}

/// The output is full, or the producer is emptying it.
pub open spec fn producer_busy(pb: &ProducerBehaviour, output: &Inventory) -> bool {
    output.spec_is_full() || pb.internal_state == InternalProducerState::Storing
}

/// A producer that can make something takes the next recipe in its rotation: the rotation
/// index moves on by one, and if that recipe's inputs can be chosen the worker starts making
/// it and the chosen inputs leave the input; otherwise nothing else changes. The inputs are
/// taken when production starts, as a reservation made at command time, so that a second
/// worker of the same building can never be handed goods already promised to the first.
pub open spec fn produced_next(p0: &ProducerBehaviour, p1: &ProducerBehaviour, a0: &Worker, a1: &Worker) -> bool {
    let n = p0.receipes@.len() as int;
    let idx = p0.production_cycle as int % n;
    let rec = p0.receipes@[idx];
    &&& p1.production_cycle as int == (idx + 1) % n
    &&& p1.internal_state == InternalProducerState::Producing
    &&& match chosen_inputs(rec.input@, &p0.input, rec.input@.len()) {
        Some(c) => (a1.state matches WorkerState::Producing(t, pr) && pr.input@ == c && pr.output@
            == rec.output@ && t.progress == 0 && t.requirement == rec.time_requirement)
            && forall|x: InventoryItems|
            #[trigger] p1.input.count(x) == p0.input.count(x) - bundle_count(c, x),
        None => *a1 == *a0 && p1.input == p0.input,
    }
}

/// Takes a finished recipe's inputs out of the producer's input and puts its outputs in the
/// building's output.
pub fn handle_poruction_complete(shop_input: &mut Inventory, shop_output: &mut Inventory, receipe: &ProducedReceipe)
    requires
        old(shop_input).wf(),
        old(shop_output).wf(),
        forall|x: InventoryItems| bundle_count(receipe.input@, x) <= old(shop_input).count(x),
    ensures
        final(shop_input).wf(),
        final(shop_output).wf(),
        forall|x: InventoryItems|
            #[trigger] final(shop_input).count(x) == old(shop_input).count(x) - bundle_count(
                receipe.input@,
                x,
            ),
        forall|x: InventoryItems|
            old(shop_output).count(x) <= #[trigger] final(shop_output).count(x) <= old(shop_output).count(x)
                + bundle_count(receipe.output@, x),
{
    shop_input.remove_range(&receipe.input);
    shop_output.add_range(&receipe.output);
}

} // verus!
