use vstd::prelude::*;

use crate::actions::BasicAction;
use crate::building::{building_step, fuel_bounded, make_building, Building, BuildingBehaviour};
use crate::config::Buildings;
use crate::inventory::Inventory;
use crate::items::InventoryItems;
use crate::math::{in_grid, Pos};
use crate::pathfinding::{a_star, reachable, valid_path};
use crate::world_map::{TileType, WorldMap};

verus! {

/// The footprint of a building: its top-left corner and its size.
#[derive(Clone, Copy, Debug, PartialEq, Eq, Structural)]
pub struct Structure {
    pub pos: Pos,
    pub height: u8,
    pub width: u8,
}

impl Structure {
    pub open spec fn fits(&self, w: usize, h: usize) -> bool {
        &&& 1 <= self.width
        &&& 1 <= self.height
        &&& self.pos.x + self.width <= w
        &&& self.pos.y + self.height <= h
    }
}

/// A building under construction: what it needs, what has been brought, and the time it
/// still takes once everything is there.
pub struct BuildZone {
    pub progress: BasicAction,
    pub materials_delivered: Inventory,
    pub materials_required: Vec<(InventoryItems, u64)>,
    pub building: Buildings,
    pub site: Structure,
}

/// Every required material has been brought in full.
pub open spec fn delivery_complete(z: &BuildZone) -> bool {
    forall|k: int|
        0 <= k < z.materials_required@.len() ==> z.materials_delivered.count(
            (#[trigger] z.materials_required@[k]).0,
        ) >= z.materials_required@[k].1
}

impl BuildZone {
    pub open spec fn wf(&self, w: usize, h: usize) -> bool {
        &&& self.materials_delivered.wf()
        &&& self.site.fits(w, h)
        &&& self.building.is_configured()
    }

    /// A construction site for `building` with its top-left corner at `pos`.
    pub fn new(building: Buildings, pos: Pos) -> (r: Option<BuildZone>)
        ensures
            r is Some <==> building.is_configured(),
            r matches Some(z) ==> z.building == building && z.site.pos == pos
                && z.materials_delivered.total() == 0 && z.materials_delivered.wf()
                && z.progress.progress == 0 && 1 <= z.site.width && 1 <= z.site.height,
    {
        match building.get_data() {
            Some(data) => Some(
                BuildZone {
                    progress: BasicAction::new(data.build_time),
                    materials_delivered: Inventory::new(),
                    materials_required: data.build_materials,
                    building,
                    site: Structure { pos, height: data.height, width: data.width },
                },
            ),
            None => None,
        }
    }

    pub fn is_delivery_complete(&self) -> (r: bool)
        requires
            self.materials_delivered.wf(),
        ensures
            r == delivery_complete(self),
    {
        let mut k: usize = 0;
        while k < self.materials_required.len()
            invariant
                self.materials_delivered.wf(),
                k <= self.materials_required@.len(),
                forall|j: int|
                    0 <= j < k ==> self.materials_delivered.count(
                        (#[trigger] self.materials_required@[j]).0,
                    ) >= self.materials_required@[j].1,
            decreases self.materials_required@.len() - k,
        {
            let (item, amount) = self.materials_required[k];
            if self.materials_delivered.get(&item) < amount {
                assert(self.materials_required@[k as int].0 == item);
                return false;
            }
            k = k + 1;
        }
        true
    }
}

/// Which buildings a search for the closest one considers.
pub enum ShopFilter {
    Store,
    Hearth,
    /// Holds at least the given quantity of one of the items.
    HoldsAnyOf(Vec<InventoryItems>, u64),
    /// A store holding at least one unit of an item the list names.
    StoreWithAnyOf(Vec<(InventoryItems, u64)>),
}

pub open spec fn filter_accepts(f: &ShopFilter, b: &Building) -> bool {
    match f {
        ShopFilter::Store => b.building_behaviour is Store,
        ShopFilter::Hearth => b.building_behaviour is Hearth,
        ShopFilter::HoldsAnyOf(items, min) => holds_some(&b.building_base.output, items@, *min),
        ShopFilter::StoreWithAnyOf(list) => b.building_behaviour is Store && holds_one_of(
            &b.building_base.output,
            list@,
        ),
    }
}

/// `inv` holds at least `min` units of one of `items`.
pub open spec fn holds_some(inv: &Inventory, items: Seq<InventoryItems>, min: u64) -> bool {
    exists|k: int| 0 <= k < items.len() && inv.count(#[trigger] items[k]) >= min
}

/// `inv` holds at least one unit of an item that `list` names.
pub open spec fn holds_one_of(inv: &Inventory, list: Seq<(InventoryItems, u64)>) -> bool {
    exists|k: int| 0 <= k < list.len() && inv.count((#[trigger] list[k]).0) >= 1
}

fn holds_one_of_exec(inv: &Inventory, list: &Vec<(InventoryItems, u64)>) -> (r: bool)
    requires
        inv.wf(),
    ensures
        r == holds_one_of(inv, list@),
{
    let mut k: usize = 0;
    while k < list.len()
        invariant
            inv.wf(),
            k <= list@.len(),
            forall|j: int| 0 <= j < k ==> inv.count((#[trigger] list@[j]).0) < 1,
        decreases list@.len() - k,
    {
        if inv.get(&list[k].0) >= 1 {
            assert(inv.count(list@[k as int].0) >= 1);
            return true;
        }
        k = k + 1;
    }
    false
}

impl ShopFilter {
    pub fn accepts(&self, b: &Building) -> (r: bool)
        requires
            b.building_base.output.wf(),
        ensures
            r == filter_accepts(self, b),
    {
        match self {
            ShopFilter::Store => match b.building_behaviour {
                BuildingBehaviour::Store(_) => true,
                _ => false,
            },
            ShopFilter::Hearth => match b.building_behaviour {
                BuildingBehaviour::Hearth(_) => true,
                _ => false,
            },
            ShopFilter::HoldsAnyOf(items, min) => holds_any_of(&b.building_base.output, items, *min),
            ShopFilter::StoreWithAnyOf(list) => match b.building_behaviour {
                BuildingBehaviour::Store(_) => holds_one_of_exec(&b.building_base.output, list),
                _ => false,
            },
        }
    }
}

/// Whether `inv` holds at least `min` units of one of `items`.
pub fn holds_any_of(inv: &Inventory, items: &Vec<InventoryItems>, min: u64) -> (r: bool)
    requires
        inv.wf(),
    ensures
        r == exists|k: int| 0 <= k < items@.len() && inv.count(#[trigger] items@[k]) >= min,
{
    let mut k: usize = 0;
    while k < items.len()
        invariant
            inv.wf(),
            k <= items@.len(),
            forall|j: int| 0 <= j < k ==> inv.count(#[trigger] items@[j]) < min,
        decreases items@.len() - k,
    {
        if inv.get(&items[k]) >= min {
            assert(inv.count(items@[k as int]) >= min);
            return true;
        }
        k = k + 1;
    }
    false
}

/// The simulated world: the map, the placed buildings, and the construction sites waiting for
/// a builder.
pub struct World {
    pub map: WorldMap,
    pub shops: Vec<Building>,
    pub build_zones: Vec<BuildZone>,
    pub frame_number: u64,
}

/// The buildings of `w0` keep their place in the list, their position, kind, behaviour and
/// workers in `w1` (only their outputs may change); new ones only come after them.
pub open spec fn shops_kept(w0: &World, w1: &World) -> bool {
    &&& w1.shops@.len() >= w0.shops@.len()
    &&& forall|j: int|
        0 <= j < w0.shops@.len() ==> (#[trigger] w1.shops@[j]).building_base.pos
            == w0.shops@[j].building_base.pos && w1.shops@[j].building_base.building
            == w0.shops@[j].building_base.building && w1.shops@[j].building_behaviour
            == w0.shops@[j].building_behaviour && w1.shops@[j].building_base.workers
            == w0.shops@[j].building_base.workers
}

/// A `size` footprint at `pos` fits inside the map, clear of its last row and column, and
/// covers empty tiles only.
pub open spec fn footprint_free(map: &WorldMap, pos: Pos, size: (u8, u8)) -> bool {
    &&& pos.y + size.1 < map.height
    &&& pos.x + size.0 < map.width
    &&& forall|q: Pos|
        #![trigger map.tile(q)]
        WorldMap::in_rect(q, pos, size.0 as int, size.1 as int) ==> map.tile(q) == TileType::Empty
}

/// The turns of one tick, from `w0` to the buildings `shops1` on map `map1` with sites
/// `zones1`: at turn `k` the building at the front, `bb[k]` (the `k`-th building of `w0`, whose
/// behaviour and workers nobody else touches), is taken out of the world, which is then `wb[k]`;
/// its own tick (`building_step`) leaves it as `ba[k]` and the world as `wa[k]`; it is put back
/// at the end, and the next turn starts from there.
pub open spec fn tick_turns(
    w0: &World,
    shops1: Seq<Building>,
    map1: WorldMap,
    zones1: Vec<BuildZone>,
    bb: Seq<Building>,
    ba: Seq<Building>,
    wb: Seq<World>,
    wa: Seq<World>,
    delta: u64,
) -> bool {
    let n = w0.shops@.len();
    &&& bb.len() == n && ba.len() == n && wb.len() == n && wa.len() == n
    &&& forall|k: int| 0 <= k < n ==> #[trigger] building_step(&bb[k], &ba[k], &wb[k], &wa[k], delta)
    &&& forall|k: int|
        0 <= k < n ==> same_place(&#[trigger] bb[k], &w0.shops@[k]) && bb[k].building_behaviour
            == w0.shops@[k].building_behaviour && bb[k].building_base.workers
            == w0.shops@[k].building_base.workers
    &&& n > 0 ==> wb[0].shops@ == w0.shops@.drop_first() && wb[0].map == w0.map && wb[0].build_zones
        == w0.build_zones
    &&& forall|k: int|
        0 <= k < n - 1 ==> (#[trigger] wb[k + 1]).shops@ == wa[k].shops@.push(ba[k]).drop_first()
            && wb[k + 1].map == wa[k].map && wb[k + 1].build_zones == wa[k].build_zones
    &&& n > 0 ==> shops1 == wa[n - 1].shops@.push(ba[n - 1]) && map1 == wa[n - 1].map && zones1
        == wa[n - 1].build_zones
    &&& n == 0 ==> shops1 == w0.shops@ && map1 == w0.map && zones1 == w0.build_zones
}

/// Same position and kind.
pub open spec fn same_place(a: &Building, b: &Building) -> bool {
    a.building_base.pos == b.building_base.pos && a.building_base.building == b.building_base.building
}

/// Where the building at place `j` stood before `k` turns of a rotation of `n` places.
pub open spec fn rotated(j: int, k: int, n: int) -> int {
    if j < n - k {
        j + k
    } else {
        j - (n - k)
    }
}

/// Output capacity of a freshly built building.
pub const OUTPUT_LIMIT: u64 = 10;

#[derive(Clone, Copy, Debug, PartialEq, Eq, Structural)]
pub enum BuildMethod {
    SpawnExisting,
    SpawnBuildZone,
}

impl World {
    pub open spec fn wf(&self) -> bool {
        &&& self.map.wf()
        &&& forall|i: int|
            0 <= i < self.shops@.len() ==> (#[trigger] self.shops@[i]).wf(
                self.map.width,
                self.map.height,
            )
        &&& forall|i: int|
            0 <= i < self.build_zones@.len() ==> (#[trigger] self.build_zones@[i]).wf(
                self.map.width,
                self.map.height,
            )
    }

    /// Quantity of `item` in the output of building `j`.
    pub open spec fn stock(&self, j: int, item: InventoryItems) -> nat {
        self.shops@[j].building_base.output.count(item)
    }

    /// A world with nothing built on `map`.
    pub fn new(map: WorldMap) -> (r: World)
        requires
            map.wf(),
        ensures
            r.wf(),
            r.map == map,
            r.shops@.len() == 0,
            r.build_zones@.len() == 0,
            r.frame_number == 0,
    {
        World { map, shops: Vec::new(), build_zones: Vec::new(), frame_number: 0 }
    }

    /// Advances every building once, in a fixed rotation: each is taken off the front of the
    /// list, processed against the rest of the world, and put back at the end.
    pub fn next_tick(&mut self, delta: u64)
        requires
            old(self).wf(),
        ensures
            final(self).wf(),
            final(self).map.width == old(self).map.width,
            final(self).map.height == old(self).map.height,
            final(self).shops@.len() >= old(self).shops@.len(),
            final(self).frame_number == crate::actions::sat_add(old(self).frame_number, 1),
            final(self).shops@.len() == old(self).shops@.len() ==> forall|j: int|
                0 <= j < old(self).shops@.len() ==> same_place(
                    &(#[trigger] final(self).shops@[j]),
                    &old(self).shops@[j],
                ) && fuel_bounded(&old(self).shops@[j], &final(self).shops@[j], delta),
            exists|bb: Seq<Building>, ba: Seq<Building>, wb: Seq<World>, wa: Seq<World>|
                #[trigger] tick_turns(
                    old(self),
                    final(self).shops@,
                    final(self).map,
                    final(self).build_zones,
                    bb,
                    ba,
                    wb,
                    wa,
                    delta,
                ),
    {
        let frame = self.frame_number;
        let n = self.shops.len();
        let ghost orig = self.shops@;
        let ghost w_start = *self;
        let ghost mut bb: Seq<Building> = Seq::empty();
        let ghost mut ba: Seq<Building> = Seq::empty();
        let ghost mut wb: Seq<World> = Seq::empty();
        let ghost mut wa: Seq<World> = Seq::empty();
        let mut k: usize = 0;
        while k < n
            invariant
                self.wf(),
                self.map.width == old(self).map.width,
                self.map.height == old(self).map.height,
                self.shops@.len() >= n,
                frame == old(self).frame_number,
                k <= n,
                n == orig.len(),
                orig == old(self).shops@,
                self.shops@.len() == n ==> forall|j: int|
                    0 <= j < n ==> same_place(
                        &(#[trigger] self.shops@[j]),
                        &orig[rotated(j, k as int, n as int)],
                    ) && (n - k <= j ==> fuel_bounded(&orig[rotated(j, k as int, n as int)], &self.shops@[j], delta)),
                forall|j: int|
                    0 <= j < n - k ==> (#[trigger] self.shops@[j]).building_behaviour == orig[j
                        + k].building_behaviour && self.shops@[j].building_base.workers == orig[j
                        + k].building_base.workers && same_place(&self.shops@[j], &orig[j + k]),
                w_start == *old(self),
                bb.len() == k && ba.len() == k && wb.len() == k && wa.len() == k,
                forall|i: int| 0 <= i < k ==> #[trigger] building_step(&bb[i], &ba[i], &wb[i], &wa[i], delta),
                forall|i: int|
                    0 <= i < k ==> same_place(&#[trigger] bb[i], &orig[i]) && bb[i].building_behaviour
                        == orig[i].building_behaviour && bb[i].building_base.workers
                        == orig[i].building_base.workers,
                k > 0 ==> wb[0].shops@ == orig.drop_first() && wb[0].map == w_start.map && wb[0].build_zones
                    == w_start.build_zones,
                forall|i: int|
                    0 <= i < k - 1 ==> (#[trigger] wb[i + 1]).shops@ == wa[i].shops@.push(ba[i]).drop_first()
                        && wb[i + 1].map == wa[i].map && wb[i + 1].build_zones == wa[i].build_zones,
                k > 0 ==> self.shops@ == wa[k - 1].shops@.push(ba[k - 1]) && self.map == wa[k - 1].map
                    && self.build_zones == wa[k - 1].build_zones,
                k == 0 ==> self.shops@ == orig && self.map == w_start.map && self.build_zones == w_start.build_zones,
            decreases n - k,
        {
            let ghost prev = self.shops@;
            let mut shop = self.shops.remove(0);
            proof {
                assert(prev[0].wf(self.map.width, self.map.height));
                assert forall|i: int| 0 <= i < self.shops@.len() implies (#[trigger] self.shops@[i]).wf(
                    self.map.width,
                    self.map.height,
                ) by {
                    assert(self.shops@[i] == prev[i + 1]);
                }
            }
            let ghost removed = self.shops@;
            let ghost b_in = shop;
            let ghost w_in = *self;
            proof {
                assert(removed =~= prev.drop_first());
            }
            shop.process(self, delta);
            let ghost mid = self.shops@;
            proof {
                let ghost bb0 = bb;
                let ghost ba0 = ba;
                let ghost wb0 = wb;
                let ghost wa0 = wa;
                bb = bb.push(b_in);
                ba = ba.push(shop);
                wb = wb.push(w_in);
                wa = wa.push(*self);
                assert forall|i: int| 0 <= i < k + 1 implies #[trigger] building_step(&bb[i], &ba[i], &wb[i], &wa[i], delta) by {
                    if i < k {
                        assert(bb[i] == bb0[i] && ba[i] == ba0[i] && wb[i] == wb0[i] && wa[i] == wa0[i]);
                    }
                }
                assert forall|i: int|
                    0 <= i < k + 1 implies same_place(&#[trigger] bb[i], &orig[i]) && bb[i].building_behaviour
                        == orig[i].building_behaviour && bb[i].building_base.workers
                        == orig[i].building_base.workers by {
                    if i < k {
                        assert(bb[i] == bb0[i]);
                    } else {
                        assert(b_in == prev[0]);
                    }
                }
                assert forall|i: int|
                    0 <= i < k implies (#[trigger] wb[i + 1]).shops@ == wa[i].shops@.push(ba[i]).drop_first()
                        && wb[i + 1].map == wa[i].map && wb[i + 1].build_zones == wa[i].build_zones by {
                    if i < k - 1 {
                        assert(wb[i + 1] == wb0[i + 1] && wa[i] == wa0[i] && ba[i] == ba0[i]);
                    } else {
                        assert(wb[i + 1] == w_in && wa[i] == wa0[i] && ba[i] == ba0[i]);
                    }
                }
                if k == 0 {
                    assert(wb[0] == w_in);
                } else {
                    assert(wb[0] == wb0[0]);
                }
            }
            self.shops.push(shop);
            proof {
                assert forall|i: int| 0 <= i < self.shops@.len() implies (#[trigger] self.shops@[i]).wf(
                    self.map.width,
                    self.map.height,
                ) by {
                    if i < mid.len() {
                        assert(self.shops@[i] == mid[i]);
                    }
                }
                assert forall|j: int| 0 <= j < n - (k + 1) implies (#[trigger] self.shops@[j]).building_behaviour
                    == orig[j + k + 1].building_behaviour && self.shops@[j].building_base.workers
                    == orig[j + k + 1].building_base.workers by {
                    assert(self.shops@[j] == mid[j]);
                    assert(removed[j] == prev[j + 1]);
                }
                if self.shops@.len() == n {
                    assert(prev.len() == n);
                    assert forall|j: int| 0 <= j < n implies same_place(
                        &(#[trigger] self.shops@[j]),
                        &orig[rotated(j, k + 1, n as int)],
                    ) && (n - (k + 1) <= j ==> fuel_bounded(&orig[rotated(j, k + 1, n as int)], &self.shops@[j], delta)) by {
                        if j < n - 1 {
                            assert(self.shops@[j] == mid[j]);
                            assert(removed[j] == prev[j + 1]);
                            assert(same_place(&prev[j + 1], &orig[rotated(j + 1, k as int, n as int)]));
                            assert(mid[j].building_behaviour == removed[j].building_behaviour);
                            if n - (k + 1) <= j {
                                assert(fuel_bounded(&orig[rotated(j + 1, k as int, n as int)], &prev[j + 1], delta));
                            }
                        } else {
                            assert(self.shops@[j] == shop);
                            assert(same_place(&prev[0], &orig[rotated(0, k as int, n as int)]));
                            assert(prev[0].building_behaviour == orig[k as int].building_behaviour);
                            assert(prev[0].building_base.workers == orig[k as int].building_base.workers);
                        }
                    }
                }
            }
            k = k + 1;
        }
        self.frame_number = frame.saturating_add(1);
        proof {
            assert(tick_turns(&w_start, self.shops@, self.map, self.build_zones, bb, ba, wb, wa, delta));
        }
    }

    /// Places a building of kind `building` with its top-left corner at `pos`: finished, or as
    /// a construction site. Refused (`None`) where the kind has no static data or the footprint
    /// is not free. Gives the index of the new building, or of the new site.
    pub fn build(&mut self, building: Buildings, pos: Pos, build_method: BuildMethod) -> (r: Option<usize>)
        requires
            old(self).wf(),
        ensures
            final(self).wf(),
            final(self).map.width == old(self).map.width,
            final(self).map.height == old(self).map.height,
            r is None ==> final(self).shops@.len() == old(self).shops@.len()
                && final(self).build_zones@.len() == old(self).build_zones@.len(),
            build_method == BuildMethod::SpawnExisting && r is Some ==> r == Some(
                old(self).shops@.len() as usize,
            ) && final(self).shops@.len() == old(self).shops@.len() + 1
                && final(self).shops@[r->0 as int].building_base.building == building
                && final(self).shops@[r->0 as int].building_base.pos == pos,
            build_method == BuildMethod::SpawnBuildZone && r is Some ==> r == Some(
                old(self).build_zones@.len() as usize,
            ) && final(self).build_zones@.len() == old(self).build_zones@.len() + 1,
            r is Some <==> building.is_configured() && footprint_free(
                &old(self).map,
                pos,
                building.footprint(),
            ),
            r is Some ==> forall|q: Pos|
                #![trigger final(self).map.tile(q)]
                final(self).map.in_bounds(q) && WorldMap::in_rect(
                    q,
                    pos,
                    building.footprint().0 as int,
                    building.footprint().1 as int,
                ) ==> final(self).map.tile(q) == if build_method == BuildMethod::SpawnExisting {
                    TileType::Structure(building)
                } else {
                    TileType::BuildZone(building)
                },
    {
        let data = match building.get_data() {
            Some(d) => d,
            None => {
                return None;
            },
        };
        if !self.map.can_build(&pos, data.width, data.height) {
            return None;
        }
        match build_method {
            BuildMethod::SpawnExisting => {
                let b = match make_building(building, pos) {
                    Some(b) => b,
                    None => {
                        return None;
                    },
                };
                self.map.build(&pos, data.width, data.height, TileType::Structure(building));
                let i = self.shops.len();
                self.shops.push(b);
                proof {
                    assert(in_grid(pos, self.map.width, self.map.height));
                    assert forall|j: int| 0 <= j < self.shops@.len() implies (#[trigger] self.shops@[j]).wf(
                        self.map.width,
                        self.map.height,
                    ) by {
                        if j < i {
                            assert(self.shops@[j] == old(self).shops@[j]);
                        }
                    }
                }
                Some(i)
            },
            BuildMethod::SpawnBuildZone => {
                let z = BuildZone {
                    progress: BasicAction::new(data.build_time),
                    materials_delivered: Inventory::new(),
                    materials_required: data.build_materials,
                    building,
                    site: Structure { pos, height: data.height, width: data.width },
                };
                self.map.build(&pos, data.width, data.height, TileType::BuildZone(building));
                let i = self.build_zones.len();
                self.build_zones.push(z);
                proof {
                    assert forall|j: int|
                        0 <= j < self.build_zones@.len() implies (#[trigger] self.build_zones@[j]).wf(
                        self.map.width,
                        self.map.height,
                    ) by {
                        if j < i {
                            assert(self.build_zones@[j] == old(self).build_zones@[j]);
                        }
                    }
                }
                Some(i)
            },
        }
    }
}

/// The accepted building whose A* path from `start` is shortest (the first of equal ones),
/// with that path. `None` exactly when no accepted building can be reached.
pub fn closest_shop(start: Pos, world: &World, filter: &ShopFilter) -> (r: Option<(usize, Vec<Pos>)>)
    requires
        world.wf(),
        world.map.in_bounds(start),
    ensures
        match r {
            Some((i, p)) => i < world.shops@.len() && filter_accepts(filter, &world.shops@[i as int])
                && valid_path(&world.map, p@, start, world.shops@[i as int].building_base.pos),
            None => forall|i: int|
                0 <= i < world.shops@.len() && filter_accepts(filter, #[trigger] &world.shops@[i])
                    ==> !reachable(&world.map, start, world.shops@[i].building_base.pos),
        },
{
    let mut best: Option<(usize, Vec<Pos>)> = None;
    let mut i: usize = 0;
    while i < world.shops.len()
        invariant
            world.wf(),
            world.map.in_bounds(start),
            i <= world.shops@.len(),
            match &best {
                Some((j, p)) => *j < world.shops@.len() && filter_accepts(
                    filter,
                    &world.shops@[*j as int],
                ) && valid_path(&world.map, p@, start, world.shops@[*j as int].building_base.pos),
                None => forall|j: int|
                    0 <= j < i && filter_accepts(filter, #[trigger] &world.shops@[j]) ==> !reachable(
                        &world.map,
                        start,
                        world.shops@[j].building_base.pos,
                    ),
            },
        decreases world.shops@.len() - i,
    {
        let shop = &world.shops[i];
        proof {
            assert(world.shops@[i as int].wf(world.map.width, world.map.height));
        }
        if filter.accepts(shop) {
            match a_star(&world.map, start, shop.building_base.pos) {
                Some(p) => {
                    let better = match &best {
                        Some((_, bp)) => p.len() < bp.len(),
                        None => true,
                    };
                    if better {
                        best = Some((i, p));
                    }
                },
                None => {},
            }
        }
        i = i + 1;
    }
    best
}

/// A kind of building to list.
#[derive(Clone, Copy, Debug, PartialEq, Eq, Structural)]
pub enum ShopKind {
    Store,
    Hearth,
    /// A gatherer of the item.
    Gatherer(InventoryItems),
}

pub open spec fn kind_matches(kind: ShopKind, b: &Building) -> bool {
    match kind {
        ShopKind::Store => b.building_behaviour is Store,
        ShopKind::Hearth => b.building_behaviour is Hearth,
        ShopKind::Gatherer(item) => match &b.building_behaviour {
            BuildingBehaviour::Gatherer(g) => g.gathered_resource_types@.contains(item),
            _ => false,
        },
    }
}

/// `r` lists, in increasing order, exactly the buildings of `world` of that kind.
pub open spec fn indices_of(world: &World, kind: ShopKind, r: Seq<usize>) -> bool {
    &&& forall|k: int|
        0 <= k < r.len() ==> #[trigger] r[k] < world.shops@.len() && kind_matches(
            kind,
            &world.shops@[r[k] as int],
        )
    &&& forall|a: int, b: int| 0 <= a < b < r.len() ==> r[a] < r[b]
    &&& forall|i: int|
        0 <= i < world.shops@.len() && kind_matches(kind, #[trigger] &world.shops@[i]) ==> r.contains(
            i as usize,
        )
}

fn shop_is(kind: ShopKind, b: &Building) -> (r: bool)
    ensures
        r == kind_matches(kind, b),
{
    match kind {
        ShopKind::Store => match b.building_behaviour {
            BuildingBehaviour::Store(_) => true,
            _ => false,
        },
        ShopKind::Hearth => match b.building_behaviour {
            BuildingBehaviour::Hearth(_) => true,
            _ => false,
        },
        ShopKind::Gatherer(item) => match &b.building_behaviour {
            BuildingBehaviour::Gatherer(g) => crate::pathfinding::contains_item(
                &g.gathered_resource_types,
                item,
            ),
            _ => false,
        },
    }
}

impl World {
    /// Indices of the buildings of one kind, in order.
    pub fn shops_of_kind(&self, kind: ShopKind) -> (r: Vec<usize>)
        ensures
            indices_of(self, kind, r@),
    {
        let mut r: Vec<usize> = Vec::new();
        let mut i: usize = 0;
        while i < self.shops.len()
            invariant
                i <= self.shops@.len(),
                forall|k: int| 0 <= k < r@.len() ==> #[trigger] r@[k] < i,
                forall|k: int|
                    0 <= k < r@.len() ==> kind_matches(kind, &self.shops@[#[trigger] r@[k] as int]),
                forall|a: int, b: int| 0 <= a < b < r@.len() ==> r@[a] < r@[b],
                forall|j: int|
                    0 <= j < i && kind_matches(kind, #[trigger] &self.shops@[j]) ==> r@.contains(
                        j as usize,
                    ),
            decreases self.shops@.len() - i,
        {
            if shop_is(kind, &self.shops[i]) {
                let ghost before = r@;
                r.push(i);
                proof {
                    assert forall|k: int| 0 <= k < r@.len() implies #[trigger] r@[k] < i + 1 by {
                        if k < before.len() {
                            assert(r@[k] == before[k]);
                        }
                    }
                    assert forall|k: int| 0 <= k < r@.len() implies kind_matches(
                        kind,
                        &self.shops@[#[trigger] r@[k] as int],
                    ) by {
                        if k < before.len() {
                            assert(r@[k] == before[k]);
                        }
                    }
                    assert forall|a: int, b: int| 0 <= a < b < r@.len() implies r@[a] < r@[b] by {
                        assert(r@[a] == before[a]);
                        if b < before.len() {
                            assert(r@[b] == before[b]);
                        }
                    }
                    assert forall|j: int|
                        0 <= j < i + 1 && kind_matches(kind, #[trigger] &self.shops@[j]) implies r@.contains(
                            j as usize,
                        ) by {
                        if j < i {
                            let w = choose|w: int| 0 <= w < before.len() && before[w] == j as usize;
                            assert(r@[w] == j as usize);
                        } else {
                            assert(r@[r@.len() - 1] == i);
                        }
                    }
                }
            }
            i = i + 1;
        }
        r
    }

    /// Indices of the stores, in order.
    pub fn get_stores(&self) -> (r: Vec<usize>)
        ensures
            indices_of(self, ShopKind::Store, r@),
    {
        self.shops_of_kind(ShopKind::Store)
    }

    /// Indices of the hearths, in order.
    pub fn get_hearths(&self) -> (r: Vec<usize>)
        ensures
            indices_of(self, ShopKind::Hearth, r@),
    {
        self.shops_of_kind(ShopKind::Hearth)
    }

    /// Indices of the gatherers of `resource_type`, in order.
    pub fn get_gatherers(&self, resource_type: &InventoryItems) -> (r: Vec<usize>)
        ensures
            indices_of(self, ShopKind::Gatherer(*resource_type), r@),
    {
        self.shops_of_kind(ShopKind::Gatherer(*resource_type))
    }
}

/// Index of the store whose position is `pos`, if one stands there.
pub fn find_store_at(world: &World, pos: Pos) -> (r: Option<usize>)
    ensures
        match r {
            Some(i) => i < world.shops@.len() && world.shops@[i as int].building_behaviour is Store
                && world.shops@[i as int].building_base.pos == pos,
            None => forall|i: int|
                0 <= i < world.shops@.len() ==> !((#[trigger] world.shops@[i]).building_behaviour is Store
                    && world.shops@[i].building_base.pos == pos),
        },
{
    let mut i: usize = 0;
    while i < world.shops.len()
        invariant
            i <= world.shops@.len(),
            forall|j: int|
                0 <= j < i ==> !((#[trigger] world.shops@[j]).building_behaviour is Store
                    && world.shops@[j].building_base.pos == pos),
        decreases world.shops@.len() - i,
    {
        let s = &world.shops[i];
        let is_store = match s.building_behaviour {
            BuildingBehaviour::Store(_) => true,
            _ => false,
        };
        if is_store && s.building_base.pos == pos {
            return Some(i);
        }
        i = i + 1;
    }
    None
}

} // verus!
