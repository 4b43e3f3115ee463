use rusty_rain::actions::BasicAction;
use rusty_rain::building::BuildingBehaviour;
use rusty_rain::config::{Buildings, ReceipeLevel, Receipe};
use rusty_rain::inventory::Inventory;
use rusty_rain::items::InventoryItems;
use rusty_rain::math::Pos;
use rusty_rain::worker::{StateKind, Worker, WorkerState, RETRY_DELAY, TIME_TO_BREAK};
use rusty_rain::world::{BuildMethod, World};
use rusty_rain::world_map::{ResourceCharge, ResourceType, TileType, WorldMap};

const DELTA: u64 = 33_333;
const SECOND: u64 = 1_000_000;

fn ticks_for(seconds: u64) -> u64 {
    seconds * SECOND / DELTA + 1
}

fn hearth_fuel(world: &World, h: usize) -> u64 {
    match &world.shops[h].building_behaviour {
        BuildingBehaviour::Hearth(hb) => hb.input.get(&InventoryItems::Wood),
        _ => panic!("not a hearth"),
    }
}

fn find(world: &World, kind: Buildings) -> usize {
    world.shops.iter().position(|s| s.building_base.building == kind).unwrap()
}

#[test]
fn hearth_burns_fuel_without_resupply() {
    let mut world = World::new(WorldMap::new_test(16, 16));
    let h = world.build(Buildings::MainHearth, Pos::new(8, 8), BuildMethod::SpawnExisting).unwrap();
    let pos = world.shops[h].building_base.pos;
    world.shops[h].building_base.workers.push(Worker::new("Tender".to_string(), pos, 5));
    match &mut world.shops[h].building_behaviour {
        BuildingBehaviour::Hearth(hb) => {
            hb.input.add(&InventoryItems::Wood, 10);
        }
        _ => panic!(),
    }
    world.next_tick(DELTA);
    let first = hearth_fuel(&world, 0);
    assert_eq!(first, 9);
    let mut last = first;
    for _ in 0..ticks_for(60) {
        world.next_tick(DELTA);
        let now = hearth_fuel(&world, 0);
        assert!(now <= last);
        last = now;
    }
    assert!(last < first);
    assert_eq!(last, 7);
}

#[test]
fn gatherer_fills_store_from_endless_resource() {
    let mut world = World::new(WorldMap::new_test(16, 16));
    let g = world.build(Buildings::Woodcutter, Pos::new(5, 5), BuildMethod::SpawnExisting).unwrap();
    let pos = world.shops[g].building_base.pos;
    world.shops[g].building_base.workers.push(Worker::new("Chuck".to_string(), pos, 5));
    let endless = TileType::Resource(
        ResourceType::Tree,
        ResourceCharge {
            yield_item: InventoryItems::Wood,
            yield_amount: 1,
            bonus_item: InventoryItems::Resin,
            bonus_amount: 0,
            total: u64::MAX,
            current: u64::MAX,
        },
        false,
    );
    world.map.set(&Pos::new(7, 5), endless);
    world.build(Buildings::MainStore, Pos::new(8, 9), BuildMethod::SpawnExisting).unwrap();

    let mut last_store = 0;
    let mut seen = 0;
    for _ in 0..ticks_for(6 * 60) {
        world.next_tick(DELTA);
        let s = find(&world, Buildings::MainStore);
        let stored = world.shops[s].building_base.output.get(&InventoryItems::Wood);
        assert!(stored >= last_store);
        last_store = stored;
        let g = find(&world, Buildings::Woodcutter);
        seen = seen.max(stored + world.shops[g].building_base.output.get(&InventoryItems::Wood));
    }
    assert!(seen > 0);
    assert!(last_store > 0);
}

#[test]
fn producer_turns_store_wood_into_planks() {
    let mut world = World::new(WorldMap::new_test(16, 16));
    let s = world.build(Buildings::MainStore, Pos::new(4, 3), BuildMethod::SpawnExisting).unwrap();
    world.shops[s].building_base.output.add(&InventoryItems::Wood, 40);
    let m = world.build(Buildings::Lumbermill, Pos::new(5, 9), BuildMethod::SpawnExisting).unwrap();
    let pos = world.shops[m].building_base.pos;
    world.shops[m].building_base.workers.push(Worker::new("Jane".to_string(), pos, 5));
    match &mut world.shops[m].building_behaviour {
        BuildingBehaviour::Producer(pb) => {
            pb.receipes = vec![Receipe {
                input: vec![vec![(InventoryItems::Wood, 2)]],
                output: vec![(InventoryItems::Plank, 3)],
                time_requirement: 28 * SECOND,
                receipe_level: ReceipeLevel::Basic,
            }];
        }
        _ => panic!(),
    }
    for _ in 0..ticks_for(5 * 60) {
        world.next_tick(DELTA);
    }
    let s = find(&world, Buildings::MainStore);
    let out = &world.shops[s].building_base.output;
    assert!(out.get(&InventoryItems::Wood) < 40);
    assert!(out.get(&InventoryItems::Plank) > 0);
}

#[test]
fn lost_worker_finds_its_way_after_retry_delay() {
    let mut world = World::new(WorldMap::new_test(16, 16));
    let h = world.build(Buildings::MainHearth, Pos::new(8, 8), BuildMethod::SpawnExisting).unwrap();
    world.shops[h].building_base.workers.push(Worker {
        name: "Wanderer".to_string(),
        inventory: Inventory::limited(5),
        pos: Pos::new(4, 4),
        break_progress: BasicAction::new(TIME_TO_BREAK),
        exhausted: false,
        state: WorkerState::Lost(BasicAction::new(RETRY_DELAY)),
    });
    world.next_tick(RETRY_DELAY);
    assert_eq!(world.shops[0].building_base.workers[0].state_kind(), StateKind::Lost);
    world.next_tick(DELTA);
    assert_eq!(world.shops[0].building_base.workers[0].state_kind(), StateKind::Returning);
}
