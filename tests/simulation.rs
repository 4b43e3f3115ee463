use rusty_rain::actions::BasicAction;
use rusty_rain::building::BuildingBehaviour;
use rusty_rain::config::Buildings;
use rusty_rain::inventory::Inventory;
use rusty_rain::items::InventoryItems;
use rusty_rain::math::Pos;
use rusty_rain::worker::{StateKind, Worker, WorkerState, RETRY_DELAY, TIME_TO_BREAK};
use rusty_rain::world::{BuildMethod, World};
use rusty_rain::world_map::{ResourceType, TileType, WorldMap};

/// One thirtieth of a second, in microseconds.
const DELTA: u64 = 33_333;
const STEP_SECONDS: f64 = 1.0 / 30.0;

fn new_test_map(width: usize, height: usize) -> WorldMap {
    WorldMap::new_test(width, height)
}

fn new_test_world(width: usize, height: usize) -> World {
    let mut map = new_test_map(width, height);
    for y in 3..7 {
        map.set(&Pos::new(3, y), TileType::Road);
    }
    for x in 3..8 {
        map.set(&Pos::new(x, 6), TileType::Road);
    }
    map.set(&Pos::new(3, 12), ResourceType::tile_berry());
    map.set(&Pos::new(3, 7), ResourceType::tile_tree());
    World::new(map)
}

fn run_until(world: &mut World, seconds: &mut f64, until: f64) {
    while *seconds < until {
        world.next_tick(DELTA);
        *seconds += STEP_SECONDS;
    }
}

fn store_index(world: &World) -> usize {
    world
        .shops
        .iter()
        .position(|s| matches!(s.building_behaviour, BuildingBehaviour::Store(_)))
        .unwrap()
}

fn hearth_index(world: &World) -> usize {
    world
        .shops
        .iter()
        .position(|s| matches!(s.building_behaviour, BuildingBehaviour::Hearth(_)))
        .unwrap()
}

fn centre(world: &World) -> Pos {
    Pos::new(world.map.width() / 2, world.map.height() / 2)
}

#[test]
fn production() {
    let mut world = new_test_world(16, 16);
    let store = world.build(Buildings::MainStore, Pos::new(4, 3), BuildMethod::SpawnExisting).unwrap();
    world.shops[store].building_base.output.add(&InventoryItems::Wood, 15);
    let mill = world.build(Buildings::Lumbermill, Pos::new(5, 9), BuildMethod::SpawnExisting).unwrap();
    let pos = world.shops[mill].building_base.pos;
    world.shops[mill].building_base.workers.push(Worker::new("Jane".to_string(), pos, 5));

    let mut seconds = 0.0;
    run_until(&mut world, &mut seconds, 3.6 * 60.0);
    {
        let store = store_index(&world);
        let out = &mut world.shops[store].building_base.output;
        assert!(out.get(&InventoryItems::Plank) == 10);
        assert!(out.get(&InventoryItems::Wood) == 0);
        out.add(&InventoryItems::Barrels, 6);
        out.add(&InventoryItems::Leather, 4);
        out.add(&InventoryItems::Wine, 3);
    }
    run_until(&mut world, &mut seconds, 7.4 * 60.0);
    let store = store_index(&world);
    let out = &world.shops[store].building_base.output;
    assert!(out.get(&InventoryItems::PackOfTradeGoods) == 2);
    assert!(out.get(&InventoryItems::Scrolls) == 8);
}

#[test]
fn hearth() {
    let mut world = new_test_world(16, 16);
    let c = centre(&world);
    let h = world.build(Buildings::MainHearth, c, BuildMethod::SpawnExisting).unwrap();
    let pos = world.shops[h].building_base.pos;
    world.shops[h].building_base.workers.insert(0, Worker::new("Hearth Tender".to_string(), pos, 5));
    let store = world.build(Buildings::MainStore, Pos::new(4, 3), BuildMethod::SpawnExisting).unwrap();
    world.shops[store].building_base.output.add(&InventoryItems::Wood, 40);

    let mut seconds = 0.0;
    run_until(&mut world, &mut seconds, 3.5 * 60.0);

    let h = hearth_index(&world);
    let hearth = &world.shops[h];
    let tender = &hearth.building_base.workers[0];
    assert!(tender.break_progress.progress < 3 * 60 * 1_000_000);
    assert!(!tender.exhausted);
    match &hearth.building_behaviour {
        BuildingBehaviour::Hearth(hb) => assert!(hb.input.total_items() < 15),
        _ => panic!(),
    }
}

#[test]
fn gathering() {
    let mut world = new_test_world(16, 16);
    let store = world.build(Buildings::MainStore, Pos::new(4, 3), BuildMethod::SpawnExisting).unwrap();
    world.shops[store].building_base.output.add(&InventoryItems::Wood, 0);
    let wc = world.build(Buildings::Woodcutter, Pos::new(11, 5), BuildMethod::SpawnExisting).unwrap();
    let pos = world.shops[wc].building_base.pos;
    world.shops[wc].building_base.workers.push(Worker::new("Woodchuck Chuck".to_string(), pos, 5));

    let mut seconds = 0.0;
    run_until(&mut world, &mut seconds, 4.0 * 60.0);

    let store = store_index(&world);
    assert!(world.shops[store].building_base.output.total_items() > 0);
}

#[test]
fn worker_lost() {
    let mut world = new_test_world(16, 16);
    let c = centre(&world);
    let h = world.build(Buildings::MainHearth, c, BuildMethod::SpawnExisting).unwrap();
    world.shops[h].building_base.workers.insert(
        0,
        Worker {
            name: "Lost in the Woods".to_string(),
            inventory: Inventory::limited(5),
            pos: Pos::new(13, 13),
            break_progress: BasicAction::new(TIME_TO_BREAK),
            exhausted: false,
            state: WorkerState::Lost(BasicAction::new(RETRY_DELAY)),
        },
    );
    for p in [Pos::new(12, 12), Pos::new(12, 13), Pos::new(13, 12)] {
        world.map.set(&p, ResourceType::tile_tree());
    }
    let store = world.build(Buildings::MainStore, Pos::new(4, 3), BuildMethod::SpawnExisting).unwrap();
    world.shops[store].building_base.output.add(&InventoryItems::Wood, 40);

    let mut seconds = 0.0;
    run_until(&mut world, &mut seconds, 2.1 * 60.0);
    {
        let h = hearth_index(&world);
        let tender = &world.shops[h].building_base.workers[0];
        assert!(tender.break_progress.progress > TIME_TO_BREAK);
        assert!(!tender.exhausted);
        assert!(tender.state_kind() == StateKind::Lost);
        world.map.set(&Pos::new(13, 12), TileType::Empty);
    }

    let mut seconds = 0.0;
    run_until(&mut world, &mut seconds, 60.0);
    let h = hearth_index(&world);
    let tender = &world.shops[h].building_base.workers[0];
    assert!(tender.break_progress.progress < TIME_TO_BREAK);
    assert!(tender.state_kind() != StateKind::Lost);
}

#[test]
fn build_supply() {
    let mut world = new_test_world(16, 16);
    let c = centre(&world);
    let h = world.build(Buildings::MainHearth, c, BuildMethod::SpawnExisting).unwrap();
    let pos = world.shops[h].building_base.pos;
    match &mut world.shops[h].building_behaviour {
        BuildingBehaviour::Hearth(hb) => hb.unassigned_workers.insert(0, Worker::new("Bob".to_string(), pos, 5)),
        _ => panic!(),
    }
    let store = world.build(Buildings::MainStore, Pos::new(4, 3), BuildMethod::SpawnExisting).unwrap();
    world.shops[store].building_base.output.add(&InventoryItems::Bricks, 2);
    world.shops[store].building_base.output.add(&InventoryItems::Fabric, 2);
    assert!(world.build(Buildings::Lumbermill, Pos::new(4, 8), BuildMethod::SpawnBuildZone).is_some());

    let mut seconds = 0.0;
    run_until(&mut world, &mut seconds, 3.5 * 60.0);

    let store = store_index(&world);
    let out = &world.shops[store].building_base.output;
    assert!(out.get(&InventoryItems::Bricks) == 0);
    assert!(out.get(&InventoryItems::Fabric) == 0);
}
