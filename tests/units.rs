use rusty_rain::actions::{
    ActionResult, BasicAction, GatheringAction, GatheringActionResult, TransitAction, TransitActionResult,
};
use rusty_rain::building::{
    get_materials_to_supply, has_enough_materials, make_produced_receipe_from_variant_receipe,
    supply_command, BuildingBehaviour,
};
use rusty_rain::config::{planks_3, scrolls_1, Buildings, ReceipeLevel, Receipe};
use rusty_rain::inventory::{Inventory, QUANTITY_CEILING};
use rusty_rain::items::{InventoryItems, N_ITEMS};
use rusty_rain::math::Pos;
use rusty_rain::pathfinding::{a_star, bfs_closest, combine_path, dijkstra_closest, TileQuery};
use rusty_rain::worker::{schedule_new_work, take_as_much_as_possible, StateKind, Worker};
use rusty_rain::world::{closest_shop, BuildMethod, BuildZone, ShopFilter, World};
use rusty_rain::world_map::{ResourceCharge, ResourceType, TileType, WorldMap};

fn adjacent(a: Pos, b: Pos) -> bool {
    (a.x == b.x && (a.y + 1 == b.y || b.y + 1 == a.y)) || (a.y == b.y && (a.x + 1 == b.x || b.x + 1 == a.x))
}

fn check_path(map: &WorldMap, p: &[Pos], start: Pos, goal: Pos) {
    assert_eq!(p[0], start);
    assert_eq!(*p.last().unwrap(), goal);
    for w in p.windows(2) {
        assert!(adjacent(w[0], w[1]));
    }
    for q in &p[1..p.len() - 1] {
        assert!(map.get(q).is_traversible());
    }
}

#[test]
fn inventory_add_get_remove() {
    let mut inv = Inventory::new();
    assert_eq!(inv.total_items(), 0);
    assert!(inv.is_empty());
    assert_eq!(inv.add(&InventoryItems::Wood, 7), 7);
    inv.add(&InventoryItems::Clay, 2);
    assert_eq!(inv.get(&InventoryItems::Wood), 7);
    assert_eq!(inv.total_items(), 9);
    inv.remove(&InventoryItems::Wood, 3);
    assert_eq!(inv.get(&InventoryItems::Wood), 4);
    assert_eq!(inv.total_items(), 6);
    assert!(!inv.is_empty());
    assert!(!inv.is_full());
    assert!(inv.has_any_of(&vec![InventoryItems::Stone, InventoryItems::Clay]));
    assert!(!inv.has_any_of(&vec![InventoryItems::Stone]));
}

#[test]
fn inventory_add_stops_at_ceiling() {
    let mut inv = Inventory::new();
    assert_eq!(inv.add(&InventoryItems::Wood, QUANTITY_CEILING - 5), QUANTITY_CEILING - 5);
    assert_eq!(inv.add(&InventoryItems::Clay, 10), 5);
    assert_eq!(inv.total_items(), QUANTITY_CEILING);
}

#[test]
fn inventory_limited_is_full() {
    let mut inv = Inventory::limited(5);
    inv.add(&InventoryItems::Wood, 4);
    assert!(!inv.is_full());
    assert_eq!(inv.room_left(), 1);
    inv.add(&InventoryItems::Wood, 1);
    assert!(inv.is_full());
    assert_eq!(inv.room_left(), 0);
}

#[test]
fn transfer_until_full_stops_at_capacity_and_loses_nothing() {
    let mut source = Inventory::new();
    source.add(&InventoryItems::Wood, 8);
    source.add(&InventoryItems::Resin, 4);
    let mut target = Inventory::limited(5);
    target.add(&InventoryItems::Wood, 2);
    let moved = source.transfer_until_full(&mut target);
    assert_eq!(moved, 3);
    assert_eq!(target.total_items(), 5);
    assert_eq!(source.total_items(), 9);
    assert_eq!(source.get(&InventoryItems::Wood) + target.get(&InventoryItems::Wood), 10);
    assert_eq!(source.get(&InventoryItems::Resin) + target.get(&InventoryItems::Resin), 4);
    assert!(target.total_items() <= 5);
}

#[test]
fn transfer_until_full_into_unlimited_moves_everything() {
    let mut source = Inventory::new();
    source.add(&InventoryItems::Wood, 8);
    source.add(&InventoryItems::Resin, 4);
    let mut target = Inventory::new();
    assert_eq!(source.transfer_until_full(&mut target), 12);
    assert!(source.is_empty());
    assert_eq!(target.get(&InventoryItems::Wood), 8);
    assert_eq!(target.get(&InventoryItems::Resin), 4);
}

#[test]
fn transfer_until_full_into_full_target_moves_nothing() {
    let mut source = Inventory::new();
    source.add(&InventoryItems::Wood, 3);
    let mut target = Inventory::limited(2);
    target.add(&InventoryItems::Clay, 2);
    assert_eq!(source.transfer_until_full(&mut target), 0);
    assert_eq!(source.get(&InventoryItems::Wood), 3);
}

#[test]
fn move_all_into_and_ranges() {
    let mut a = Inventory::new();
    a.add_range(&vec![(InventoryItems::Wood, 2), (InventoryItems::Wood, 3), (InventoryItems::Dye, 1)]);
    assert_eq!(a.get(&InventoryItems::Wood), 5);
    a.remove_range(&vec![(InventoryItems::Wood, 4), (InventoryItems::Dye, 1)]);
    assert_eq!(a.get(&InventoryItems::Wood), 1);
    assert_eq!(a.get(&InventoryItems::Dye), 0);
    let mut b = Inventory::limited(1);
    assert_eq!(a.move_all_into(&mut b), 1);
    assert!(a.is_empty());
    assert_eq!(b.get(&InventoryItems::Wood), 1);
}

#[test]
fn item_slots_round_trip() {
    for i in 0..N_ITEMS {
        assert_eq!(InventoryItems::from_index(i).index(), i);
    }
}

#[test]
fn a_star_path_on_open_ground() {
    let map = WorldMap::new(8, 8);
    let p = a_star(&map, Pos::new(0, 0), Pos::new(3, 2)).unwrap();
    check_path(&map, &p, Pos::new(0, 0), Pos::new(3, 2));
    assert_eq!(p.len(), 6);
}

#[test]
fn a_star_start_is_goal() {
    let map = WorldMap::new(4, 4);
    assert_eq!(a_star(&map, Pos::new(2, 2), Pos::new(2, 2)).unwrap(), vec![Pos::new(2, 2)]);
}

#[test]
fn a_star_prefers_road() {
    let mut map = WorldMap::new(5, 3);
    for x in 0..5 {
        map.set(&Pos::new(x, 0), TileType::Road);
    }
    let p = a_star(&map, Pos::new(0, 1), Pos::new(4, 1)).unwrap();
    check_path(&map, &p, Pos::new(0, 1), Pos::new(4, 1));
}

#[test]
fn a_star_walls_and_goal_building() {
    let mut map = WorldMap::new(6, 6);
    for y in 0..5 {
        map.set(&Pos::new(2, y), ResourceType::tile_tree());
    }
    map.set(&Pos::new(5, 0), TileType::Structure(Buildings::MainStore));
    let p = a_star(&map, Pos::new(0, 0), Pos::new(5, 0)).unwrap();
    check_path(&map, &p, Pos::new(0, 0), Pos::new(5, 0));
    assert!(p.contains(&Pos::new(2, 5)));
}

#[test]
fn searches_report_no_path_when_enclosed() {
    let mut map = WorldMap::new(6, 6);
    for p in [Pos::new(1, 0), Pos::new(1, 1), Pos::new(0, 1)] {
        map.set(&p, ResourceType::tile_tree());
    }
    map.set(&Pos::new(4, 4), ResourceType::tile_berry());
    assert!(a_star(&map, Pos::new(0, 0), Pos::new(4, 4)).is_none());
    let berries = TileQuery::UnclaimedResource(vec![InventoryItems::Berries]);
    assert!(dijkstra_closest(&map, Pos::new(0, 0), &berries).is_none());
    assert!(bfs_closest(&map, Pos::new(0, 0), &berries).is_none());
    assert!(a_star(&map, Pos::new(3, 3), Pos::new(0, 0)).is_none());
}

#[test]
fn dijkstra_finds_nearest_unclaimed_resource() {
    let mut map = WorldMap::new(8, 3);
    map.set(&Pos::new(2, 1), ResourceType::tile_tree());
    map.set(&Pos::new(6, 1), ResourceType::tile_tree());
    let wood = TileQuery::UnclaimedResource(vec![InventoryItems::Wood]);
    let p = dijkstra_closest(&map, Pos::new(0, 1), &wood).unwrap();
    check_path(&map, &p, Pos::new(0, 1), Pos::new(2, 1));
    if let TileType::Resource(rt, c, _) = map.get(&Pos::new(2, 1)) {
        map.set(&Pos::new(2, 1), TileType::Resource(rt, c, true));
    }
    let p = dijkstra_closest(&map, Pos::new(0, 1), &wood).unwrap();
    check_path(&map, &p, Pos::new(0, 1), Pos::new(6, 1));
    let berries = TileQuery::UnclaimedResource(vec![InventoryItems::Berries]);
    assert!(dijkstra_closest(&map, Pos::new(0, 1), &berries).is_none());
}

#[test]
fn bfs_finds_nearest_empty_tile() {
    let mut map = WorldMap::new(4, 4);
    map.set(&Pos::new(0, 0), TileType::Road);
    map.set(&Pos::new(1, 0), TileType::Road);
    let p = bfs_closest(&map, Pos::new(0, 0), &TileQuery::EmptyGround).unwrap();
    assert_eq!(p, vec![Pos::new(0, 0), Pos::new(0, 1)]);
    let here = bfs_closest(&map, Pos::new(3, 3), &TileQuery::EmptyGround).unwrap();
    assert_eq!(here, vec![Pos::new(3, 3)]);
}

#[test]
fn combine_path_drops_shared_tile() {
    let a = vec![Pos::new(0, 0), Pos::new(1, 0)];
    let b = vec![Pos::new(1, 0), Pos::new(1, 1)];
    assert_eq!(combine_path(a, b), vec![Pos::new(0, 0), Pos::new(1, 0), Pos::new(1, 1)]);
}

#[test]
fn map_can_build_and_build() {
    let mut map = WorldMap::new(10, 10);
    assert!(map.can_build(&Pos::new(2, 2), 3, 3));
    assert!(!map.can_build(&Pos::new(7, 2), 3, 3));
    map.build(&Pos::new(2, 2), 3, 3, TileType::Structure(Buildings::MainStore));
    assert_eq!(map.get(&Pos::new(4, 4)), TileType::Structure(Buildings::MainStore));
    assert_eq!(map.get(&Pos::new(5, 5)), TileType::Empty);
    assert!(!map.can_build(&Pos::new(4, 4), 2, 2));
    assert_eq!(map.get(&Pos::new(4, 4)).cost(), 1_000_000);
    assert_eq!(TileType::Road.cost(), 700_000);
}

#[test]
fn new_test_map_is_ringed_with_trees() {
    let map = WorldMap::new_test(8, 8);
    assert!(!map.get(&Pos::new(0, 0)).is_traversible());
    assert!(!map.get(&Pos::new(6, 3)).is_traversible());
    assert!(map.get(&Pos::new(3, 3)).is_traversible());
}

#[test]
fn resource_gather_uses_a_charge() {
    if let TileType::Resource(_, mut c, _) = ResourceType::tile_tree() {
        let bundle = c.gather();
        assert_eq!(bundle[0], (InventoryItems::Wood, 1));
        assert_eq!(c.current, 9);
    } else {
        panic!();
    }
}

#[test]
fn basic_and_transit_actions() {
    let mut t = BasicAction::new(10);
    assert_eq!(t.continue_action(10), ActionResult::InProgress);
    assert_eq!(t.continue_action(1), ActionResult::Completed);
    assert!(t.is_completed());
    let map = WorldMap::new(4, 1);
    let path = vec![Pos::new(0, 0), Pos::new(1, 0), Pos::new(2, 0)];
    let mut tr = TransitAction::new(path, &map);
    assert_eq!(tr.requirement, 3_000_000);
    let w = 4;
    let h = 1;
    let _ = (w, h);
    assert!(matches!(tr.path_cost.len(), 3));
    tr.progress = 2_999_999;
    assert_eq!(tr.requirement - tr.progress, 1);
}

#[test]
fn unconfigured_building_is_refused() {
    let mut world = World::new(WorldMap::new(16, 16));
    assert!(Buildings::Kiln.get_data().is_none());
    assert!(world.build(Buildings::Kiln, Pos::new(2, 2), BuildMethod::SpawnExisting).is_none());
    assert!(world.build(Buildings::MainStore, Pos::new(2, 2), BuildMethod::SpawnExisting).is_some());
    assert!(world.build(Buildings::MainStore, Pos::new(3, 3), BuildMethod::SpawnExisting).is_none());
    assert!(world.build(Buildings::MainStore, Pos::new(13, 2), BuildMethod::SpawnExisting).is_none());
    assert_eq!(world.shops.len(), 1);
}

#[test]
fn build_zone_delivery() {
    let mut z = BuildZone::new(Buildings::Lumbermill, Pos::new(1, 1)).unwrap();
    assert!(!z.is_delivery_complete());
    z.materials_delivered.add(&InventoryItems::Bricks, 2);
    assert!(!z.is_delivery_complete());
    z.materials_delivered.add(&InventoryItems::Fabric, 2);
    assert!(z.is_delivery_complete());
    assert!(BuildZone::new(Buildings::Kiln, Pos::new(1, 1)).is_none());
}

#[test]
fn two_supplies_in_one_tick_share_the_stock() {
    let mut world = World::new(WorldMap::new(16, 16));
    let s = world.build(Buildings::MainStore, Pos::new(2, 2), BuildMethod::SpawnExisting).unwrap();
    world.shops[s].building_base.output.add(&InventoryItems::Wood, 7);
    let home = Pos::new(10, 10);
    let a = supply_command(Worker::new("A".to_string(), home, 5), home, &mut world, vec![InventoryItems::Wood], 1);
    let b = supply_command(Worker::new("B".to_string(), home, 5), home, &mut world, vec![InventoryItems::Wood], 1);
    assert_eq!(a.state_kind(), StateKind::Supplying);
    assert_eq!(b.state_kind(), StateKind::Supplying);
    assert_eq!(a.inventory.get(&InventoryItems::Wood), 5);
    assert_eq!(b.inventory.get(&InventoryItems::Wood), 2);
    assert_eq!(world.shops[s].building_base.output.get(&InventoryItems::Wood), 0);
    let c = supply_command(Worker::new("C".to_string(), home, 5), home, &mut world, vec![InventoryItems::Wood], 1);
    assert_eq!(c.state_kind(), StateKind::Idle);
}

#[test]
fn supply_prefers_the_closest_building() {
    let mut world = World::new(WorldMap::new(20, 10));
    let far = world.build(Buildings::MainStore, Pos::new(1, 1), BuildMethod::SpawnExisting).unwrap();
    let near = world.build(Buildings::MainStore, Pos::new(14, 1), BuildMethod::SpawnExisting).unwrap();
    world.shops[far].building_base.output.add(&InventoryItems::Wood, 9);
    world.shops[near].building_base.output.add(&InventoryItems::Wood, 9);
    let (i, p) = closest_shop(Pos::new(15, 7), &world, &ShopFilter::Store).unwrap();
    assert_eq!(i, near);
    assert_eq!(*p.last().unwrap(), Pos::new(14, 1));
    let w = supply_command(Worker::new("A".to_string(), Pos::new(15, 7), 5), Pos::new(15, 7), &mut world, vec![InventoryItems::Wood], 1);
    assert_eq!(w.inventory.get(&InventoryItems::Wood), 5);
    assert_eq!(world.shops[near].building_base.output.get(&InventoryItems::Wood), 4);
    assert_eq!(world.shops[far].building_base.output.get(&InventoryItems::Wood), 9);
}

#[test]
fn unreachable_home_makes_a_worker_lost() {
    let mut map = WorldMap::new(6, 6);
    for p in [Pos::new(1, 0), Pos::new(1, 1), Pos::new(0, 1)] {
        map.set(&p, ResourceType::tile_tree());
    }
    let w = Worker::new("Stuck".to_string(), Pos::new(0, 0), 5);
    let r = w.try_returning(&map, Pos::new(4, 4));
    assert_eq!(r.state_kind(), StateKind::Lost);
    let w = Worker::new("Free".to_string(), Pos::new(3, 3), 5);
    assert_eq!(w.try_returning(&map, Pos::new(4, 4)).state_kind(), StateKind::Returning);
}

#[test]
fn producer_recipe_choice() {
    let mut inv = Inventory::new();
    inv.add(&InventoryItems::Wood, 10);
    inv.add(&InventoryItems::Wine, 3);
    let pr = make_produced_receipe_from_variant_receipe(&inv, &scrolls_1()).unwrap();
    assert_eq!(pr.input, vec![(InventoryItems::Wood, 10), (InventoryItems::Wine, 3)]);
    assert_eq!(pr.output, vec![(InventoryItems::Scrolls, 8)]);
    let twice = Receipe {
        input: vec![vec![(InventoryItems::Wood, 6)], vec![(InventoryItems::Wood, 6)]],
        output: vec![(InventoryItems::Plank, 1)],
        time_requirement: 1,
        receipe_level: ReceipeLevel::Crude,
    };
    assert!(make_produced_receipe_from_variant_receipe(&inv, &twice).is_none());
    assert!(has_enough_materials(&vec![planks_3()], &inv));
    assert!(has_enough_materials(&vec![twice], &inv));
}

#[test]
fn producer_wants_what_it_lacks() {
    let mut inv = Inventory::new();
    inv.add(&InventoryItems::Wood, 10);
    let wants = get_materials_to_supply(&vec![planks_3(), scrolls_1()], &inv);
    assert!(!wants.contains(&InventoryItems::Plank));
    assert!(wants.contains(&InventoryItems::Wood));
    assert!(wants.contains(&InventoryItems::Dye));
    assert_eq!(wants.iter().filter(|x| **x == InventoryItems::Wood).count(), 1);
    let wants = get_materials_to_supply(&vec![planks_3()], &inv);
    assert!(wants.is_empty());
}

#[test]
fn take_as_much_as_possible_respects_capacity() {
    let mut store = Inventory::new();
    store.add(&InventoryItems::Bricks, 4);
    store.add(&InventoryItems::Fabric, 4);
    let mut carrier = Inventory::limited(5);
    take_as_much_as_possible(&mut store, &mut carrier, &vec![(InventoryItems::Bricks, 3), (InventoryItems::Fabric, 3)]);
    assert_eq!(carrier.get(&InventoryItems::Bricks), 3);
    assert_eq!(carrier.get(&InventoryItems::Fabric), 2);
    assert_eq!(store.get(&InventoryItems::Fabric), 2);
}

#[test]
fn store_has_no_behaviour_of_its_own() {
    let mut world = World::new(WorldMap::new(16, 16));
    let s = world.build(Buildings::MainStore, Pos::new(2, 2), BuildMethod::SpawnExisting).unwrap();
    assert!(matches!(world.shops[s].building_behaviour, BuildingBehaviour::Store(_)));
    world.shops[s].building_base.output.add(&InventoryItems::Wood, 3);
    world.next_tick(1_000_000);
    assert_eq!(world.shops[0].building_base.output.get(&InventoryItems::Wood), 3);
    assert_eq!(world.frame_number, 1);
}

#[test]
fn world_queries_list_buildings_by_kind() {
    let mut world = World::new(WorldMap::new(20, 20));
    let s = world.build(Buildings::MainStore, Pos::new(1, 1), BuildMethod::SpawnExisting).unwrap();
    let h = world.build(Buildings::MainHearth, Pos::new(8, 1), BuildMethod::SpawnExisting).unwrap();
    let g = world.build(Buildings::Woodcutter, Pos::new(1, 8), BuildMethod::SpawnExisting).unwrap();
    let s2 = world.build(Buildings::MainStore, Pos::new(8, 8), BuildMethod::SpawnExisting).unwrap();
    assert_eq!(world.get_stores(), vec![s, s2]);
    assert_eq!(world.get_hearths(), vec![h]);
    assert_eq!(world.get_gatherers(&InventoryItems::Wood), vec![g]);
    assert!(world.get_gatherers(&InventoryItems::Berries).is_empty());
    assert!(world.map.get(&Pos::new(2, 2)).is_store());
    assert!(world.map.get(&Pos::new(9, 2)).is_hearth());
    assert!(!world.map.get(&Pos::new(9, 2)).is_store());
}

#[test]
fn gathering_takes_one_charge_and_frees_the_tile() {
    let mut map = WorldMap::new(4, 1);
    map.set(&Pos::new(2, 0), ResourceType::tile_tree());
    let mut g = GatheringAction::new(vec![Pos::new(0, 0), Pos::new(1, 0), Pos::new(2, 0)], &mut map);
    assert!(matches!(map.get(&Pos::new(2, 0)), TileType::Resource(_, _, true)));
    let mut result = g.continue_action(&mut map, 1_000_000);
    let mut ticks = 0;
    while let GatheringActionResult::InProgress(_) = result {
        result = g.continue_action(&mut map, 1_000_000);
        ticks += 1;
        assert!(ticks < 100);
    }
    match result {
        GatheringActionResult::Completed(b) => assert_eq!(b.first, (InventoryItems::Wood, 1)),
        _ => panic!(),
    }
    match map.get(&Pos::new(2, 0)) {
        TileType::Resource(_, c, claimed) => {
            assert_eq!(c.current, 9);
            assert!(!claimed);
        }
        _ => panic!(),
    }
}

#[test]
fn last_charge_leaves_empty_ground() {
    let mut map = WorldMap::new(2, 1);
    let charge = ResourceCharge {
        yield_item: InventoryItems::Berries,
        yield_amount: 1,
        bonus_item: InventoryItems::Herbs,
        bonus_amount: 1,
        total: 1,
        current: 1,
    };
    map.set(&Pos::new(1, 0), TileType::Resource(ResourceType::Berries, charge, false));
    let mut g = GatheringAction::new(vec![Pos::new(0, 0), Pos::new(1, 0)], &mut map);
    for _ in 0..40 {
        g.continue_action(&mut map, 1_000_000);
    }
    assert_eq!(map.get(&Pos::new(1, 0)), TileType::Empty);
}

#[test]
fn transit_moves_along_the_path() {
    let map = WorldMap::new(4, 1);
    let mut tr = TransitAction::new(vec![Pos::new(0, 0), Pos::new(1, 0), Pos::new(2, 0)], &map);
    assert_eq!(tr.continue_action(1_500_000), TransitActionResult::InProgress(Pos::new(1, 0)));
    assert_eq!(tr.continue_action(1_500_000), TransitActionResult::Completed(Pos::new(2, 0)));
}

#[test]
fn store_gone_on_arrival_makes_worker_lost_with_retry_due() {
    let mut world = World::new(WorldMap::new(8, 8));
    let path = vec![Pos::new(1, 1), Pos::new(2, 1)];
    let transit = TransitAction::new(path, &world.map);
    let mut w = Worker::new("Porter".to_string(), Pos::new(1, 1), 5);
    w.inventory.add(&InventoryItems::Wood, 3);
    w.state = rusty_rain::worker::WorkerState::Storing(transit);
    let (w, _) = w.continue_action(Pos::new(5, 5), 10_000_000, &mut world, false);
    assert_eq!(w.state_kind(), StateKind::Lost);
    match &w.state {
        rusty_rain::worker::WorkerState::Lost(t) => assert_eq!(t.progress, t.requirement),
        _ => panic!(),
    }
    assert_eq!(w.inventory.get(&InventoryItems::Wood), 3);
    let (w, _) = w.continue_action(Pos::new(5, 5), 1, &mut world, false);
    assert_eq!(w.state_kind(), StateKind::Lost);
}

#[test]
fn break_without_reachable_hearth_exhausts_worker() {
    let mut world = World::new(WorldMap::new(8, 8));
    let mut w = Worker::new("Tired".to_string(), Pos::new(1, 1), 5);
    w.break_progress.progress = w.break_progress.requirement;
    let (w, _) = w.continue_action(Pos::new(1, 1), 1, &mut world, false);
    assert_eq!(w.state_kind(), StateKind::Idle);
    assert!(w.exhausted);
    assert_eq!(w.break_progress.progress, 0);
    let h = world.build(Buildings::MainHearth, Pos::new(3, 3), BuildMethod::SpawnExisting).unwrap();
    let _ = h;
    let mut w = Worker::new("Rested".to_string(), Pos::new(1, 1), 5);
    w.break_progress.progress = w.break_progress.requirement;
    let (w, _) = w.continue_action(Pos::new(1, 1), 1, &mut world, false);
    assert_eq!(w.state_kind(), StateKind::TakingBreak);
}

#[test]
fn inventory_from_pairs_and_assigning_workers() {
    let inv = Inventory::from_iter(&vec![(InventoryItems::Wood, 1), (InventoryItems::Resin, 2), (InventoryItems::Wood, 3)]);
    assert_eq!(inv.get(&InventoryItems::Wood), 4);
    assert_eq!(inv.get(&InventoryItems::Resin), 2);
    assert!(inv.limit.is_none());
    let mut world = World::new(WorldMap::new(10, 10));
    let g = world.build(Buildings::Woodcutter, Pos::new(2, 2), BuildMethod::SpawnExisting).unwrap();
    let pos = world.shops[g].building_base.pos;
    world.shops[g].building_base.assign_worker(Worker::new("New".to_string(), pos, 5));
    assert_eq!(world.shops[g].building_base.workers.len(), 1);
}

#[test]
fn builder_skips_a_store_without_the_missing_materials() {

    let mut world = World::new(WorldMap::new(24, 12));
    let near = world.build(Buildings::MainStore, Pos::new(8, 1), BuildMethod::SpawnExisting).unwrap();
    let far = world.build(Buildings::MainStore, Pos::new(18, 1), BuildMethod::SpawnExisting).unwrap();
    world.shops[near].building_base.output.add(&InventoryItems::Wood, 9);
    world.shops[far].building_base.output.add(&InventoryItems::Bricks, 2);
    world.shops[far].building_base.output.add(&InventoryItems::Fabric, 1);
    assert!(world.build(Buildings::Lumbermill, Pos::new(2, 7), BuildMethod::SpawnBuildZone).is_some());
    world.build_zones[0].materials_delivered.add(&InventoryItems::Bricks, 1);
    let w = schedule_new_work(Worker::new("Bob".to_string(), Pos::new(9, 6), 5), &mut world);
    assert_eq!(w.state_kind(), StateKind::SupplyingBuildZone);
    assert_eq!(w.inventory.get(&InventoryItems::Bricks), 1);
    assert_eq!(w.inventory.get(&InventoryItems::Fabric), 1);
    assert_eq!(world.shops[far].building_base.output.get(&InventoryItems::Bricks), 1);
    assert_eq!(world.shops[near].building_base.output.get(&InventoryItems::Wood), 9);
    assert!(world.build_zones.is_empty());
}

#[test]
fn builder_idles_and_requeues_without_a_supplier() {

    let mut world = World::new(WorldMap::new(24, 12));
    let near = world.build(Buildings::MainStore, Pos::new(8, 1), BuildMethod::SpawnExisting).unwrap();
    world.shops[near].building_base.output.add(&InventoryItems::Wood, 9);
    assert!(world.build(Buildings::Lumbermill, Pos::new(2, 7), BuildMethod::SpawnBuildZone).is_some());
    let w = schedule_new_work(Worker::new("Bob".to_string(), Pos::new(9, 6), 5), &mut world);
    assert_eq!(w.state_kind(), StateKind::Idle);
    assert_eq!(world.build_zones.len(), 1);
    assert!(w.inventory.is_empty());
}

#[test]
fn adjacent_match_is_found_in_two_steps() {
    let mut map = WorldMap::new(10, 3);
    map.set(&Pos::new(1, 1), ResourceType::tile_tree());
    map.set(&Pos::new(8, 1), ResourceType::tile_tree());
    let wood = TileQuery::UnclaimedResource(vec![InventoryItems::Wood]);
    let p = dijkstra_closest(&map, Pos::new(1, 0), &wood).unwrap();
    assert_eq!(p, vec![Pos::new(1, 0), Pos::new(1, 1)]);
    let p = a_star(&map, Pos::new(5, 0), Pos::new(6, 0)).unwrap();
    assert_eq!(p, vec![Pos::new(5, 0), Pos::new(6, 0)]);
}
