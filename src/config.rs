use vstd::prelude::*;

use crate::items::InventoryItems;

verus! {

/// Every kind of building that can stand on the map.
#[derive(Clone, Copy, Debug, PartialEq, Eq, Structural, Hash)]
pub enum Buildings {
    Woodcutter,
    Herbalist,
    Stonecutter,
    Harvester,
    Forager,
    Trapper,
    MainHearth,
    MainStore,
    Hearth,
    Store,
    CrudeWorkstation,
    MakeshiftPost,
    Workshop,
    Cooperage,
    Carpenter,
    Cobbler,
    Weaver,
    CLothier,
    Leatherworker,
    BrickOven,
    Brickyard,
    Press,
    Provisioner,
    Smelter,
    Smithy,
    Toolshop,
    Artisan,
    AlchemistHut,
    Teahouse,
    Brewery,
    Distillery,
    Tinctury,
    DruidsHut,
    Tinkerer,
    Manufactory,
    Supplier,
    Scribe,
    Lumbermill,
    Kiln,
    FieldKitchen,
    Butcher,
    Bakery,
    Cookhouse,
    Smokehouse,
    Beanery,
    Cellar,
    Cannery,
    Granary,
    Grill,
    Rainmill,
    Pantry,
    Apothecary,
    Furnace,
    Ranch,
}

/// What a building does each tick.
#[derive(Clone, Copy, Debug, PartialEq, Eq, Structural)]
pub enum BuildingBehaviourDiscriminants {
    Hearth,
    Store,
    Gatherer,
    Producer,
}

/// How advanced a recipe is.
#[derive(Clone, Copy, Debug, PartialEq, Eq, Structural)]
pub enum ReceipeLevel {
    Crude,
    Basic,
    Regular,
    Specialized,
    Legendary,
}

/// A production recipe: each input slot lists alternatives, of which one is consumed.
#[derive(Clone)]
pub struct Receipe {
    pub input: Vec<Vec<(InventoryItems, u64)>>,
    pub output: Vec<(InventoryItems, u64)>,
    pub time_requirement: u64,
    pub receipe_level: ReceipeLevel,
}

/// A recipe with one alternative chosen for every slot.
#[derive(Clone)]
pub struct ProducedReceipe {
    pub input: Vec<(InventoryItems, u64)>,
    pub output: Vec<(InventoryItems, u64)>,
    pub time_requirement: u64,
}

/// Static data of one building kind. Times are in microseconds.
pub struct BuildingConfig {
    pub max_workers: u8,
    pub build_time: u64,
    pub build_materials: Vec<(InventoryItems, u64)>,
    pub production_receipes: Vec<Receipe>,
    pub gathered_resource_types: Vec<InventoryItems>,
    pub width: u8,
    pub height: u8,
    pub building_behaviour: BuildingBehaviourDiscriminants,
}

/// Three wood make two planks.
pub fn planks_3() -> (r: Receipe)
    ensures
        r.input@.len() == 1,
        r.output@.len() == 1,
{
    Receipe {
        input: vec![vec![(InventoryItems::Wood, 3)]],
        output: vec![(InventoryItems::Plank, 2)],
        time_requirement: 28_000_000,
        receipe_level: ReceipeLevel::Specialized,
    }
}

pub fn pack_of_trade_goods_1() -> (r: Receipe)
    ensures
        r.input@.len() == 1,
{
    Receipe {
        input: vec![
            vec![
                (InventoryItems::Dye, 8),
                (InventoryItems::Oil, 8),
                (InventoryItems::Flour, 6),
                (InventoryItems::Pottery, 6),
                (InventoryItems::Barrels, 6),
                (InventoryItems::Waterskins, 6),
            ],
        ],
        output: vec![(InventoryItems::PackOfTradeGoods, 2)],
        time_requirement: 42_000_000,
        receipe_level: ReceipeLevel::Basic,
    }
}

pub fn scrolls_1() -> (r: Receipe)
    ensures
        r.input@.len() == 2,
{
    Receipe {
        input: vec![
            vec![
                (InventoryItems::Leather, 4),
                (InventoryItems::PlantFiber, 4),
                (InventoryItems::Wood, 10),
            ],
            vec![(InventoryItems::Dye, 3), (InventoryItems::Wine, 3)],
        ],
        output: vec![(InventoryItems::Scrolls, 8)],
        time_requirement: 84_000_000,
        receipe_level: ReceipeLevel::Basic,
    }
}

impl Buildings {
    /// Whether static data exists for this kind.
    pub open spec fn is_configured(self) -> bool {
        self == Buildings::Woodcutter || self == Buildings::Lumbermill || self == Buildings::MainStore
            || self == Buildings::MainHearth
    }

    /// The behaviour a configured kind gets.
    pub open spec fn behaviour_of(self) -> BuildingBehaviourDiscriminants {
        match self {
            Buildings::Woodcutter => BuildingBehaviourDiscriminants::Gatherer,
            Buildings::Lumbermill => BuildingBehaviourDiscriminants::Producer,
            Buildings::MainHearth => BuildingBehaviourDiscriminants::Hearth,
            _ => BuildingBehaviourDiscriminants::Store,
        }
    }

    /// Width and height of a configured kind's footprint.
    pub open spec fn footprint(self) -> (u8, u8) {
        match self {
            Buildings::Woodcutter => (2, 2),
            Buildings::Lumbermill => (2, 3),
            Buildings::MainStore => (4, 3),
            _ => (4, 4),
        }
    }

    /// Static data of this kind, for the kinds that have any.
    pub fn get_data(&self) -> (r: Option<BuildingConfig>)
        ensures
            r is Some <==> self.is_configured(),
            r matches Some(c) ==> c.building_behaviour == self.behaviour_of() && 1 <= c.width
                && 1 <= c.height && (c.width, c.height) == self.footprint(),
    {
        match self {
            Buildings::Woodcutter => Some(
                BuildingConfig {
                    max_workers: 3,
                    production_receipes: Vec::new(),
                    gathered_resource_types: vec![InventoryItems::Wood],
                    width: 2,
                    height: 2,
                    building_behaviour: BuildingBehaviourDiscriminants::Gatherer,
                    build_time: 15_000_000,
                    build_materials: vec![(InventoryItems::Wood, 10), (InventoryItems::Parts, 2)],
                },
            ),
            Buildings::Lumbermill => Some(
                BuildingConfig {
                    max_workers: 2,
                    production_receipes: vec![planks_3(), pack_of_trade_goods_1(), scrolls_1()],
                    gathered_resource_types: Vec::new(),
                    width: 2,
                    height: 3,
                    building_behaviour: BuildingBehaviourDiscriminants::Producer,
                    build_time: 25_000_000,
                    build_materials: vec![(InventoryItems::Bricks, 2), (InventoryItems::Fabric, 2)],
                },
            ),
            Buildings::MainStore => Some(
                BuildingConfig {
                    max_workers: 0,
                    production_receipes: Vec::new(),
                    gathered_resource_types: Vec::new(),
                    width: 4,
                    height: 3,
                    building_behaviour: BuildingBehaviourDiscriminants::Store,
                    build_time: 0,
                    build_materials: Vec::new(),
                },
            ),
            Buildings::MainHearth => Some(
                BuildingConfig {
                    max_workers: 0,
                    production_receipes: Vec::new(),
                    gathered_resource_types: Vec::new(),
                    width: 4,
                    height: 4,
                    building_behaviour: BuildingBehaviourDiscriminants::Hearth,
                    build_time: 0,
                    build_materials: Vec::new(),
                },
            ),
            _ => None,
        }
    }
}

} // verus!
