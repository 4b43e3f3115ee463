use vstd::prelude::*;

verus! {

/// Number of distinct inventory items.
pub const N_ITEMS: usize = 54;

/// Every kind of good that can be stored, carried or produced.
#[derive(Clone, Copy, Debug, PartialEq, Eq, Structural, Hash)]
pub enum InventoryItems {
    Wood,
    Resin,
    Stone,
    Clay,
    PlantFiber,
    Reed,
    Leather,
    CopperOre,
    BoneMarrow,
    Grain,
    Herbs,
    Roots,
    Vegetables,
    Berries,
    Mushrooms,
    Eggs,
    Meat,
    Insects,
    Plank,
    Bricks,
    Fabric,
    Pottery,
    Oil,
    Coal,
    Waterskins,
    CopperBars,
    CrystalizedDew,
    Barrels,
    Flour,
    PackOfProvisions,
    PackOfCrops,
    PackOfBuildingMaterials,
    PackOfTradeGoods,
    PackOfLuxuryGoods,
    Skewers,
    Jerky,
    PickledGoods,
    Paste,
    Biscuits,
    Pie,
    Porridge,
    Coats,
    Boots,
    Scrolls,
    Dye,
    Incense,
    Wine,
    Ale,
    Tea,
    TrainingGear,
    Tools,
    Parts,
    WildfireEssence,
    Amber,
}

impl InventoryItems {
    /// The slot of this item in an inventory's table.
    pub open spec fn slot(self) -> int {
        match self {
            InventoryItems::Wood => 0,
            InventoryItems::Resin => 1,
            InventoryItems::Stone => 2,
            InventoryItems::Clay => 3,
            InventoryItems::PlantFiber => 4,
            InventoryItems::Reed => 5,
            InventoryItems::Leather => 6,
            InventoryItems::CopperOre => 7,
            InventoryItems::BoneMarrow => 8,
            InventoryItems::Grain => 9,
            InventoryItems::Herbs => 10,
            InventoryItems::Roots => 11,
            InventoryItems::Vegetables => 12,
            InventoryItems::Berries => 13,
            InventoryItems::Mushrooms => 14,
            InventoryItems::Eggs => 15,
            InventoryItems::Meat => 16,
            InventoryItems::Insects => 17,
            InventoryItems::Plank => 18,
            InventoryItems::Bricks => 19,
            InventoryItems::Fabric => 20,
            InventoryItems::Pottery => 21,
            InventoryItems::Oil => 22,
            InventoryItems::Coal => 23,
            InventoryItems::Waterskins => 24,
            InventoryItems::CopperBars => 25,
            InventoryItems::CrystalizedDew => 26,
            InventoryItems::Barrels => 27,
            InventoryItems::Flour => 28,
            InventoryItems::PackOfProvisions => 29,
            InventoryItems::PackOfCrops => 30,
            InventoryItems::PackOfBuildingMaterials => 31,
            InventoryItems::PackOfTradeGoods => 32,
            InventoryItems::PackOfLuxuryGoods => 33,
            InventoryItems::Skewers => 34,
            InventoryItems::Jerky => 35,
            InventoryItems::PickledGoods => 36,
            InventoryItems::Paste => 37,
            InventoryItems::Biscuits => 38,
            InventoryItems::Pie => 39,
            InventoryItems::Porridge => 40,
            InventoryItems::Coats => 41,
            InventoryItems::Boots => 42,
            InventoryItems::Scrolls => 43,
            InventoryItems::Dye => 44,
            InventoryItems::Incense => 45,
            InventoryItems::Wine => 46,
            InventoryItems::Ale => 47,
            InventoryItems::Tea => 48,
            InventoryItems::TrainingGear => 49,
            InventoryItems::Tools => 50,
            InventoryItems::Parts => 51,
            InventoryItems::WildfireEssence => 52,
            InventoryItems::Amber => 53,
        }
    }

    /// Executable form of `slot`.
    pub fn index(&self) -> (r: usize)
        ensures
            r as int == self.slot(),
            r < N_ITEMS,
    {
        match self {
            InventoryItems::Wood => 0,
            InventoryItems::Resin => 1,
            InventoryItems::Stone => 2,
            InventoryItems::Clay => 3,
            InventoryItems::PlantFiber => 4,
            InventoryItems::Reed => 5,
            InventoryItems::Leather => 6,
            InventoryItems::CopperOre => 7,
            InventoryItems::BoneMarrow => 8,
            InventoryItems::Grain => 9,
            InventoryItems::Herbs => 10,
            InventoryItems::Roots => 11,
            InventoryItems::Vegetables => 12,
            InventoryItems::Berries => 13,
            InventoryItems::Mushrooms => 14,
            InventoryItems::Eggs => 15,
            InventoryItems::Meat => 16,
            InventoryItems::Insects => 17,
            InventoryItems::Plank => 18,
            InventoryItems::Bricks => 19,
            InventoryItems::Fabric => 20,
            InventoryItems::Pottery => 21,
            InventoryItems::Oil => 22,
            InventoryItems::Coal => 23,
            InventoryItems::Waterskins => 24,
            InventoryItems::CopperBars => 25,
            InventoryItems::CrystalizedDew => 26,
            InventoryItems::Barrels => 27,
            InventoryItems::Flour => 28,
            InventoryItems::PackOfProvisions => 29,
            InventoryItems::PackOfCrops => 30,
            InventoryItems::PackOfBuildingMaterials => 31,
            InventoryItems::PackOfTradeGoods => 32,
            InventoryItems::PackOfLuxuryGoods => 33,
            InventoryItems::Skewers => 34,
            InventoryItems::Jerky => 35,
            InventoryItems::PickledGoods => 36,
            InventoryItems::Paste => 37,
            InventoryItems::Biscuits => 38,
            InventoryItems::Pie => 39,
            InventoryItems::Porridge => 40,
            InventoryItems::Coats => 41,
            InventoryItems::Boots => 42,
            InventoryItems::Scrolls => 43,
            InventoryItems::Dye => 44,
            InventoryItems::Incense => 45,
            InventoryItems::Wine => 46,
            InventoryItems::Ale => 47,
            InventoryItems::Tea => 48,
            InventoryItems::TrainingGear => 49,
            InventoryItems::Tools => 50,
            InventoryItems::Parts => 51,
            InventoryItems::WildfireEssence => 52,
            InventoryItems::Amber => 53,
        }
    }

    /// The item stored in slot `i`.
    pub fn from_index(i: usize) -> (r: InventoryItems)
        requires
            i < N_ITEMS,
        ensures
            r.slot() == i as int,
    {
        match i {
            0 => InventoryItems::Wood,
            1 => InventoryItems::Resin,
            2 => InventoryItems::Stone,
            3 => InventoryItems::Clay,
            4 => InventoryItems::PlantFiber,
            5 => InventoryItems::Reed,
            6 => InventoryItems::Leather,
            7 => InventoryItems::CopperOre,
            8 => InventoryItems::BoneMarrow,
            9 => InventoryItems::Grain,
            10 => InventoryItems::Herbs,
            11 => InventoryItems::Roots,
            12 => InventoryItems::Vegetables,
            13 => InventoryItems::Berries,
            14 => InventoryItems::Mushrooms,
            15 => InventoryItems::Eggs,
            16 => InventoryItems::Meat,
            17 => InventoryItems::Insects,
            18 => InventoryItems::Plank,
            19 => InventoryItems::Bricks,
            20 => InventoryItems::Fabric,
            21 => InventoryItems::Pottery,
            22 => InventoryItems::Oil,
            23 => InventoryItems::Coal,
            24 => InventoryItems::Waterskins,
            25 => InventoryItems::CopperBars,
            26 => InventoryItems::CrystalizedDew,
            27 => InventoryItems::Barrels,
            28 => InventoryItems::Flour,
            29 => InventoryItems::PackOfProvisions,
            30 => InventoryItems::PackOfCrops,
            31 => InventoryItems::PackOfBuildingMaterials,
            32 => InventoryItems::PackOfTradeGoods,
            33 => InventoryItems::PackOfLuxuryGoods,
            34 => InventoryItems::Skewers,
            35 => InventoryItems::Jerky,
            36 => InventoryItems::PickledGoods,
            37 => InventoryItems::Paste,
            38 => InventoryItems::Biscuits,
            39 => InventoryItems::Pie,
            40 => InventoryItems::Porridge,
            41 => InventoryItems::Coats,
            42 => InventoryItems::Boots,
            43 => InventoryItems::Scrolls,
            44 => InventoryItems::Dye,
            45 => InventoryItems::Incense,
            46 => InventoryItems::Wine,
            47 => InventoryItems::Ale,
            48 => InventoryItems::Tea,
            49 => InventoryItems::TrainingGear,
            50 => InventoryItems::Tools,
            51 => InventoryItems::Parts,
            52 => InventoryItems::WildfireEssence,
            _ => InventoryItems::Amber,
        }
    }

    /// The item kept in slot `k`.
    /// The item kept in slot `k`.
    pub open spec fn of_slot(k: int) -> InventoryItems {
        if k == 0 {
            InventoryItems::Wood
        } else if k == 1 {
            InventoryItems::Resin
        } else if k == 2 {
            InventoryItems::Stone
        } else if k == 3 {
            InventoryItems::Clay
        } else if k == 4 {
            InventoryItems::PlantFiber
        } else if k == 5 {
            InventoryItems::Reed
        } else if k == 6 {
            InventoryItems::Leather
        } else if k == 7 {
            InventoryItems::CopperOre
        } else if k == 8 {
            InventoryItems::BoneMarrow
        } else if k == 9 {
            InventoryItems::Grain
        } else if k == 10 {
            InventoryItems::Herbs
        } else if k == 11 {
            InventoryItems::Roots
        } else if k == 12 {
            InventoryItems::Vegetables
        } else if k == 13 {
            InventoryItems::Berries
        } else if k == 14 {
            InventoryItems::Mushrooms
        } else if k == 15 {
            InventoryItems::Eggs
        } else if k == 16 {
            InventoryItems::Meat
        } else if k == 17 {
            InventoryItems::Insects
        } else if k == 18 {
            InventoryItems::Plank
        } else if k == 19 {
            InventoryItems::Bricks
        } else if k == 20 {
            InventoryItems::Fabric
        } else if k == 21 {
            InventoryItems::Pottery
        } else if k == 22 {
            InventoryItems::Oil
        } else if k == 23 {
            InventoryItems::Coal
        } else if k == 24 {
            InventoryItems::Waterskins
        } else if k == 25 {
            InventoryItems::CopperBars
        } else if k == 26 {
            InventoryItems::CrystalizedDew
        } else if k == 27 {
            InventoryItems::Barrels
        } else if k == 28 {
            InventoryItems::Flour
        } else if k == 29 {
            InventoryItems::PackOfProvisions
        } else if k == 30 {
            InventoryItems::PackOfCrops
        } else if k == 31 {
            InventoryItems::PackOfBuildingMaterials
        } else if k == 32 {
            InventoryItems::PackOfTradeGoods
        } else if k == 33 {
            InventoryItems::PackOfLuxuryGoods
        } else if k == 34 {
            InventoryItems::Skewers
        } else if k == 35 {
            InventoryItems::Jerky
        } else if k == 36 {
            InventoryItems::PickledGoods
        } else if k == 37 {
            InventoryItems::Paste
        } else if k == 38 {
            InventoryItems::Biscuits
        } else if k == 39 {
            InventoryItems::Pie
        } else if k == 40 {
            InventoryItems::Porridge
        } else if k == 41 {
            InventoryItems::Coats
        } else if k == 42 {
            InventoryItems::Boots
        } else if k == 43 {
            InventoryItems::Scrolls
        } else if k == 44 {
            InventoryItems::Dye
        } else if k == 45 {
            InventoryItems::Incense
        } else if k == 46 {
            InventoryItems::Wine
        } else if k == 47 {
            InventoryItems::Ale
        } else if k == 48 {
            InventoryItems::Tea
        } else if k == 49 {
            InventoryItems::TrainingGear
        } else if k == 50 {
            InventoryItems::Tools
        } else if k == 51 {
            InventoryItems::Parts
        } else if k == 52 {
            InventoryItems::WildfireEssence
        } else {
            InventoryItems::Amber
        }
    }

    pub proof fn lemma_of_slot(k: int)
        requires
            0 <= k < N_ITEMS,
        ensures
            Self::of_slot(k).slot() == k,
    {
    }

    pub proof fn lemma_slot_bounds(self)
        ensures
            0 <= self.slot() < N_ITEMS,
    {
    }

    pub proof fn lemma_slot_injective(self, other: InventoryItems)
        ensures
            self.slot() == other.slot() <==> self == other,
    {
    }
}

/// Static description of an item kind.
pub struct InventoryItemConfig {
    pub name: String,
    pub is_fuel: bool,
    pub is_basic_food: bool,
    pub is_pack: bool,
}

} // verus!
