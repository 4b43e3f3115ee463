use vstd::prelude::*;

use crate::config::Buildings;
use crate::items::InventoryItems;
use crate::math::Pos;

verus! {

/// Most tiles a map may have: travel costs of this many tiles still add up within `u64`.
pub const MAX_CELLS: u64 = 1_099_511_627_776;

#[derive(Clone, Copy, Debug, PartialEq, Eq, Structural)]
pub enum ResourceType {
    Tree,
    Berries,
    Herbs,
}

/// What a resource tile still holds, and what one gather yields.
#[derive(Clone, Copy, Debug, PartialEq, Eq, Structural)]
pub struct ResourceCharge {
    pub yield_item: InventoryItems,
    pub yield_amount: u64,
    pub bonus_item: InventoryItems,
    pub bonus_amount: u64,
    pub total: u64,
    pub current: u64,
}

impl ResourceCharge {
    /// Uses up one charge and returns the bundle a gather yields.
    pub fn gather(&mut self) -> (r: Vec<(InventoryItems, u64)>)
        ensures
            final(self).current == if old(self).current > 0 {
                (old(self).current - 1) as u64
            } else {
                0
            },
            r@ == seq![
                (old(self).yield_item, old(self).yield_amount),
                (old(self).bonus_item, old(self).bonus_amount),
            ],
            final(self).yield_item == old(self).yield_item,
            final(self).yield_amount == old(self).yield_amount,
            final(self).bonus_item == old(self).bonus_item,
            final(self).bonus_amount == old(self).bonus_amount,
            final(self).total == old(self).total,
    {
        if self.current > 0 {
            self.current = self.current - 1;
        }
        let r = vec![(self.yield_item, self.yield_amount), (self.bonus_item, self.bonus_amount)];
        assert(r@ =~= seq![
            (old(self).yield_item, old(self).yield_amount),
            (old(self).bonus_item, old(self).bonus_amount),
        ]);
        r
    }
}

/// One cell of the map. A resource carries its kind, its charge and whether a worker is on
/// its way to harvest it.
#[derive(Clone, Copy, Debug, PartialEq, Eq, Structural)]
pub enum TileType {
    Empty,
    Road,
    Structure(Buildings),
    BuildZone(Buildings),
    Resource(ResourceType, ResourceCharge, bool),
}

impl TileType {
    /// Time, in microseconds, to step onto the tile.
    pub open spec fn spec_cost(self) -> u64 {
        match self {
            TileType::Empty => 1_000_000,
            TileType::Road => 700_000,
            TileType::Structure(_) => 1_000_000,
            TileType::BuildZone(_) => 1_000_000,
            TileType::Resource(_, _, _) => 2_000_000,
        }
    }

    pub open spec fn spec_traversible(self) -> bool {
        match self {
            TileType::Empty => true,
            TileType::Road => true,
            TileType::Structure(_) => false,
            TileType::BuildZone(_) => false,
            TileType::Resource(rt, _, _) => rt != ResourceType::Tree,
        }
    }

    pub fn cost(&self) -> (r: u64)
        ensures
            r == self.spec_cost(),
            1 <= r <= 2_000_000,
    {
        match self {
            TileType::Empty => 1_000_000,
            TileType::Road => 700_000,
            TileType::Structure(_) => 1_000_000,
            TileType::BuildZone(_) => 1_000_000,
            TileType::Resource(_, _, _) => 2_000_000,
        }
    }

    pub fn is_traversible(&self) -> (r: bool)
        ensures
            r == self.spec_traversible(),
    {
        match self {
            TileType::Empty => true,
            TileType::Road => true,
            TileType::Structure(_) => false,
            TileType::BuildZone(_) => false,
            TileType::Resource(rt, _, _) => match rt {
                ResourceType::Tree => false,
                _ => true,
            },
        }
    }

    pub fn is_store(&self) -> (r: bool)
        ensures
            r == (*self == TileType::Structure(Buildings::MainStore)),
    {
        match self {
            TileType::Structure(Buildings::MainStore) => true,
            _ => false,
        }
    }

    pub fn is_hearth(&self) -> (r: bool)
        ensures
            r == (*self == TileType::Structure(Buildings::MainHearth)),
    {
        match self {
            TileType::Structure(Buildings::MainHearth) => true,
            _ => false,
        }
    }

    pub fn is_empty(&self) -> (r: bool)
        ensures
            r == (*self == TileType::Empty),
    {
        match self {
            TileType::Empty => true,
            _ => false,
        }
    }
}

impl ResourceType {
    /// A tree: ten charges of one wood each.
    pub fn tile_tree() -> (r: TileType)
        ensures
            r matches TileType::Resource(ResourceType::Tree, c, false) && c.current == 10
                && c.yield_item == InventoryItems::Wood,
    {
        TileType::Resource(
            ResourceType::Tree,
            ResourceCharge {
                yield_item: InventoryItems::Wood,
                yield_amount: 1,
                bonus_item: InventoryItems::Resin,
                bonus_amount: 0,
                total: 10,
                current: 10,
            },
            false,
        )
    }

    /// A berry bush: fifty charges of one berry each.
    pub fn tile_berry() -> (r: TileType)
        ensures
            r matches TileType::Resource(ResourceType::Berries, c, false) && c.current == 50
                && c.yield_item == InventoryItems::Berries,
    {
        TileType::Resource(
            ResourceType::Berries,
            ResourceCharge {
                yield_item: InventoryItems::Berries,
                yield_amount: 1,
                bonus_item: InventoryItems::Herbs,
                bonus_amount: 0,
                total: 50,
                current: 50,
            },
            false,
        )
    }
}

/// A rectangular grid of tiles, stored row by row.
pub struct WorldMap {
    pub width: usize,
    pub height: usize,
    pub tiles: Vec<TileType>,
}

pub proof fn lemma_idx_bounds(x: int, y: int, w: int, h: int)
    requires
        0 <= x < w,
        0 <= y < h,
    ensures
        0 <= y * w + x < w * h,
{
    assert(y * w + x < (y + 1) * w) by (nonlinear_arith)
        requires
            0 <= x < w,
            0 <= y,
    ;
    assert((y + 1) * w <= h * w) by (nonlinear_arith)
        requires
            y + 1 <= h,
            0 <= w,
    ;
    assert(0 <= y * w) by (nonlinear_arith)
        requires
            0 <= y,
            0 <= w,
    ;
}

pub proof fn lemma_idx_injective(x1: int, y1: int, x2: int, y2: int, w: int)
    requires
        0 <= x1 < w,
        0 <= x2 < w,
        0 <= y1,
        0 <= y2,
        y1 * w + x1 == y2 * w + x2,
    ensures
        x1 == x2 && y1 == y2,
{
    if y1 < y2 {
        assert(y1 * w + x1 < y2 * w + x2) by (nonlinear_arith)
            requires
                y1 + 1 <= y2,
                0 <= x1 < w,
                0 <= x2,
        ;
    } else if y2 < y1 {
        assert(y2 * w + x2 < y1 * w + x1) by (nonlinear_arith)
            requires
                y2 + 1 <= y1,
                0 <= x2 < w,
                0 <= x1,
        ;
    }
}

impl WorldMap {
    pub open spec fn wf(&self) -> bool {
        &&& 1 <= self.width
        &&& 1 <= self.height
        &&& self.tiles@.len() <= MAX_CELLS
        &&& self.tiles@.len() <= usize::MAX
        &&& self.tiles@.len() == self.width * self.height
    }

    pub open spec fn in_bounds(&self, p: Pos) -> bool {
        p.x < self.width && p.y < self.height
    }

    pub open spec fn idx(&self, p: Pos) -> int {
        p.y * self.width + p.x
    }

    pub open spec fn tile(&self, p: Pos) -> TileType {
        self.tiles@[self.idx(p)]
    }

    /// Whether `p` is inside the map and can be walked through.
    pub open spec fn passable(&self, p: Pos) -> bool {
        self.in_bounds(p) && self.tile(p).spec_traversible()
    }

    /// Whether `p` lies in the `w` by `h` rectangle whose top-left corner is `at`.
    pub open spec fn in_rect(p: Pos, at: Pos, w: int, h: int) -> bool {
        at.x <= p.x < at.x + w && at.y <= p.y < at.y + h
    }

    pub proof fn lemma_idx(&self, p: Pos)
        requires
            self.wf(),
            self.in_bounds(p),
        ensures
            0 <= self.idx(p) < self.tiles@.len(),
            0 <= p.y * self.width <= self.idx(p),
            self.tiles@.len() <= MAX_CELLS,
            self.tiles@.len() <= usize::MAX,
    {
        lemma_idx_bounds(p.x as int, p.y as int, self.width as int, self.height as int);
        assert(0 <= p.y * self.width) by (nonlinear_arith)
            requires
                0 <= p.y,
                0 <= self.width,
        ;
    }

    pub proof fn lemma_idx_distinct(&self, p: Pos, q: Pos)
        requires
            self.wf(),
            self.in_bounds(p),
            self.in_bounds(q),
            p != q,
        ensures
            self.idx(p) != self.idx(q),
    {
        if self.idx(p) == self.idx(q) {
            lemma_idx_injective(
                p.x as int,
                p.y as int,
                q.x as int,
                q.y as int,
                self.width as int,
            );
        }
    }

    pub fn height(&self) -> (r: usize)
        ensures
            r == self.height,
    {
        self.height
    }

    pub fn width(&self) -> (r: usize)
        ensures
            r == self.width,
    {
        self.width
    }

    /// A map of empty tiles.
    pub fn new(width: usize, height: usize) -> (r: WorldMap)
        requires
            1 <= width,
            1 <= height,
            width * height <= MAX_CELLS,
            width * height <= usize::MAX,
        ensures
            r.wf(),
            r.width == width,
            r.height == height,
            forall|p: Pos| r.in_bounds(p) ==> r.tile(p) == TileType::Empty,
    {
        proof {
            lemma_idx_bounds(0, 0, width as int, height as int);
        }
        let tiles = vec![TileType::Empty; width * height];
        let r = WorldMap { width, height, tiles };
        assert forall|p: Pos| r.in_bounds(p) implies r.tile(p) == TileType::Empty by {
            r.lemma_idx(p);
        }
        r
    }

    pub fn within_bounds(&self, pos: &Pos) -> (r: bool)
        ensures
            r == self.in_bounds(*pos),
    {
        pos.x < self.width && pos.y < self.height
    }

    pub fn get(&self, pos: &Pos) -> (r: TileType)
        requires
            self.wf(),
            self.in_bounds(*pos),
        ensures
            r == self.tile(*pos),
    {
        proof {
            self.lemma_idx(*pos);
        }
        self.tiles[pos.y * self.width + pos.x]
    }

    /// Replaces the tile at `pos`.
    pub fn set(&mut self, pos: &Pos, tile: TileType)
        requires
            old(self).wf(),
            old(self).in_bounds(*pos),
        ensures
            final(self).wf(),
            final(self).width == old(self).width,
            final(self).height == old(self).height,
            final(self).tile(*pos) == tile,
            forall|q: Pos|
                final(self).in_bounds(q) && q != *pos ==> #[trigger] final(self).tile(q) == old(
                    self,
                ).tile(q),
    {
        proof {
            self.lemma_idx(*pos);
        }
        let i = pos.y * self.width + pos.x;
        self.tiles.set(i, tile);
        proof {
            assert forall|q: Pos| self.in_bounds(q) && q != *pos implies #[trigger] self.tile(q)
                == old(self).tile(q) by {
                old(self).lemma_idx_distinct(q, *pos);
                old(self).lemma_idx(q);
            }
        }
    }

    /// A map ringed, two tiles deep, with trees.
    pub fn new_test(width: usize, height: usize) -> (r: WorldMap)
        requires
            2 <= width,
            2 <= height,
            width * height <= MAX_CELLS,
            width * height <= usize::MAX,
        ensures
            r.wf(),
            r.width == width,
            r.height == height,
    {
        let mut world = WorldMap::new(width, height);
        let mut y: usize = 0;
        while y < height
            invariant
                world.wf(),
                world.width == width,
                world.height == height,
                2 <= width,
                2 <= height,
            decreases height - y,
        {
            let mut x: usize = 0;
            while x < width
                invariant
                    world.wf(),
                    world.width == width,
                    world.height == height,
                    y < height,
                    2 <= width,
                    2 <= height,
                decreases width - x,
            {
                if y <= 1 || y >= height - 2 || x <= 1 || x >= width - 2 {
                    world.set(&Pos { x, y }, ResourceType::tile_tree());
                }
                x = x + 1;
            }
            y = y + 1;
        }
        world
    }

    /// Whether a `width` by `height` rectangle at `pos` lies inside the map, clear of its last
    /// row and column, and covers empty tiles only.
    pub fn can_build(&self, pos: &Pos, width: u8, height: u8) -> (r: bool)
        requires
            self.wf(),
        ensures
            r == (pos.y + height < self.height && pos.x + width < self.width && forall|q: Pos|
                #![trigger self.tile(q)]
                Self::in_rect(q, *pos, width as int, height as int) ==> self.tile(q)
                    == TileType::Empty),
    {
        if pos.y >= self.height || height as usize >= self.height - pos.y {
            return false;
        }
        if pos.x >= self.width || width as usize >= self.width - pos.x {
            return false;
        }
        let mut h: usize = 0;
        while h < height as usize
            invariant
                self.wf(),
                pos.y + height < self.height,
                pos.x + width < self.width,
                h <= height,
                forall|q: Pos|
                    #![trigger self.tile(q)]
                    Self::in_rect(q, *pos, width as int, h as int) ==> self.tile(q)
                        == TileType::Empty,
            decreases height - h,
        {
            let mut w: usize = 0;
            while w < width as usize
                invariant
                    self.wf(),
                    pos.y + height < self.height,
                    pos.x + width < self.width,
                    h < height,
                    w <= width,
                    forall|q: Pos|
                        #![trigger self.tile(q)]
                        Self::in_rect(q, *pos, width as int, h as int) ==> self.tile(q)
                            == TileType::Empty,
                    forall|q: Pos|
                        #![trigger self.tile(q)]
                        Self::in_rect(q, Pos { x: pos.x, y: (pos.y + h) as usize }, w as int, 1)
                            ==> self.tile(q) == TileType::Empty,
                decreases width - w,
            {
                let q = Pos { x: pos.x + w, y: pos.y + h };
                if !self.get(&q).is_empty() {
                    return false;
                }
                w = w + 1;
            }
            h = h + 1;
        }
        true
    }

    /// Fills a `width` by `height` rectangle at `pos` with `tile`.
    pub fn build(&mut self, pos: &Pos, width: u8, height: u8, tile: TileType)
        requires
            old(self).wf(),
            pos.y + height <= old(self).height,
            pos.x + width <= old(self).width,
        ensures
            final(self).wf(),
            final(self).width == old(self).width,
            final(self).height == old(self).height,
            forall|q: Pos|
                #![trigger final(self).tile(q)]
                final(self).in_bounds(q) ==> final(self).tile(q) == if Self::in_rect(
                    q,
                    *pos,
                    width as int,
                    height as int,
                ) {
                    tile
                } else {
                    old(self).tile(q)
                },
    {
        let mut h: usize = 0;
        while h < height as usize
            invariant
                self.wf(),
                self.width == old(self).width,
                self.height == old(self).height,
                pos.y + height <= self.height,
                pos.x + width <= self.width,
                h <= height,
                forall|q: Pos|
                    #![trigger self.tile(q)]
                    self.in_bounds(q) ==> self.tile(q) == if Self::in_rect(
                        q,
                        *pos,
                        width as int,
                        h as int,
                    ) {
                        tile
                    } else {
                        old(self).tile(q)
                    },
            decreases height - h,
        {
            let mut w: usize = 0;
            while w < width as usize
                invariant
                    self.wf(),
                    self.width == old(self).width,
                    self.height == old(self).height,
                    pos.y + height <= self.height,
                    pos.x + width <= self.width,
                    h < height,
                    w <= width,
                    forall|q: Pos|
                        #![trigger self.tile(q)]
                        self.in_bounds(q) ==> self.tile(q) == if Self::in_rect(
                            q,
                            *pos,
                            width as int,
                            h as int,
                        ) || Self::in_rect(
                            q,
                            Pos { x: pos.x, y: (pos.y + h) as usize },
                            w as int,
                            1,
                        ) {
                            tile
                        } else {
                            old(self).tile(q)
                        },
                decreases width - w,
            {
                let q = Pos { x: pos.x + w, y: pos.y + h };
                self.set(&q, tile);
                w = w + 1;
            }
            h = h + 1;
        }
    }

    /// The cost of stepping onto each tile of `path`.
    pub fn path_to_cost(&self, path: &Vec<Pos>) -> (r: Vec<u64>)
        requires
            self.wf(),
            forall|i: int| 0 <= i < path@.len() ==> self.in_bounds(#[trigger] path@[i]),
        ensures
            r@.len() == path@.len(),
            forall|i: int| 0 <= i < r@.len() ==> r@[i] == #[trigger] self.tile(path@[i]).spec_cost(),
            forall|i: int| 0 <= i < r@.len() ==> 1 <= #[trigger] r@[i] <= 2_000_000,
    {
        let mut r: Vec<u64> = Vec::new();
        let mut i: usize = 0;
        while i < path.len()
            invariant
                self.wf(),
                forall|i: int| 0 <= i < path@.len() ==> self.in_bounds(#[trigger] path@[i]),
                i <= path@.len(),
                r@.len() == i,
                forall|j: int| 0 <= j < i ==> r@[j] == #[trigger] self.tile(path@[j]).spec_cost(),
                forall|j: int| 0 <= j < i ==> 1 <= #[trigger] r@[j] <= 2_000_000,
            decreases path@.len() - i,
        {
            let c = self.get(&path[i]).cost();
            r.push(c);
            i = i + 1;
        }
        r
    }
}

} // verus!
