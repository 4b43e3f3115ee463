use vstd::prelude::*;

use crate::items::{InventoryItems, N_ITEMS};

verus! {

/// No inventory ever holds more than this many units in total.
pub const QUANTITY_CEILING: u64 = 1_000_000_000_000;

/// Sum of a sequence of quantities.
pub open spec fn seq_sum(s: Seq<u64>) -> nat
    decreases s.len(),
{
    if s.len() == 0 {
        0
    } else {
        seq_sum(s.drop_last()) + s.last() as nat
    }
}

/// How many units of `item` a list of (item, amount) pairs names, over all its entries.
pub open spec fn bundle_count(s: Seq<(InventoryItems, u64)>, item: InventoryItems) -> nat
    decreases s.len(),
{
    if s.len() == 0 {
        0
    } else {
        bundle_count(s.drop_last(), item) + if s.last().0 == item {
            s.last().1 as nat
        } else {
            0nat
        }
    }
}

/// Total number of units a list of (item, amount) pairs names.
pub open spec fn bundle_total(s: Seq<(InventoryItems, u64)>) -> nat
    decreases s.len(),
{
    if s.len() == 0 {
        0
    } else {
        bundle_total(s.drop_last()) + s.last().1 as nat
    }
}

pub proof fn lemma_sum_update(s: Seq<u64>, i: int, v: u64)
    requires
        0 <= i < s.len(),
    ensures
        seq_sum(s.update(i, v)) == seq_sum(s) - s[i] + v,
        s[i] <= seq_sum(s),
    decreases s.len(),
{
    if i == s.len() - 1 {
        assert(s.update(i, v).drop_last() =~= s.drop_last());
    } else {
        lemma_sum_update(s.drop_last(), i, v);
        assert(s.update(i, v).drop_last() =~= s.drop_last().update(i, v));
    }
}

pub proof fn lemma_sum_take(s: Seq<u64>, i: int)
    requires
        0 <= i < s.len(),
    ensures
        seq_sum(s.take(i + 1)) == seq_sum(s.take(i)) + s[i],
{
    assert(s.take(i + 1).drop_last() =~= s.take(i));
}

pub proof fn lemma_sum_zero(s: Seq<u64>)
    ensures
        seq_sum(s) == 0 <==> forall|i: int| 0 <= i < s.len() ==> s[i] == 0,
    decreases s.len(),
{
    if s.len() > 0 {
        lemma_sum_zero(s.drop_last());
        if seq_sum(s) == 0 {
            assert forall|i: int| 0 <= i < s.len() implies s[i] == 0 by {
                if i < s.len() - 1 {
                    assert(s[i] == s.drop_last()[i]);
                }
            }
        }
        if forall|i: int| 0 <= i < s.len() ==> s[i] == 0 {
            assert forall|i: int| 0 <= i < s.drop_last().len() implies s.drop_last()[i] == 0 by {
                assert(s.drop_last()[i] == s[i]);
            }
        }
    }
}

pub proof fn lemma_bundle_take(s: Seq<(InventoryItems, u64)>, k: int, item: InventoryItems)
    requires
        0 <= k < s.len(),
    ensures
        bundle_count(s.take(k + 1), item) == bundle_count(s.take(k), item) + if s[k].0 == item {
            s[k].1 as nat
        } else {
            0nat
        },
        bundle_total(s.take(k + 1)) == bundle_total(s.take(k)) + s[k].1,
{
    assert(s.take(k + 1).drop_last() =~= s.take(k));
}

proof fn lemma_bundle_total_prefix(s: Seq<(InventoryItems, u64)>, k: int)
    requires
        0 <= k <= s.len(),
    ensures
        bundle_total(s.take(k)) <= bundle_total(s),
    decreases s.len() - k,
{
    if k < s.len() {
        lemma_bundle_take(s, k, s[k].0);
        lemma_bundle_total_prefix(s, k + 1);
    } else {
        assert(s.take(k) =~= s);
    }
}

/// A multiset of goods: a quantity for every item kind, and an optional capacity.
///
/// The capacity is what `is_full` and `transfer_until_full` go by; the table never holds more
/// than `QUANTITY_CEILING` units in all.
pub struct Inventory {
    pub amounts: Vec<u64>,
    pub limit: Option<u64>,
}

pub open spec fn min_nat(a: nat, b: nat) -> nat {
    if a <= b {
        a
    } else {
        b
    }
}

impl Inventory {
    pub open spec fn wf(&self) -> bool {
        &&& self.amounts@.len() == N_ITEMS
        &&& self.total() <= QUANTITY_CEILING
    }

    /// Sum of all quantities.
    pub open spec fn total(&self) -> nat {
        seq_sum(self.amounts@)
    }

    /// Quantity held of one item.
    pub open spec fn count(&self, item: InventoryItems) -> nat {
        self.amounts@[item.slot()] as nat
    }

    /// What `transfer_until_full` fills the inventory up to.
    pub open spec fn capacity(&self) -> nat {
        match self.limit {
            Some(l) => min_nat(l as nat, QUANTITY_CEILING as nat),
            None => QUANTITY_CEILING as nat,
        }
    }

    /// Units that still fit below the capacity.
    pub open spec fn room(&self) -> nat {
        if self.total() >= self.capacity() {
            0
        } else {
            (self.capacity() - self.total()) as nat
        }
    }

    pub open spec fn spec_is_full(&self) -> bool {
        match self.limit {
            Some(l) => self.total() >= l,
            None => false,
        }
    }

    pub proof fn lemma_count_le_total(&self, item: InventoryItems)
        requires
            self.wf(),
        ensures
            self.count(item) <= self.total(),
    {
        lemma_sum_update(self.amounts@, item.slot(), 0);
    }

    pub proof fn lemma_empty_iff(&self)
        requires
            self.wf(),
        ensures
            self.total() == 0 <==> forall|i: InventoryItems| self.count(i) == 0,
    {
        lemma_sum_zero(self.amounts@);
        if forall|i: InventoryItems| self.count(i) == 0 {
            assert forall|k: int| 0 <= k < self.amounts@.len() implies self.amounts@[k] == 0 by {
                InventoryItems::lemma_of_slot(k);
                assert(self.count(InventoryItems::of_slot(k)) == 0);
            }
        }
    }

    /// An empty inventory without a capacity.
    pub fn new() -> (r: Inventory)
        ensures
            r.wf(),
            r.limit is None,
            r.total() == 0,
            forall|i: InventoryItems| r.count(i) == 0,
    {
        let amounts = vec![0u64; N_ITEMS];
        proof {
            lemma_sum_zero(amounts@);
        }
        Inventory { amounts, limit: None }
    }

    /// An empty inventory with the given capacity.
    pub fn limited(limit: u64) -> (r: Inventory)
        ensures
            r.wf(),
            r.limit == Some(limit),
            r.total() == 0,
            forall|i: InventoryItems| r.count(i) == 0,
    {
        let base = Inventory::new();
        let r = Inventory { amounts: base.amounts, limit: Some(limit) };
        assert forall|i: InventoryItems| r.count(i) == 0 by {
            assert(base.count(i) == 0);
        }
        r
    }

    /// An inventory without a capacity holding the given pairs.
    pub fn from_iter(items: &Vec<(InventoryItems, u64)>) -> (r: Inventory)
        ensures
            r.wf(),
            r.limit is None,
            bundle_total(items@) <= QUANTITY_CEILING ==> forall|i: InventoryItems|
                #[trigger] r.count(i) == bundle_count(items@, i),
    {
        let mut r = Inventory::new();
        r.add_range(items);
        r
    }

    pub fn get(&self, item: &InventoryItems) -> (r: u64)
        requires
            self.wf(),
        ensures
            r == self.count(*item),
    {
        self.amounts[item.index()]
    }

    pub fn total_items(&self) -> (r: u64)
        requires
            self.wf(),
        ensures
            r == self.total(),
    {
        let mut acc: u64 = 0;
        let mut i: usize = 0;
        while i < self.amounts.len()
            invariant
                self.wf(),
                i <= self.amounts@.len(),
                acc == seq_sum(self.amounts@.take(i as int)),
            decreases self.amounts@.len() - i,
        {
            proof {
                lemma_sum_take(self.amounts@, i as int);
                lemma_prefix_le(self.amounts@, i as int + 1);
            }
            acc = acc + self.amounts[i];
            i = i + 1;
        }
        assert(self.amounts@.take(i as int) =~= self.amounts@);
        acc
    }

    pub fn is_full(&self) -> (r: bool)
        requires
            self.wf(),
        ensures
            r == self.spec_is_full(),
    {
        match self.limit {
            Some(l) => self.total_items() >= l,
            None => false,
        }
    }

    pub fn is_empty(&self) -> (r: bool)
        requires
            self.wf(),
        ensures
            r == (self.total() == 0),
            r ==> forall|i: InventoryItems| self.count(i) == 0,
    {
        proof {
            self.lemma_empty_iff();
        }
        self.total_items() == 0
    }

    /// Units that still fit below the capacity.
    pub fn room_left(&self) -> (r: u64)
        requires
            self.wf(),
        ensures
            r == self.room(),
            r <= QUANTITY_CEILING - self.total(),
    {
        let cap: u64 = match self.limit {
            Some(l) => if l <= QUANTITY_CEILING {
                l
            } else {
                QUANTITY_CEILING
            },
            None => QUANTITY_CEILING,
        };
        let t = self.total_items();
        if t >= cap {
            0
        } else {
            cap - t
        }
    }

    /// An empty inventory with the same capacity.
    pub fn empty_like(&self) -> (r: Inventory)
        ensures
            r.wf(),
            r.limit == self.limit,
            r.total() == 0,
            forall|i: InventoryItems| r.count(i) == 0,
    {
        let base = Inventory::new();
        let r = Inventory { amounts: base.amounts, limit: self.limit };
        assert forall|i: InventoryItems| r.count(i) == 0 by {
            assert(base.count(i) == 0);
        }
        r
    }

    /// Adds up to `amount` units of `item`; what would go past the ceiling is not taken.
    pub fn add(&mut self, item: &InventoryItems, amount: u64) -> (added: u64)
        requires
            old(self).wf(),
        ensures
            final(self).wf(),
            added == min_nat(amount as nat, (QUANTITY_CEILING - old(self).total()) as nat),
            final(self).count(*item) == old(self).count(*item) + added,
            final(self).total() == old(self).total() + added,
            forall|i: InventoryItems| i != *item ==> final(self).count(i) == old(self).count(i),
            final(self).limit == old(self).limit,
    {
        let total = self.total_items();
        let room = QUANTITY_CEILING - total;
        let added = if amount <= room {
            amount
        } else {
            room
        };
        let k = item.index();
        proof {
            lemma_sum_update(self.amounts@, k as int, 0);
        }
        let v = self.amounts[k] + added;
        proof {
            lemma_sum_update(self.amounts@, k as int, v);
        }
        self.amounts.set(k, v);
        proof {
            assert forall|i: InventoryItems| i != *item implies self.count(i) == old(self).count(i) by {
                i.lemma_slot_injective(*item);
            }
        }
        added
    }

    /// Takes `amount` units of `item` out.
    pub fn remove(&mut self, item: &InventoryItems, amount: u64)
        requires
            old(self).wf(),
            amount <= old(self).count(*item),
        ensures
            final(self).wf(),
            final(self).count(*item) == old(self).count(*item) - amount,
            final(self).total() == old(self).total() - amount,
            forall|i: InventoryItems| i != *item ==> final(self).count(i) == old(self).count(i),
            final(self).limit == old(self).limit,
    {
        let k = item.index();
        let v = self.amounts[k] - amount;
        proof {
            lemma_sum_update(self.amounts@, k as int, v);
        }
        self.amounts.set(k, v);
        proof {
            assert forall|i: InventoryItems| i != *item implies self.count(i) == old(self).count(i) by {
                i.lemma_slot_injective(*item);
            }
        }
    }

    /// Whether at least one unit of one of `items` is held.
    pub fn has_any_of(&self, items: &Vec<InventoryItems>) -> (r: bool)
        requires
            self.wf(),
        ensures
            r == exists|k: int| 0 <= k < items@.len() && self.count(items@[k]) >= 1,
    {
        let mut k: usize = 0;
        while k < items.len()
            invariant
                self.wf(),
                k <= items@.len(),
                forall|j: int| 0 <= j < k ==> self.count(items@[j]) < 1,
            decreases items@.len() - k,
        {
            if self.get(&items[k]) >= 1 {
                return true;
            }
            k = k + 1;
        }
        false
    }

    /// Adds every pair of `items`, each as `add` does.
    pub fn add_range(&mut self, items: &Vec<(InventoryItems, u64)>)
        requires
            old(self).wf(),
        ensures
            final(self).wf(),
            final(self).limit == old(self).limit,
            forall|i: InventoryItems|
                old(self).count(i) <= #[trigger] final(self).count(i) <= old(self).count(i)
                    + bundle_count(items@, i),
            old(self).total() + bundle_total(items@) <= QUANTITY_CEILING ==> forall|
                i: InventoryItems,
            | #[trigger] final(self).count(i) == old(self).count(i) + bundle_count(items@, i),
    {
        let mut k: usize = 0;
        while k < items.len()
            invariant
                self.wf(),
                k <= items@.len(),
                self.limit == old(self).limit,
                forall|i: InventoryItems|
                    old(self).count(i) <= #[trigger] self.count(i) <= old(self).count(i)
                        + bundle_count(items@.take(k as int), i),
                old(self).total() + bundle_total(items@) <= QUANTITY_CEILING ==> {
                    &&& self.total() == old(self).total() + bundle_total(items@.take(k as int))
                    &&& forall|i: InventoryItems| #[trigger]
                        self.count(i) == old(self).count(i) + bundle_count(items@.take(k as int), i)
                },
            decreases items@.len() - k,
        {
            let (item, amount) = items[k];
            proof {
                lemma_bundle_total_prefix(items@, k as int + 1);
                lemma_bundle_take(items@, k as int, item);
                assert forall|i: InventoryItems| true implies bundle_count(items@.take(k as int + 1), i)
                    == bundle_count(items@.take(k as int), i) + if items@[k as int].0 == i {
                    items@[k as int].1 as nat
                } else {
                    0nat
                } by {
                    lemma_bundle_take(items@, k as int, i);
                }
            }
            let ghost before = *self;
            let added = self.add(&item, amount);
            proof {
                if old(self).total() + bundle_total(items@) <= QUANTITY_CEILING {
                    assert(added == amount);
                    assert forall|i: InventoryItems| #[trigger]
                        self.count(i) == old(self).count(i) + bundle_count(items@.take(k as int + 1), i) by {
                        assert(before.count(i) == old(self).count(i) + bundle_count(items@.take(k as int), i));
                    }
                }
            }
            k = k + 1;
        }
        assert(items@.take(k as int) =~= items@);
    }

    /// Takes away every pair of `items`.
    pub fn remove_range(&mut self, items: &Vec<(InventoryItems, u64)>)
        requires
            old(self).wf(),
            forall|i: InventoryItems| bundle_count(items@, i) <= old(self).count(i),
        ensures
            final(self).wf(),
            final(self).limit == old(self).limit,
            forall|i: InventoryItems|
                #[trigger] final(self).count(i) == old(self).count(i) - bundle_count(items@, i),
    {
        let mut k: usize = 0;
        while k < items.len()
            invariant
                self.wf(),
                k <= items@.len(),
                self.limit == old(self).limit,
                forall|i: InventoryItems| bundle_count(items@, i) <= old(self).count(i),
                forall|i: InventoryItems|
                    #[trigger] self.count(i) == old(self).count(i) - bundle_count(
                        items@.take(k as int),
                        i,
                    ),
                forall|i: InventoryItems|
                    bundle_count(items@.take(k as int), i) <= #[trigger] bundle_count(items@, i),
            decreases items@.len() - k,
        {
            let (item, amount) = items[k];
            proof {
                assert forall|i: InventoryItems| true implies bundle_count(items@.take(k as int + 1), i)
                    == bundle_count(items@.take(k as int), i) + if items@[k as int].0 == i {
                    items@[k as int].1 as nat
                } else {
                    0nat
                } by {
                    lemma_bundle_take(items@, k as int, i);
                }
                assert forall|i: InventoryItems| true implies bundle_count(items@.take(k as int + 1), i)
                    <= #[trigger] bundle_count(items@, i) by {
                    lemma_bundle_count_prefix(items@, k as int + 1, i);
                }
            }
            self.remove(&item, amount);
            k = k + 1;
        }
        assert(items@.take(k as int) =~= items@);
    }

    /// Moves at most `room` units, item by item in slot order, into `target`.
    fn move_up_to(&mut self, target: &mut Inventory, room: u64) -> (moved: u64)
        requires
            old(self).wf(),
            old(target).wf(),
            old(target).total() + room <= QUANTITY_CEILING,
        ensures
            final(self).wf(),
            final(target).wf(),
            moved == min_nat(old(self).total(), room as nat),
            final(target).total() == old(target).total() + moved,
            final(self).total() == old(self).total() - moved,
            forall|i: InventoryItems|
                #[trigger] final(self).count(i) + final(target).count(i) == old(self).count(i)
                    + old(target).count(i),
            forall|i: InventoryItems| #[trigger] final(self).count(i) <= old(self).count(i),
            final(self).limit == old(self).limit,
            final(target).limit == old(target).limit,
    {
        let mut moved: u64 = 0;
        let mut k: usize = 0;
        while k < N_ITEMS
            invariant
                self.wf(),
                target.wf(),
                k <= N_ITEMS,
                self.limit == old(self).limit,
                target.limit == old(target).limit,
                old(self).wf(),
                old(target).total() + room <= QUANTITY_CEILING,
                moved == min_nat(seq_sum(old(self).amounts@.take(k as int)), room as nat),
                target.total() == old(target).total() + moved,
                self.total() == old(self).total() - moved,
                forall|j: int|
                    0 <= j < N_ITEMS ==> #[trigger] self.amounts@[j] + target.amounts@[j]
                        == old(self).amounts@[j] + old(target).amounts@[j],
                forall|j: int| 0 <= j < N_ITEMS ==> #[trigger] self.amounts@[j] <= old(self).amounts@[j],
                forall|j: int| k <= j < N_ITEMS ==> #[trigger] self.amounts@[j] == old(self).amounts@[j],
            decreases N_ITEMS - k,
        {
            proof {
                lemma_sum_take(old(self).amounts@, k as int);
            }
            let have = self.amounts[k];
            let left = room - moved;
            let m = if have <= left {
                have
            } else {
                left
            };
            proof {
                lemma_sum_update(self.amounts@, k as int, (have - m) as u64);
                lemma_sum_update(target.amounts@, k as int, 0);
            }
            let tv = target.amounts[k] + m;
            proof {
                lemma_sum_update(target.amounts@, k as int, tv);
            }
            self.amounts.set(k, have - m);
            target.amounts.set(k, tv);
            moved = moved + m;
            k = k + 1;
        }
        proof {
            assert(old(self).amounts@.take(N_ITEMS as int) =~= old(self).amounts@);
            assert forall|i: InventoryItems| true implies #[trigger] self.count(i) + target.count(i)
                == old(self).count(i) + old(target).count(i) && self.count(i) <= old(self).count(i) by {
                i.lemma_slot_bounds();
            }
        }
        moved
    }

    /// Moves goods into `target` until it reaches its capacity or this inventory runs dry.
    pub fn transfer_until_full(&mut self, target: &mut Inventory) -> (moved: u64)
        requires
            old(self).wf(),
            old(target).wf(),
        ensures
            final(self).wf(),
            final(target).wf(),
            moved == min_nat(old(self).total(), old(target).room()),
            final(target).total() == old(target).total() + moved,
            final(self).total() == old(self).total() - moved,
            forall|i: InventoryItems|
                #[trigger] final(self).count(i) + final(target).count(i) == old(self).count(i)
                    + old(target).count(i),
            forall|i: InventoryItems| #[trigger] final(self).count(i) <= old(self).count(i),
            old(target).total() <= old(target).capacity() ==> final(target).total()
                <= final(target).capacity(),
            final(self).limit == old(self).limit,
            final(target).limit == old(target).limit,
    {
        let cap: u64 = match target.limit {
            Some(l) => if l <= QUANTITY_CEILING {
                l
            } else {
                QUANTITY_CEILING
            },
            None => QUANTITY_CEILING,
        };
        let t = target.total_items();
        let room: u64 = if t >= cap {
            0
        } else {
            cap - t
        };
        self.move_up_to(target, room)
    }

    /// Takes in everything `goods` holds, short of what would pass the ceiling; gives how many
    /// units were taken in, so that a shortfall is visible.
    pub fn receive(&mut self, goods: Inventory) -> (taken: u64)
        requires
            old(self).wf(),
            goods.wf(),
        ensures
            final(self).wf(),
            final(self).limit == old(self).limit,
            received(old(self), final(self), &goods),
            taken == min_nat(goods.total(), (QUANTITY_CEILING - old(self).total()) as nat),
    {
        let mut g = goods;
        let ghost g0 = g;
        let taken = g.move_all_into(self);
        proof {
            g.lemma_empty_iff();
            assert forall|x: InventoryItems| #[trigger] self.count(x) >= old(self).count(x) && self.count(x) <= old(self).count(x) + g0.count(x) by {
                assert(g.count(x) <= g0.count(x));
            }
            if g0.total() + old(self).total() <= QUANTITY_CEILING {
                assert forall|x: InventoryItems| #[trigger] self.count(x) == old(self).count(x) + g0.count(x) by {
                    assert(g.count(x) == 0);
                }
            }
        }
        taken
    }

    /// Moves every unit into `target`, short of what would pass the ceiling there.
    pub fn move_all_into(&mut self, target: &mut Inventory) -> (moved: u64)
        requires
            old(self).wf(),
            old(target).wf(),
        ensures
            final(self).wf(),
            final(target).wf(),
            moved == min_nat(old(self).total(), (QUANTITY_CEILING - old(target).total()) as nat),
            final(target).total() == old(target).total() + moved,
            forall|i: InventoryItems|
                #[trigger] final(self).count(i) + final(target).count(i) == old(self).count(i)
                    + old(target).count(i),
            forall|i: InventoryItems| #[trigger] final(self).count(i) <= old(self).count(i),
            old(self).total() + old(target).total() <= QUANTITY_CEILING ==> final(self).total()
                == 0,
            final(self).limit == old(self).limit,
            final(target).limit == old(target).limit,
    {
        let t = target.total_items();
        self.move_up_to(target, QUANTITY_CEILING - t)
    }
}

/// `i1` is `i0` after taking in `goods`: nothing lost, nothing beyond the goods gained, and
/// all of them gained where the ceiling allows.
pub open spec fn received(i0: &Inventory, i1: &Inventory, goods: &Inventory) -> bool {
    &&& forall|x: InventoryItems| #[trigger] i1.count(x) >= i0.count(x)
    &&& forall|x: InventoryItems| #[trigger] i1.count(x) <= i0.count(x) + goods.count(x)
    &&& goods.total() + i0.total() <= QUANTITY_CEILING ==> forall|x: InventoryItems|
        #[trigger] i1.count(x) == i0.count(x) + goods.count(x)
}

proof fn lemma_prefix_le(s: Seq<u64>, k: int)
    requires
        0 <= k <= s.len(),
    ensures
        seq_sum(s.take(k)) <= seq_sum(s),
    decreases s.len() - k,
{
    if k < s.len() {
        lemma_sum_take(s, k);
        lemma_prefix_le(s, k + 1);
    } else {
        assert(s.take(k) =~= s);
    }
}

pub proof fn lemma_bundle_count_prefix(s: Seq<(InventoryItems, u64)>, k: int, item: InventoryItems)
    requires
        0 <= k <= s.len(),
    ensures
        bundle_count(s.take(k), item) <= bundle_count(s, item),
    decreases s.len() - k,
{
    if k < s.len() {
        lemma_bundle_take(s, k, item);
        lemma_bundle_count_prefix(s, k + 1, item);
    } else {
        assert(s.take(k) =~= s);
    }
}

} // verus!
