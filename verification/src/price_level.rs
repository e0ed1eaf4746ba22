//! The queue of resting orders that share one price.

use vstd::prelude::*;
use crate::decimal::Decimal;
use crate::types::{order_views, Order, OrderView};

verus! {

/// The resting orders at one price, oldest first. The head of the queue is
/// the next order to be filled at this price.
#[derive(Debug, Clone)]
pub struct PriceLevel {
    pub price: Decimal,
    pub orders: Vec<Order>,
}

impl View for PriceLevel {
    type V = Seq<OrderView>;

    /// The queue, head first.
    open spec fn view(&self) -> Seq<OrderView> {
        order_views(self.orders@)
    }
}

/// The open quantity of a queue: the sum of what each order has left.
pub open spec fn queue_volume(queue: Seq<OrderView>) -> int
    decreases queue.len(),
{
    if queue.len() == 0 {
        0
    } else {
        queue_volume(queue.drop_last()) + queue.last().remaining()
    }
}

/// The position of the first order in `queue` with the given identifier, or
/// the length of the queue if there is none.
pub open spec fn position_of(queue: Seq<OrderView>, id: Seq<char>) -> int
    decreases queue.len(),
{
    if queue.len() == 0 {
        0
    } else if queue[0].id == id {
        0
    } else {
        1 + position_of(queue.drop_first(), id)
    }
}

/// Every order of the queue has its fill state within bounds.
pub open spec fn all_well_formed(queue: Seq<OrderView>) -> bool {
    forall|i: int| 0 <= i < queue.len() ==> (#[trigger] queue[i]).well_formed()
}

/// `position_of` is the least index that holds the identifier.
pub proof fn lemma_position_of(queue: Seq<OrderView>, id: Seq<char>)
    ensures
        0 <= position_of(queue, id) <= queue.len(),
        position_of(queue, id) < queue.len() ==> queue[position_of(queue, id)].id == id,
        forall|j: int| 0 <= j < position_of(queue, id) ==> (#[trigger] queue[j]).id != id,
    decreases queue.len(),
{
    if queue.len() > 0 && queue[0].id != id {
        let rest = queue.drop_first();
        lemma_position_of(rest, id);
        assert forall|j: int| 0 <= j < position_of(queue, id) implies (#[trigger] queue[j]).id
            != id by {
            if j > 0 {
                assert(queue[j] == rest[j - 1]);
            }
        }
    }
}

/// An index with the identifier, before which no order has it, is the
/// position of the identifier.
pub proof fn lemma_position_is(queue: Seq<OrderView>, id: Seq<char>, i: int)
    requires
        0 <= i <= queue.len(),
        i < queue.len() ==> queue[i].id == id,
        forall|j: int| 0 <= j < i ==> (#[trigger] queue[j]).id != id,
    ensures
        position_of(queue, id) == i,
{
    lemma_position_of(queue, id);
}

/// Adding one order at the tail adds its open quantity to the volume.
pub proof fn lemma_volume_push(queue: Seq<OrderView>, order: OrderView)
    ensures
        queue_volume(queue.push(order)) == queue_volume(queue) + order.remaining(),
{
    assert(queue.push(order).drop_last() =~= queue);
}

/// Taking one order out takes its open quantity from the volume.
pub proof fn lemma_volume_remove(queue: Seq<OrderView>, i: int)
    requires
        0 <= i < queue.len(),
    ensures
        queue_volume(queue.remove(i)) == queue_volume(queue) - queue[i].remaining(),
    decreases queue.len(),
{
    if i != queue.len() - 1 {
        lemma_volume_remove(queue.drop_last(), i);
        assert(queue.remove(i).drop_last() =~= queue.drop_last().remove(i));
    }
}

/// Replacing one order changes the volume by the change in its open quantity.
pub proof fn lemma_volume_update(queue: Seq<OrderView>, i: int, order: OrderView)
    requires
        0 <= i < queue.len(),
    ensures
        queue_volume(queue.update(i, order)) == queue_volume(queue) - queue[i].remaining()
            + order.remaining(),
    decreases queue.len(),
{
    if i == queue.len() - 1 {
        assert(queue.update(i, order).drop_last() =~= queue.drop_last());
    } else {
        lemma_volume_update(queue.drop_last(), i, order);
        assert(queue.update(i, order).drop_last() =~= queue.drop_last().update(i, order));
    }
}

impl PriceLevel {
    /// An empty level at `price`.
    pub fn new(price: Decimal) -> (level: Self)
        ensures
            level.price == price,
            level@ == Seq::<OrderView>::empty(),
    {
        let level = PriceLevel { price, orders: Vec::new() };
        level
    }

    /// The number of orders in the queue.
    pub fn len(&self) -> (n: usize)
        ensures
            n == self@.len(),
    {
        self.orders.len()
    }

    /// The open quantity of the whole level, in units.
    pub fn total_amount(&self) -> (total: i128)
        requires
            all_well_formed(self@),
        ensures
            total == queue_volume(self@),
    {
        let mut total: i128 = 0;
        let mut i: usize = 0;
        while i < self.orders.len()
            invariant
                0 <= i <= self.orders.len(),
                all_well_formed(self@),
                total == queue_volume(self@.take(i as int)),
                0 <= total <= i * 0x7fff_ffff_ffff_ffff,
            decreases self.orders.len() - i,
        {
            let order = &self.orders[i];
            assert(self@[i as int] == order@);
            let open = order.remaining();
            assert(self@.take(i + 1).drop_last() =~= self@.take(i as int));
            total = total + open.units as i128;
            i = i + 1;
        }
        assert(self@.take(i as int) =~= self@);
        total
    }

    /// Appends `order` at the tail of the queue.
    pub fn add_order(&mut self, order: Order)
        ensures
            final(self).price == old(self).price,
            final(self)@ == old(self)@.push(order@),
    {
        self.orders.push(order);
    }

    /// Takes the first order with the given identifier out of the queue and
    /// returns it. The orders behind it keep their order. Returns `None`, and
    /// leaves the queue as it is, if no order has the identifier.
    pub fn remove_order(&mut self, order_id: &str) -> (removed: Option<Order>)
        ensures
            final(self).price == old(self).price,
            removed is Some <==> position_of(old(self)@, order_id@) < old(self)@.len(),
            removed matches Some(order) ==> ({
                &&& order@ == old(self)@[position_of(old(self)@, order_id@)]
                &&& final(self)@ == old(self)@.remove(position_of(old(self)@, order_id@))
            }),
            removed is None ==> final(self)@ == old(self)@,
    {
        let wanted = String::from_str(order_id);
        let mut i: usize = 0;
        while i < self.orders.len()
            invariant
                0 <= i <= self.orders.len(),
                *self == *old(self),
                wanted@ == order_id@,
                forall|j: int| 0 <= j < i ==> (#[trigger] self@[j]).id != order_id@,
            decreases self.orders.len() - i,
        {
            if self.orders[i].id == wanted {
                proof {
                    lemma_position_is(self@, order_id@, i as int);
                }
                let order = self.orders.remove(i);
                return Some(order);
            }
            i = i + 1;
        }
        proof {
            lemma_position_is(self@, order_id@, i as int);
        }
        None
    }
}

} // verus!
