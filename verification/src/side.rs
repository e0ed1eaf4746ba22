//! One side of a book as it is stored: the levels in a map ordered by price.

use std::collections::BTreeMap;
use vstd::prelude::*;
use vstd::std_specs::cmp::OrdSpec;
use vstd::std_specs::iter::IteratorSpec;
use crate::decimal::Decimal;
use crate::levels::{
    at_least_as_good, best_price, is_best, lemma_best_unique, levels_add, levels_remove_at,
    levels_wf, match_levels, may_rest, top_levels, Levels, LevelsOutcome,
};
use crate::matching::{
    execute_fill, execution_of, fill_quantity, match_queue, taker_crosses, QueueOutcome,
};
use crate::order_book::{level_summaries, LevelSnapshot};
use crate::price_level::{lemma_position_of, position_of, PriceLevel};
use crate::stamp::{lemma_after_after, Stamper};
use crate::types::{
    executions, order_views, Execution, MatchingResult, Order, OrderSide, OrderView,
};

verus! {

/// The queues held by a price-indexed map of levels.
pub(crate) open spec fn level_views(levels: Map<i64, PriceLevel>) -> Levels {
    Map::new(|price: i64| levels.contains_key(price), |price: i64| levels[price]@)
}

/// Every level is filed under its own price.
pub(crate) open spec fn priced(levels: Map<i64, PriceLevel>) -> bool {
    forall|price: i64| levels.contains_key(price) ==> (#[trigger] levels[price]).price@ == price
}

/// The least key of the map: `BTreeMap::first_key_value`, of which the key
/// is kept. `None` means that the map is empty.
#[verifier::external_body]
fn lowest_price(levels: &BTreeMap<i64, PriceLevel>) -> (lowest: Option<i64>)
    ensures
        (match lowest {
            Some(price) => levels@.contains_key(price) && forall|other: i64|
                levels@.contains_key(other) ==> price <= other,
            None => forall|other: i64| !levels@.contains_key(other),
        }),
{
    match levels.first_key_value() {
        Some(entry) => Some(*entry.0),
        None => None,
    }
}

/// The greatest key of the map: `BTreeMap::last_key_value`, of which the key
/// is kept. `None` means that the map is empty.
#[verifier::external_body]
fn highest_price(levels: &BTreeMap<i64, PriceLevel>) -> (highest: Option<i64>)
    ensures
        (match highest {
            Some(price) => levels@.contains_key(price) && forall|other: i64|
                levels@.contains_key(other) ==> price >= other,
            None => forall|other: i64| !levels@.contains_key(other),
        }),
{
    match levels.last_key_value() {
        Some(entry) => Some(*entry.0),
        None => None,
    }
}

/// The best price among the levels resting on `side`.
pub(crate) fn best_of(levels: &BTreeMap<i64, PriceLevel>, side: OrderSide) -> (best: Option<i64>)
    ensures
        (match best {
            Some(price) => is_best(level_views(levels@), price, side) && best_price(
                level_views(levels@),
                side,
            ) == price,
            None => !level_views(levels@).contains_key(best_price(level_views(levels@), side)),
        }),
{
    let best = match side {
        OrderSide::Buy => highest_price(levels),
        OrderSide::Sell => lowest_price(levels),
    };
    best
}

/// Takes the level filed under `price` out of the map, if there is one.
pub(crate) fn take_level(levels: &mut BTreeMap<i64, PriceLevel>, price: i64) -> (taken: Option<
    PriceLevel,
>)
    ensures
        final(levels)@ == old(levels)@.remove(price),
        (match taken {
            Some(level) => old(levels)@.contains_key(price) && level == old(levels)@[price],
            None => !old(levels)@.contains_key(price),
        }),
{
    broadcast use vstd::std_specs::btree::group_btree_axioms;
    broadcast use vstd::laws_cmp::group_laws_cmp;

    levels.remove(&price)
}

/// Files `level` under `price`.
pub(crate) fn put_level(levels: &mut BTreeMap<i64, PriceLevel>, price: i64, level: PriceLevel)
    ensures
        final(levels)@ == old(levels)@.insert(price, level),
{
    broadcast use vstd::std_specs::btree::group_btree_axioms;
    broadcast use vstd::laws_cmp::group_laws_cmp;

    levels.insert(price, level);
}

/// Puts `order` at the tail of the queue at its price.
pub(crate) fn rest_order(levels: &mut BTreeMap<i64, PriceLevel>, order: Order)
    requires
        priced(old(levels)@),
    ensures
        priced(final(levels)@),
        level_views(final(levels)@) == levels_add(level_views(old(levels)@), order@),
{
    let price = order.price.units;
    let mut level = match take_level(levels, price) {
        Some(level) => level,
        None => PriceLevel::new(order.price),
    };
    level.add_order(order);
    put_level(levels, price, level);
}

/// Takes the first order with the given identifier out of the queue at
/// `price`, and drops the queue if that empties it.
pub(crate) fn unrest_order(
    levels: &mut BTreeMap<i64, PriceLevel>,
    order_id: &str,
    price: i64,
) -> (removed: Option<Order>)
    requires
        priced(old(levels)@),
        forall|p: i64| old(levels)@.contains_key(p) ==> (#[trigger] old(levels)@[p])@.len() > 0,
    ensures
        priced(final(levels)@),
        ({
            let before = level_views(old(levels)@);
            if before.contains_key(price) && position_of(before[price], order_id@)
                < before[price].len() {
                let i = position_of(before[price], order_id@);
                &&& removed matches Some(order)
                &&& order@ == before[price][i]
                &&& level_views(final(levels)@) == levels_remove_at(before, price, i)
            } else {
                &&& removed is None
                &&& level_views(final(levels)@) == before
            }
        }),
{
    let ghost before = level_views(levels@);
    proof {
        if before.contains_key(price) {
            lemma_position_of(before[price], order_id@);
        }
    }
    match take_level(levels, price) {
        None => {
            None
        },
        Some(level) => {
            let mut level = level;
            let removed = level.remove_order(order_id);
            if level.len() > 0 {
                put_level(levels, price, level);
            }
            removed
        },
    }
}

/// Matches `taker` against the queue of one level, head first, and takes the
/// makers that were filled out of the queue.
fn fill_level(
    level: &mut PriceLevel,
    taker: &mut Order,
    result: &mut MatchingResult,
    stamper: &mut Stamper,
    Ghost(side): Ghost<OrderSide>,
    Ghost(price): Ghost<i64>,
    Ghost(symbol): Ghost<Seq<char>>,
)
    requires
        old(taker)@.well_formed(),
        forall|i: int|
            0 <= i < old(level)@.len() ==> may_rest(#[trigger] old(level)@[i], side, price, symbol),
    ensures
        final(level).price == old(level).price,
        final(taker)@.well_formed(),
        forall|i: int|
            0 <= i < final(level)@.len() ==> may_rest(
                #[trigger] final(level)@[i],
                side,
                price,
                symbol,
            ),
        ({
            let out = match_queue(old(taker)@, old(level)@);
            &&& final(taker)@ == out.taker
            &&& final(level)@ == out.queue
            &&& executions(final(result).trades@) == executions(old(result).trades@)
                + out.executions
            &&& order_views(final(result).updated_orders@) == order_views(
                old(result).updated_orders@,
            ) + out.makers
            &&& *final(stamper) == old(stamper).after(out.executions.len())
            &&& forall|j: int|
                0 <= j < out.executions.len() ==> old(stamper).after(j as nat).marks(
                    #[trigger] final(result).trades@[old(result).trades@.len() + j],
                )
        }),
        forall|j: int|
            0 <= j < old(result).trades@.len() ==> final(result).trades@[j] == old(
                result,
            ).trades@[j],
{
    let ghost t0 = taker@;
    let ghost s0 = *stamper;
    let ghost r0 = result.trades@;
    let ghost q0 = level@;
    let ghost e0 = executions(result.trades@);
    let ghost m0 = order_views(result.updated_orders@);
    let ghost mut acc_e: Seq<Execution> = Seq::empty();
    let ghost mut acc_m: Seq<OrderView> = Seq::empty();
    let mut i: usize = 0;
    let mut done = false;
    assert(q0.skip(0) =~= q0);
    while i < level.orders.len() && !done
        invariant
            0 <= i <= level.orders.len() == q0.len(),
            level.price == old(level).price,
            taker@.well_formed(),
            forall|j: int| 0 <= j < q0.len() ==> may_rest(#[trigger] q0[j], side, price, symbol),
            forall|j: int|
                i <= j < level@.len() ==> may_rest(#[trigger] level@[j], side, price, symbol),
            executions(result.trades@) == e0 + acc_e,
            order_views(result.updated_orders@) == m0 + acc_m,
            e0.len() == r0.len(),
            result.trades@.len() == r0.len() + acc_e.len(),
            *stamper == s0.after(acc_e.len()),
            forall|j: int| 0 <= j < r0.len() ==> result.trades@[j] == r0[j],
            forall|j: int|
                0 <= j < acc_e.len() ==> s0.after(j as nat).marks(
                    #[trigger] result.trades@[r0.len() + j],
                ),
            !done ==> level@.skip(i as int) == q0.skip(i as int),
            ({
                let tail = if done {
                    QueueOutcome {
                        executions: Seq::empty(),
                        makers: Seq::empty(),
                        taker: taker@,
                        queue: level@.skip(i as int),
                    }
                } else {
                    match_queue(taker@, q0.skip(i as int))
                };
                let out = match_queue(t0, q0);
                &&& out.executions == acc_e + tail.executions
                &&& out.makers == acc_m + tail.makers
                &&& out.taker == tail.taker
                &&& out.queue == tail.queue
            }),
        decreases level.orders.len() - i + (if done { 0int } else { 1int }),
    {
        let ghost rest = q0.skip(i as int);
        let ghost before = level@;
        if taker.is_filled() || !taker_crosses(taker, level.orders[i].price) {
            done = true;
        } else {
            let stamp = stamper.draw();
            let ghost taker_before = taker@;
            let ghost maker_before = before[i as int];
            let trade = execute_fill(taker, &mut level.orders[i], stamp.0, stamp.1);
            let hit = level.orders[i].clone();
            let ghost quantity = fill_quantity(taker_before, maker_before);
            assert(level@ =~= before.update(i as int, hit@));
            proof {
                let added_e = executions(result.trades@.push(trade));
                assert(added_e =~= (e0 + acc_e).push(trade.execution()));
                let added_m = order_views(result.updated_orders@.push(hit));
                assert(added_m =~= (m0 + acc_m).push(hit@));
            }
            result.trades.push(trade);
            result.updated_orders.push(hit);
            if level.orders[i].is_filled() {
                proof {
                    assert(rest.drop_first() =~= q0.skip(i + 1));
                }
                i = i + 1;
            } else {
                done = true;
            }
            proof {
                acc_e = acc_e.push(execution_of(taker_before, maker_before));
                acc_m = acc_m.push(maker_before.fill(quantity));
            }
        }
    }
    let ghost filled_up = level@;
    let kept = level.orders.split_off(i);
    level.orders = kept;
    proof {
        assert(level@ =~= filled_up.skip(i as int));
    }
}

/// Matches `taker` against the levels resting on `side`, best price first.
pub(crate) fn match_side(
    levels: &mut BTreeMap<i64, PriceLevel>,
    side: OrderSide,
    taker: &mut Order,
    stamper: &mut Stamper,
    Ghost(symbol): Ghost<Seq<char>>,
) -> (result: MatchingResult)
    requires
        priced(old(levels)@),
        levels_wf(level_views(old(levels)@), side, symbol),
        old(taker)@.well_formed(),
    ensures
        priced(final(levels)@),
        levels_wf(level_views(final(levels)@), side, symbol),
        final(taker)@.well_formed(),
        ({
            let out = match_levels(old(taker)@, level_views(old(levels)@), side);
            &&& level_views(final(levels)@) == out.levels
            &&& final(taker)@ == out.taker
            &&& executions(result.trades@) == out.executions
            &&& order_views(result.updated_orders@) == out.makers
        }),
        *final(stamper) == old(stamper).after(result.trades@.len()),
        forall|j: int|
            0 <= j < result.trades@.len() ==> old(stamper).after(j as nat).marks(
                #[trigger] result.trades@[j],
            ),
{
    let ghost t0 = taker@;
    let ghost s0 = *stamper;
    let ghost l0 = level_views(levels@);
    let mut result = MatchingResult::new();
    let mut done = false;
    while !done
        invariant
            priced(levels@),
            levels_wf(level_views(levels@), side, symbol),
            taker@.well_formed(),
            *stamper == s0.after(result.trades@.len()),
            forall|j: int|
                0 <= j < result.trades@.len() ==> s0.after(j as nat).marks(
                    #[trigger] result.trades@[j],
                ),
            ({
                let tail = if done {
                    LevelsOutcome {
                        executions: Seq::empty(),
                        makers: Seq::empty(),
                        taker: taker@,
                        levels: level_views(levels@),
                    }
                } else {
                    match_levels(taker@, level_views(levels@), side)
                };
                let out = match_levels(t0, l0, side);
                &&& out.executions == executions(result.trades@) + tail.executions
                &&& out.makers == order_views(result.updated_orders@) + tail.makers
                &&& out.taker == tail.taker
                &&& out.levels == tail.levels
            }),
        decreases levels@.dom().len() + (if done { 0int } else { 1int }),
    {
        let ghost here = level_views(levels@);
        let ghost taker_before = taker@;
        if taker.is_filled() {
            done = true;
        } else {
            match best_of(levels, side) {
                None => {
                    done = true;
                },
                Some(price) => {
                    if !taker_crosses(taker, Decimal::from_units(price)) {
                        done = true;
                    } else {
                        let taken = take_level(levels, price);
                        let mut level = taken.unwrap();
                        let ghost trades_before = result.trades@;
                        fill_level(
                            &mut level,
                            taker,
                            &mut result,
                            stamper,
                            Ghost(side),
                            Ghost(price),
                            Ghost(symbol),
                        );
                        let ghost at = match_queue(taker_before, here[price]);
                        proof {
                            let c = trades_before.len();
                            assert(executions(result.trades@).len() == result.trades@.len());
                            lemma_after_after(s0, c, at.executions.len());
                            assert forall|j: int| 0 <= j < result.trades@.len() implies s0.after(
                                j as nat,
                            ).marks(#[trigger] result.trades@[j]) by {
                                if j >= c {
                                    lemma_after_after(s0, c, (j - c) as nat);
                                }
                            }
                        }
                        if level.len() > 0 {
                            put_level(levels, price, level);
                            done = true;
                        } else {
                            proof {
                                assert(level_views(levels@) =~= here.remove(price));
                            }
                        }
                    }
                },
            }
        }
    }
    result
}

/// The prices of all levels, lowest first.
fn sorted_prices(levels: &BTreeMap<i64, PriceLevel>) -> (prices: Vec<i64>)
    ensures
        forall|i: int| 0 <= i < prices@.len() ==> levels@.contains_key(#[trigger] prices@[i]),
        forall|i: int, j: int| 0 <= i < j < prices@.len() ==> prices@[i] < prices@[j],
        forall|price: i64| levels@.contains_key(price) ==> prices@.contains(price),
{
    broadcast use vstd::std_specs::btree::group_btree_axioms;
    broadcast use vstd::laws_cmp::group_laws_cmp;

    let mut prices: Vec<i64> = Vec::new();
    let entries = levels.iter();
    let ghost pairs = entries.remaining();
    let ghost keys = pairs.map_values(|kv: (&i64, &PriceLevel)| *kv.0);
    for entry in it: entries
        invariant
            prices@.len() == it.index(),
            it.seq() == pairs,
            forall|i: int| 0 <= i < prices@.len() ==> prices@[i] == *pairs[i].0,
    {
        prices.push(*entry.0);
    }
    proof {
        assert forall|i: int, j: int| 0 <= i < j < prices@.len() implies prices@[i]
            < prices@[j] by {
            assert(keys[i].cmp_spec(&keys[j]) is Less);
        }
        assert forall|price: i64| levels@.contains_key(price) implies prices@.contains(price) by {
            let i = choose|i: int| 0 <= i < pairs.len() && pairs[i] == (&price, &levels@[price]);
            assert(prices@[i] == price);
        }
    }
    prices
}

/// Whether `prices` holds no price twice and runs from the best price for
/// `side` to the worst.
spec fn best_first(prices: Seq<i64>, side: OrderSide) -> bool {
    forall|i: int, j: int|
        #![trigger prices[i], prices[j]]
        0 <= i < j < prices.len() ==> prices[i] != prices[j] && at_least_as_good(
            prices[i],
            prices[j],
            side,
        )
}

/// The prices of all levels resting on `side`, best first.
fn prices_best_first(levels: &BTreeMap<i64, PriceLevel>, side: OrderSide) -> (prices: Vec<i64>)
    ensures
        forall|i: int| 0 <= i < prices@.len() ==> levels@.contains_key(#[trigger] prices@[i]),
        best_first(prices@, side),
        forall|price: i64| levels@.contains_key(price) ==> prices@.contains(price),
{
    let ascending = sorted_prices(levels);
    match side {
        OrderSide::Sell => ascending,
        OrderSide::Buy => {
            let mut descending: Vec<i64> = Vec::new();
            let mut left = ascending.len();
            while left > 0
                invariant
                    0 <= left <= ascending@.len(),
                    descending@.len() == ascending@.len() - left,
                    forall|i: int|
                        0 <= i < descending@.len() ==> #[trigger] descending@[i] == ascending@[ascending@.len()
                            - 1 - i],
                decreases left,
            {
                left = left - 1;
                descending.push(ascending[left]);
            }
            proof {
                assert forall|price: i64| levels@.contains_key(price) implies descending@.contains(
                    price,
                ) by {
                    assert(ascending@.contains(price));
                    let i = choose|i: int| 0 <= i < ascending@.len() && ascending@[i] == price;
                    assert(descending@[ascending@.len() - 1 - i] == price);
                }
            }
            descending
        },
    }
}

/// The level filed under `price`, if there is one.
pub(crate) fn level_at(levels: &BTreeMap<i64, PriceLevel>, price: i64) -> (level: Option<
    &PriceLevel,
>)
    ensures
        (match level {
            Some(l) => levels@.contains_key(price) && *l == levels@[price],
            None => !levels@.contains_key(price),
        }),
{
    broadcast use vstd::std_specs::btree::group_btree_axioms;
    broadcast use vstd::laws_cmp::group_laws_cmp;

    levels.get(&price)
}

/// The levels that are left when the first `taken` of `prices` are gone.
spec fn without_first(levels: Levels, prices: Seq<i64>, taken: int) -> Levels {
    Map::new(
        |price: i64|
            levels.contains_key(price) && forall|t: int| 0 <= t < taken ==> prices[t] != price,
        |price: i64| levels[price],
    )
}

/// Summarises the best `depth` levels resting on `side`, best first.
pub(crate) fn summarize(
    levels: &BTreeMap<i64, PriceLevel>,
    side: OrderSide,
    depth: usize,
    Ghost(symbol): Ghost<Seq<char>>,
) -> (out: Vec<LevelSnapshot>)
    requires
        levels_wf(level_views(levels@), side, symbol),
    ensures
        level_summaries(out@) == top_levels(level_views(levels@), side, depth as nat),
{
    let prices = prices_best_first(levels, side);
    let ghost all = level_views(levels@);
    let mut out: Vec<LevelSnapshot> = Vec::new();
    let mut i: usize = 0;
    assert(without_first(all, prices@, 0) =~= all);
    while i < prices.len() && i < depth
        invariant
            0 <= i <= prices@.len(),
            i <= depth,
            all == level_views(levels@),
            levels_wf(all, side, symbol),
            forall|t: int| 0 <= t < prices@.len() ==> levels@.contains_key(#[trigger] prices@[t]),
            best_first(prices@, side),
            forall|price: i64| levels@.contains_key(price) ==> prices@.contains(price),
            top_levels(all, side, depth as nat) == level_summaries(out@) + top_levels(
                without_first(all, prices@, i as int),
                side,
                (depth - i) as nat,
            ),
        decreases prices@.len() - i,
    {
        let price = prices[i];
        let ghost left = without_first(all, prices@, i as int);
        proof {
            assert forall|other: i64| left.contains_key(other) implies at_least_as_good(
                price,
                other,
                side,
            ) by {
                assert(prices@.contains(other));
                let t = choose|t: int| 0 <= t < prices@.len() && prices@[t] == other;
            }
            lemma_best_unique(left, price, side);
            assert(left.remove(price) =~= without_first(all, prices@, i + 1));
        }
        match level_at(levels, price) {
            Some(level) => {
                let summary = LevelSnapshot {
                    price: Decimal::from_units(price),
                    amount: level.total_amount(),
                    order_count: level.len(),
                };
                out.push(summary);
            },
            None => {},
        }
        i = i + 1;
    }
    proof {
        let left = without_first(all, prices@, i as int);
        if i < depth {
            assert forall|price: i64| !left.contains_key(price) by {
                if all.contains_key(price) {
                    assert(prices@.contains(price));
                }
            }
        }
    }
    out
}

} // verus!
