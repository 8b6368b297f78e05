//! What holds of the profits of triangles and of the walks over their legs.

use crate::config::{ConfigNumber, ExchangeRulesConfig, PairRuleConfig, TriangleConfig};
use crate::float_key::FloatKey;
use crate::models::{DepthStreamWrapper, OfferData, TriangleOpportunitySignal};
use crate::workers::{
    Evaluation, ExecutionView, LegView, LegsView, ProfitSummary, SendResult, SignalFloats,
    TriangleArbitragePayload, WorkerEvent,
};
use vstd::prelude::*;

verus! {

/// A decimal number, by its digits.
pub type Number = crate::decimal::Number;

/// The number one in the units in which decimal numbers are counted.
pub open spec fn one_in_units() -> int {
    crate::decimal::pow10(crate::decimal::MAX_SCALE as nat)
}

/// The numbers that come up in one trade: the share that the fee takes of one,
/// the share that is kept, what is kept of the amount, and what the trade
/// gives for it.
pub struct LegSteps {
    pub share: Number,
    pub kept: Number,
    pub left: Number,
    pub end: Number,
}

/// Whether the numbers are those of a trade of an amount with a fee in basis
/// points: the fee, which counts as zero where it is below that, comes off
/// first, and what is left is multiplied by the price where the pair is sold
/// and divided by it where it is bought.
pub open spec fn are_steps(
    amount: Number,
    fee: Number,
    is_sale: bool,
    price: Number,
    steps: LegSteps,
) -> bool {
    &&& crate::decimal::place(fee) >= 0 ==> crate::decimal::quotient(fee, (10_000, 0, false))
        == Some(steps.share)
    &&& crate::decimal::place(fee) < 0 ==> crate::decimal::quotient(
        (0, 0, false),
        (10_000, 0, false),
    ) == Some(steps.share)
    &&& crate::decimal::difference((1, 0, false), steps.share) == Some(steps.kept)
    &&& crate::decimal::product(amount, steps.kept) == Some(steps.left)
    &&& is_sale ==> crate::decimal::product(steps.left, price) == Some(steps.end)
    &&& !is_sale ==> crate::decimal::quotient(steps.left, price) == Some(steps.end)
}

/// Whether none of the numbers of a trade had to be rounded.
pub open spec fn without_rounding(
    amount: Number,
    fee: Number,
    is_sale: bool,
    price: Number,
    steps: LegSteps,
) -> bool {
    &&& crate::decimal::place(fee) >= 0 ==> crate::decimal::is_quotient(
        steps.share,
        fee,
        (10_000, 0, false),
    )
    &&& crate::decimal::sum_is_exact(1, 0, -steps.share.0, steps.share.1)
    &&& crate::decimal::product_is_exact(amount.0, amount.1, steps.kept.0, steps.kept.1)
    &&& is_sale ==> crate::decimal::product_is_exact(steps.left.0, steps.left.1, price.0, price.1)
    &&& !is_sale ==> crate::decimal::is_quotient(steps.end, steps.left, price)
}

/// Whether a leg sells its pair: the name of the pair begins with the name of
/// the asset.
pub open spec fn is_sale(leg: LegView) -> bool {
    leg.part.len() <= leg.pair.len() && leg.pair.take(leg.part.len() as int) == leg.part
}

/// The price that counts on a leg at a level: the bid where the pair is sold,
/// and the ask where it is bought.
pub open spec fn price_on(leg: LegView, level: int) -> Number {
    if is_sale(leg) {
        leg.bids[level].price@
    } else {
        leg.asks[level].price@
    }
}

/// Whether the steps are those of a trade on a leg at a level.
pub open spec fn are_steps_on(amount: Number, leg: LegView, level: int, steps: LegSteps) -> bool {
    are_steps(amount, leg.fee, is_sale(leg), price_on(leg, level), steps)
}

/// Whether none of the steps on a leg at a level had to be rounded.
pub open spec fn without_rounding_on(
    amount: Number,
    leg: LegView,
    level: int,
    steps: LegSteps,
) -> bool {
    without_rounding(amount, leg.fee, is_sale(leg), price_on(leg, level), steps)
}

/// A name begins with another where the other is as much of it as it is long.
pub proof fn law_sales_are_told_by_name(leg: LegView)
    ensures
        crate::workers::sells(leg.pair, leg.part) <==> is_sale(leg),
{
    if is_sale(leg) {
        assert forall|i: int| 0 <= i < leg.part.len() implies leg.part[i] == leg.pair[i] by {
            assert(leg.pair.take(leg.part.len() as int)[i] == leg.pair[i]);
        }
    }
    if crate::workers::sells(leg.pair, leg.part) {
        assert(leg.pair.take(leg.part.len() as int) =~= leg.part);
    }
}

/// A trade on a leg at a level gives what its steps give, at the price of the
/// leg's side and with the leg's own fee; and it gives something only by such
/// steps.
pub proof fn law_leg_goes_by_its_steps(amount: Number, leg: LegView, level: int, steps: LegSteps)
    ensures
        are_steps_on(amount, leg, level, steps) ==> crate::workers::after_leg(amount, leg, level)
            == Some(steps.end),
        crate::workers::after_leg(amount, leg, level) is Some ==> exists|s: LegSteps|
            are_steps_on(amount, leg, level, s) && s.end == crate::workers::after_leg(
                amount,
                leg,
                level,
            )->0,
{
    law_sales_are_told_by_name(leg);
    if crate::workers::after_leg(amount, leg, level) is Some {
        let fee = if crate::decimal::place(leg.fee) < 0 {
            (0int, 0int, false)
        } else {
            leg.fee
        };
        let share = crate::decimal::quotient(fee, (10_000, 0, false))->0;
        let kept = crate::decimal::difference((1, 0, false), share)->0;
        let left = crate::decimal::product(amount, kept)->0;
        let s = LegSteps {
            share,
            kept,
            left,
            end: crate::workers::after_leg(amount, leg, level)->0,
        };
        assert(are_steps_on(amount, leg, level, s));
    }
}

/// The profit at a level is what one becomes over the three legs, minus one:
/// each leg takes what the leg before it gave, at its own price and with its
/// own fee.
pub proof fn law_profit_goes_by_the_steps(
    legs: LegsView,
    level: int,
    first: LegSteps,
    second: LegSteps,
    third: LegSteps,
)
    requires
        are_steps_on((1, 0, false), legs.first, level, first),
        are_steps_on(first.end, legs.second, level, second),
        are_steps_on(second.end, legs.third, level, third),
    ensures
        crate::workers::profit_at(legs, level) == crate::decimal::difference(
            third.end,
            (1, 0, false),
        ),
{
    law_leg_goes_by_its_steps((1, 0, false), legs.first, level, first);
    law_leg_goes_by_its_steps(first.end, legs.second, level, second);
    law_leg_goes_by_its_steps(second.end, legs.third, level, third);
}

/// There is a profit at a level only where all three legs have their steps, one
/// after the other.
pub proof fn law_profit_needs_all_legs(legs: LegsView, level: int) -> (steps: (
    LegSteps,
    LegSteps,
    LegSteps,
))
    requires
        crate::workers::profit_at(legs, level) is Some,
    ensures
        are_steps_on((1, 0, false), legs.first, level, steps.0),
        are_steps_on(steps.0.end, legs.second, level, steps.1),
        are_steps_on(steps.1.end, legs.third, level, steps.2),
        crate::workers::profit_at(legs, level) == crate::decimal::difference(
            steps.2.end,
            (1, 0, false),
        ),
{
    let any = arbitrary::<LegSteps>();
    let one = (1int, 0int, false);
    law_leg_goes_by_its_steps(one, legs.first, level, any);
    let a = crate::workers::after_leg(one, legs.first, level)->0;
    let first = choose|s: LegSteps| are_steps_on(one, legs.first, level, s) && s.end == a;
    law_leg_goes_by_its_steps(a, legs.second, level, any);
    let b = crate::workers::after_leg(a, legs.second, level)->0;
    let second = choose|s: LegSteps| are_steps_on(a, legs.second, level, s) && s.end == b;
    law_leg_goes_by_its_steps(b, legs.third, level, any);
    let c = crate::workers::after_leg(b, legs.third, level)->0;
    let third = choose|s: LegSteps| are_steps_on(b, legs.third, level, s) && s.end == c;
    (first, second, third)
}

/// What a fee keeps of ten thousand, in units; a fee below zero keeps all.
pub open spec fn kept_of_ten_thousand(fee: Number) -> int {
    if crate::decimal::place(fee) < 0 {
        10_000 * one_in_units()
    } else {
        10_000 * one_in_units() - crate::decimal::place(fee)
    }
}

/// What the price of a leg multiplies by, in units: the bid, or one.
pub open spec fn multiplier(leg: LegView, level: int) -> int {
    if is_sale(leg) {
        crate::decimal::place(leg.bids[level].price@)
    } else {
        one_in_units()
    }
}

/// What the price of a leg divides by, in units: one, or the ask.
pub open spec fn divisor(leg: LegView, level: int) -> int {
    if is_sale(leg) {
        one_in_units()
    } else {
        crate::decimal::place(leg.asks[level].price@)
    }
}

/// Without rounding, a trade multiplies an amount by one less the fee, and by
/// the bid or one over the ask.
pub proof fn law_exact_leg(amount: Number, leg: LegView, level: int, steps: LegSteps)
    requires
        crate::decimal::in_range(amount.0, amount.1),
        crate::decimal::in_range(leg.fee.0, leg.fee.1),
        crate::decimal::is_number(leg.asks[level].price@),
        crate::decimal::is_number(leg.bids[level].price@),
        are_steps_on(amount, leg, level, steps),
        without_rounding_on(amount, leg, level, steps),
    ensures
        crate::workers::after_leg(amount, leg, level) == Some(steps.end),
        crate::decimal::in_range(steps.end.0, steps.end.1),
        crate::decimal::place(steps.end) * (10_000 * one_in_units() * divisor(leg, level))
            == crate::decimal::place(amount) * (kept_of_ten_thousand(leg.fee) * multiplier(
            leg,
            level,
        )),
{
    law_leg_goes_by_its_steps(amount, leg, level, steps);
    let u = one_in_units();
    crate::decimal::law_whole_numbers(1);
    crate::decimal::law_whole_numbers(10_000);
    crate::decimal::law_whole_numbers(0);
    let share = crate::decimal::place(steps.share);
    let fee = crate::decimal::place(leg.fee);
    let price = price_on(leg, level);
    let p = crate::decimal::place(price);
    if fee >= 0 {
        assert(share * (10_000 * u) == fee * u);
        assert(10_000 * share == fee) by (nonlinear_arith)
            requires
                share * (10_000 * u) == fee * u,
                u > 0,
        ;
    } else {
        assert(steps.share == (0int, 0int, false));
        assert(share == 0);
    }
    crate::decimal::law_fitting_differences_are_exact((1, 0, false), steps.share);
    crate::decimal::law_fitting_products_are_exact(amount, steps.kept);
    let kept = crate::decimal::place(steps.kept);
    let left = crate::decimal::place(steps.left);
    let x = crate::decimal::place(amount);
    let e = crate::decimal::place(steps.end);
    let k = kept_of_ten_thousand(leg.fee);
    assert(10_000 * kept == k);
    assert(left * u == x * kept);
    if is_sale(leg) {
        crate::decimal::law_fitting_products_are_exact(steps.left, price);
        assert(e * u == left * p);
        assert(e * (10_000 * u * u) == x * (k * p)) by (nonlinear_arith)
            requires
                e * u == left * p,
                left * u == x * kept,
                10_000 * kept == k,
        {
            assert(e * u * u == left * u * p);
            assert(left * u * p == x * kept * p);
            assert(10_000 * (x * kept * p) == x * (k * p));
        }
    } else {
        assert(e * p == left * u);
        assert(e * (10_000 * u * p) == x * (k * u)) by (nonlinear_arith)
            requires
                e * p == left * u,
                left * u == x * kept,
                10_000 * kept == k,
        {
            assert(e * p == x * kept);
            assert(10_000 * (e * p) == x * k);
        }
    }
}

/// Whether the legs of a triangle hold decimal numbers at a level.
pub open spec fn holds_numbers(leg: LegView, level: int) -> bool {
    &&& crate::decimal::in_range(leg.fee.0, leg.fee.1)
    &&& crate::decimal::is_number(leg.asks[level].price@)
    &&& crate::decimal::is_number(leg.bids[level].price@)
}

/// Whether one is walked over the legs at a level by steps none of which had to
/// be rounded, and what is left above one is a profit that was not either.
pub open spec fn walks_without_rounding(
    legs: LegsView,
    level: int,
    steps: (LegSteps, LegSteps, LegSteps),
) -> bool {
    &&& are_steps_on((1, 0, false), legs.first, level, steps.0)
    &&& are_steps_on(steps.0.end, legs.second, level, steps.1)
    &&& are_steps_on(steps.1.end, legs.third, level, steps.2)
    &&& without_rounding_on((1, 0, false), legs.first, level, steps.0)
    &&& without_rounding_on(steps.0.end, legs.second, level, steps.1)
    &&& without_rounding_on(steps.1.end, legs.third, level, steps.2)
    &&& crate::decimal::sum_is_exact(steps.2.end.0, steps.2.end.1, -1, 0)
}

/// Where nothing is rounded, the profit at a level is the product over all three
/// legs of one less the leg's fee times the leg's bid or one over its ask, minus
/// one.
pub proof fn law_profit_is_the_product(
    legs: LegsView,
    level: int,
    steps: (LegSteps, LegSteps, LegSteps),
)
    requires
        holds_numbers(legs.first, level),
        holds_numbers(legs.second, level),
        holds_numbers(legs.third, level),
        walks_without_rounding(legs, level, steps),
    ensures
        crate::workers::profit_at(legs, level) matches Some(profit) && {
            let u = one_in_units();
            (crate::decimal::place(profit) + u) * ((10_000 * u * divisor(legs.first, level)) * (10_000
                * u * divisor(legs.second, level)) * (10_000 * u * divisor(legs.third, level))) == u
                * ((kept_of_ten_thousand(legs.first.fee) * multiplier(legs.first, level)) * (
            kept_of_ten_thousand(legs.second.fee) * multiplier(legs.second, level)) * (
            kept_of_ten_thousand(legs.third.fee) * multiplier(legs.third, level)))
        },
{
    let u = one_in_units();
    crate::decimal::law_whole_numbers(1);
    law_exact_leg((1, 0, false), legs.first, level, steps.0);
    law_exact_leg(steps.0.end, legs.second, level, steps.1);
    law_exact_leg(steps.1.end, legs.third, level, steps.2);
    law_profit_goes_by_the_steps(legs, level, steps.0, steps.1, steps.2);
    crate::decimal::law_fitting_differences_are_exact(steps.2.end, (1, 0, false));
    let d1 = 10_000 * u * divisor(legs.first, level);
    let d2 = 10_000 * u * divisor(legs.second, level);
    let d3 = 10_000 * u * divisor(legs.third, level);
    let n1 = kept_of_ten_thousand(legs.first.fee) * multiplier(legs.first, level);
    let n2 = kept_of_ten_thousand(legs.second.fee) * multiplier(legs.second, level);
    let n3 = kept_of_ten_thousand(legs.third.fee) * multiplier(legs.third, level);
    let e1 = crate::decimal::place(steps.0.end);
    let e2 = crate::decimal::place(steps.1.end);
    let e3 = crate::decimal::place(steps.2.end);
    assert(e3 * (d1 * d2 * d3) == u * (n1 * n2 * n3)) by (nonlinear_arith)
        requires
            e1 * d1 == u * n1,
            e2 * d2 == e1 * n2,
            e3 * d3 == e2 * n3,
    {
        assert(e3 * (d1 * d2 * d3) == (e3 * d3) * (d1 * d2));
        assert((e2 * n3) * (d1 * d2) == (e2 * d2) * (d1 * n3));
        assert((e1 * n2) * (d1 * n3) == (e1 * d1) * (n2 * n3));
        assert((u * n1) * (n2 * n3) == u * (n1 * n2 * n3));
    }
}

/// Whether two legs are the same but for their fees.
pub open spec fn same_but_for_fee(a: LegView, b: LegView) -> bool {
    a.pair == b.pair && a.part == b.part && a.asks == b.asks && a.bids == b.bids
}

/// Whether a leg has a price above zero at a level and a fee that leaves
/// something.
pub open spec fn gives_something(leg: LegView, level: int) -> bool {
    &&& crate::decimal::place(price_on(leg, level)) > 0
    &&& 0 <= crate::decimal::place(leg.fee)
    &&& crate::decimal::place(leg.fee) < 10_000 * one_in_units()
}

proof fn lemma_product_of_three(k1: int, k2: int, k3: int, l1: int, l2: int, l3: int)
    requires
        0 < l1 <= k1,
        0 < l2 <= k2,
        0 < l3 <= k3,
        l1 < k1 || l2 < k2 || l3 < k3,
    ensures
        0 < l1 * l2 * l3,
        l1 * l2 * l3 < k1 * k2 * k3,
{
    assert(0 < l1 * l2 <= k1 * k2) by (nonlinear_arith)
        requires
            0 < l1 <= k1,
            0 < l2 <= k2,
    ;
    assert(l1 < k1 || l2 < k2 ==> l1 * l2 < k1 * k2) by (nonlinear_arith)
        requires
            0 < l1 <= k1,
            0 < l2 <= k2,
    ;
    let l = l1 * l2;
    let k = k1 * k2;
    assert(0 < l * l3 && l * l3 < k * k3) by (nonlinear_arith)
        requires
            0 < l <= k,
            0 < l3 <= k3,
            l < k || l3 < k3,
    ;
}

/// Raising the fee of any of the legs lowers the profit, where nothing is
/// rounded.
pub proof fn law_higher_fees_lower_the_profit(
    legs: LegsView,
    dearer: LegsView,
    level: int,
    steps: (LegSteps, LegSteps, LegSteps),
    dearer_steps: (LegSteps, LegSteps, LegSteps),
)
    requires
        holds_numbers(legs.first, level),
        holds_numbers(legs.second, level),
        holds_numbers(legs.third, level),
        holds_numbers(dearer.first, level),
        holds_numbers(dearer.second, level),
        holds_numbers(dearer.third, level),
        walks_without_rounding(legs, level, steps),
        walks_without_rounding(dearer, level, dearer_steps),
        same_but_for_fee(legs.first, dearer.first),
        same_but_for_fee(legs.second, dearer.second),
        same_but_for_fee(legs.third, dearer.third),
        gives_something(legs.first, level),
        gives_something(legs.second, level),
        gives_something(legs.third, level),
        gives_something(dearer.first, level),
        gives_something(dearer.second, level),
        gives_something(dearer.third, level),
        crate::decimal::place(legs.first.fee) <= crate::decimal::place(dearer.first.fee),
        crate::decimal::place(legs.second.fee) <= crate::decimal::place(dearer.second.fee),
        crate::decimal::place(legs.third.fee) <= crate::decimal::place(dearer.third.fee),
        crate::decimal::place(legs.first.fee) < crate::decimal::place(dearer.first.fee)
            || crate::decimal::place(legs.second.fee) < crate::decimal::place(dearer.second.fee)
            || crate::decimal::place(legs.third.fee) < crate::decimal::place(dearer.third.fee),
    ensures
        crate::workers::profit_at(legs, level) is Some,
        crate::workers::profit_at(dearer, level) is Some,
        crate::decimal::place(crate::workers::profit_at(dearer, level)->0) < crate::decimal::place(
            crate::workers::profit_at(legs, level)->0,
        ),
{
    law_profit_is_the_product(legs, level, steps);
    law_profit_is_the_product(dearer, level, dearer_steps);
    let u = one_in_units();
    crate::decimal::law_whole_numbers(1);
    let g1 = multiplier(legs.first, level);
    let g2 = multiplier(legs.second, level);
    let g3 = multiplier(legs.third, level);
    let c1 = divisor(legs.first, level);
    let c2 = divisor(legs.second, level);
    let c3 = divisor(legs.third, level);
    let k1 = kept_of_ten_thousand(legs.first.fee);
    let k2 = kept_of_ten_thousand(legs.second.fee);
    let k3 = kept_of_ten_thousand(legs.third.fee);
    let l1 = kept_of_ten_thousand(dearer.first.fee);
    let l2 = kept_of_ten_thousand(dearer.second.fee);
    let l3 = kept_of_ten_thousand(dearer.third.fee);
    assert(0 < l1 * g1 <= k1 * g1 && (l1 < k1 ==> l1 * g1 < k1 * g1)) by (nonlinear_arith)
        requires
            0 < g1,
            0 < l1 <= k1,
    ;
    assert(0 < l2 * g2 <= k2 * g2 && (l2 < k2 ==> l2 * g2 < k2 * g2)) by (nonlinear_arith)
        requires
            0 < g2,
            0 < l2 <= k2,
    ;
    assert(0 < l3 * g3 <= k3 * g3 && (l3 < k3 ==> l3 * g3 < k3 * g3)) by (nonlinear_arith)
        requires
            0 < g3,
            0 < l3 <= k3,
    ;
    lemma_product_of_three(k1 * g1, k2 * g2, k3 * g3, l1 * g1, l2 * g2, l3 * g3);
    let d1 = 10_000 * u * c1;
    let d2 = 10_000 * u * c2;
    let d3 = 10_000 * u * c3;
    assert(d1 > 0) by (nonlinear_arith)
        requires
            d1 == 10_000 * u * c1,
            u > 0,
            c1 > 0,
    ;
    assert(d2 > 0) by (nonlinear_arith)
        requires
            d2 == 10_000 * u * c2,
            u > 0,
            c2 > 0,
    ;
    assert(d3 > 0) by (nonlinear_arith)
        requires
            d3 == 10_000 * u * c3,
            u > 0,
            c3 > 0,
    ;
    let d = d1 * d2 * d3;
    assert(d > 0) by (nonlinear_arith)
        requires
            d == d1 * d2 * d3,
            d1 > 0,
            d2 > 0,
            d3 > 0,
    ;
    let n = (k1 * g1) * (k2 * g2) * (k3 * g3);
    let m = (l1 * g1) * (l2 * g2) * (l3 * g3);
    let p = crate::decimal::place(crate::workers::profit_at(legs, level)->0);
    let q = crate::decimal::place(crate::workers::profit_at(dearer, level)->0);
    assert(q < p) by (nonlinear_arith)
        requires
            (p + u) * d == u * n,
            (q + u) * d == u * m,
            m < n,
            u > 0,
            d > 0,
    ;
}

/// The numbers that come up in one trade by the rules: the share that the fee
/// takes of one, the share that is kept, what is kept of the amount, the
/// quantity before it is rounded and after, its notional, and what the trade
/// gives.
pub struct RuledTrade {
    pub share: Number,
    pub kept: Number,
    pub left: Number,
    pub raw: Number,
    pub qty: Number,
    pub notional: Number,
    pub end: Number,
}

/// Whether a quantity is another one in the whole steps that the rule of a pair
/// asks for, if it asks for any.
pub open spec fn is_rounded(raw: Number, qty: Number, rule: Option<PairRuleConfig>) -> bool {
    if rule is Some && rule->0.qty_step is Some && rule->0.qty_step->0.amount() > 0 {
        let step = rule->0.qty_step->0@;
        &&& crate::decimal::quotient(raw, step) is Some
        &&& crate::decimal::product(
            crate::decimal::whole_part(crate::decimal::quotient(raw, step)->0),
            step,
        ) == Some(qty)
    } else {
        qty == raw
    }
}

/// Whether the numbers are those of a trade of an amount on a leg at a level
/// that keeps to the rule of the leg's pair and to what is offered there. The
/// quantity is above zero, in whole steps, not below the smallest and not above
/// the size of the offer; its notional, and what is paid, are not below the
/// smallest.
pub open spec fn trades_by_the_rules(
    amount: Number,
    leg: LegView,
    level: int,
    rules: ExchangeRulesConfig,
    trade: RuledTrade,
) -> bool {
    let rule = crate::workers::entry_for(rules.pair_rules@, leg.pair);
    &&& crate::decimal::place(amount) > 0
    &&& crate::decimal::place(leg.fee) >= 0 ==> crate::decimal::quotient(
        leg.fee,
        (10_000, 0, false),
    ) == Some(trade.share)
    &&& crate::decimal::place(leg.fee) < 0 ==> crate::decimal::quotient(
        (0, 0, false),
        (10_000, 0, false),
    ) == Some(trade.share)
    &&& crate::decimal::difference((1, 0, false), trade.share) == Some(trade.kept)
    &&& crate::decimal::product(amount, trade.kept) == Some(trade.left)
    &&& is_sale(leg) ==> {
        &&& trade.raw == trade.left
        &&& crate::decimal::place(trade.qty) <= leg.bids[level].size.amount()
        &&& crate::decimal::product(trade.qty, leg.bids[level].price@) == Some(trade.notional)
        &&& trade.end == trade.notional
    }
    &&& !is_sale(leg) ==> {
        &&& crate::decimal::quotient(trade.left, leg.asks[level].price@) == Some(trade.raw)
        &&& crate::decimal::place(trade.raw) > 0
        &&& crate::decimal::place(trade.qty) <= leg.asks[level].size.amount()
        &&& crate::decimal::product(trade.qty, leg.asks[level].price@) == Some(trade.notional)
        &&& trade.end == trade.qty
        &&& rule is Some && rule->0.min_notional is Some ==> crate::decimal::place(trade.left)
            >= rule->0.min_notional->0.amount()
    }
    &&& is_rounded(trade.raw, trade.qty, rule)
    &&& crate::decimal::place(trade.qty) > 0
    &&& rule is Some && rule->0.min_qty is Some ==> crate::decimal::place(trade.qty)
        >= rule->0.min_qty->0.amount()
    &&& rule is Some && rule->0.min_notional is Some ==> crate::decimal::place(trade.notional)
        >= rule->0.min_notional->0.amount()
}

/// The rule of a pair, or whatever else is under a name, is the entry under the
/// name itself, and else the one under the name in small letters.
pub proof fn law_entries_are_found_by_name<V>(map: Map<Seq<char>, V>, name: Seq<char>)
    ensures
        map.dom().contains(name) ==> crate::workers::entry_for(map, name) == Some(map[name]),
        !map.dom().contains(name) && map.dom().contains(crate::text::lowered(name))
            ==> crate::workers::entry_for(map, name) == Some(map[crate::text::lowered(name)]),
        !map.dom().contains(name) && !map.dom().contains(crate::text::lowered(name))
            ==> crate::workers::entry_for(map, name) is None,
{
}

/// A trade that keeps to the rules is made, and gives what its numbers say.
pub proof fn law_ruled_trades_are_made(
    amount: Number,
    leg: LegView,
    level: int,
    rules: ExchangeRulesConfig,
    trade: RuledTrade,
)
    requires
        trades_by_the_rules(amount, leg, level, rules, trade),
    ensures
        crate::workers::traded_on(amount, leg, level, true, rules) == Ok::<
            Number,
            crate::workers::TradeErrorView,
        >(trade.end),
{
    law_sales_are_told_by_name(leg);
}

/// Where the rules count, a trade that is made keeps to the rule of its pair and
/// to what is offered.
pub proof fn law_trades_keep_to_the_rules(
    amount: Number,
    leg: LegView,
    level: int,
    rules: ExchangeRulesConfig,
) -> (trade: RuledTrade)
    requires
        crate::workers::traded_on(amount, leg, level, true, rules) is Ok,
    ensures
        trades_by_the_rules(amount, leg, level, rules, trade),
        crate::workers::traded_on(amount, leg, level, true, rules) == Ok::<
            Number,
            crate::workers::TradeErrorView,
        >(trade.end),
{
    law_sales_are_told_by_name(leg);
    let rule = crate::workers::entry_for(rules.pair_rules@, leg.pair);
    let fee = if crate::decimal::place(leg.fee) < 0 {
        (0int, 0int, false)
    } else {
        leg.fee
    };
    let share = crate::decimal::quotient(fee, (10_000, 0, false))->0;
    let kept = crate::decimal::difference((1, 0, false), share)->0;
    let left = crate::decimal::product(amount, kept)->0;
    let raw = if is_sale(leg) {
        left
    } else {
        crate::decimal::quotient(left, leg.asks[level].price@)->0
    };
    let qty = crate::workers::rounded_qty(raw, rule)->0;
    let notional = crate::decimal::product(qty, price_on(leg, level))->0;
    RuledTrade {
        share,
        kept,
        left,
        raw,
        qty,
        notional,
        end: if is_sale(leg) {
            notional
        } else {
            qty
        },
    }
}

/// Where the rules count and a walk comes to its end, the trade on each of the
/// three legs keeps to the rule of its pair and to what is offered on that leg
/// at that level, and each leg takes what the leg before it gave.
pub proof fn law_walks_keep_to_the_rules(
    amount: Number,
    legs: LegsView,
    level: int,
    rules: ExchangeRulesConfig,
) -> (trades: (RuledTrade, RuledTrade, RuledTrade))
    requires
        crate::workers::walked(amount, legs, level, true, rules) is Ok,
    ensures
        trades_by_the_rules(amount, legs.first, level, rules, trades.0),
        trades_by_the_rules(trades.0.end, legs.second, level, rules, trades.1),
        trades_by_the_rules(trades.1.end, legs.third, level, rules, trades.2),
        crate::workers::walked(amount, legs, level, true, rules) == Ok::<
            Number,
            crate::workers::TradeErrorView,
        >(trades.2.end),
{
    let first = law_trades_keep_to_the_rules(amount, legs.first, level, rules);
    let second = law_trades_keep_to_the_rules(first.end, legs.second, level, rules);
    let third = law_trades_keep_to_the_rules(second.end, legs.third, level, rules);
    (first, second, third)
}

/// A walk whose trades keep to the rules on all three legs comes to its end.
pub proof fn law_ruled_walks_come_to_their_end(
    amount: Number,
    legs: LegsView,
    level: int,
    rules: ExchangeRulesConfig,
    trades: (RuledTrade, RuledTrade, RuledTrade),
)
    requires
        trades_by_the_rules(amount, legs.first, level, rules, trades.0),
        trades_by_the_rules(trades.0.end, legs.second, level, rules, trades.1),
        trades_by_the_rules(trades.1.end, legs.third, level, rules, trades.2),
    ensures
        crate::workers::walked(amount, legs, level, true, rules) == Ok::<
            Number,
            crate::workers::TradeErrorView,
        >(trades.2.end),
{
    law_ruled_trades_are_made(amount, legs.first, level, rules, trades.0);
    law_ruled_trades_are_made(trades.0.end, legs.second, level, rules, trades.1);
    law_ruled_trades_are_made(trades.1.end, legs.third, level, rules, trades.2);
}

/// The quantity of a trade by the rules is a whole number of the steps of its
/// pair, where that is a decimal number, and less than one step below what was
/// to be traded, where the number of steps is one.
pub proof fn law_ruled_quantities_are_in_steps(
    amount: Number,
    leg: LegView,
    level: int,
    rules: ExchangeRulesConfig,
    trade: RuledTrade,
    step: Number,
)
    requires
        holds_numbers(leg, level),
        crate::decimal::is_number(step),
        crate::decimal::place(step) > 0,
        trades_by_the_rules(amount, leg, level, rules, trade),
        crate::workers::entry_for(rules.pair_rules@, leg.pair) matches Some(rule)
            && rule.qty_step matches Some(s) && s@ == step,
    ensures
        ({
            let steps = crate::decimal::whole_part(
                crate::decimal::quotient(trade.raw, step)->0,
            ).0;
            let low = steps * crate::decimal::place(step);
            let high = (steps + 1) * crate::decimal::place(step);
            &&& crate::decimal::product_is_exact(steps, 0, step.0, step.1)
                ==> crate::decimal::place(trade.qty) == low
            &&& crate::decimal::quotient_fits(trade.raw, step) ==> low <= crate::decimal::place(
                trade.raw,
            ) < high
        }),
{
    assert(crate::decimal::in_range(trade.left.0, trade.left.1));
    crate::decimal::law_quotients_are_near(trade.left, leg.asks[level].price@);
    crate::workers::law_rounded_to_steps(trade.raw, step, trade.qty);
}

/// A triangle that passes the demands of the exchange was walked from its start
/// amount over all three legs by the rules.
pub proof fn law_passing_keeps_to_the_rules(
    legs: LegsView,
    level: int,
    rules: ExchangeRulesConfig,
) -> (trades: (RuledTrade, RuledTrade, RuledTrade))
    requires
        rules.enabled,
        crate::workers::execution_at(legs, level, rules) matches Some(found) && found.passed,
    ensures
        ({
            let amount = crate::workers::walking_amount(
                crate::workers::start_amount(rules, legs.first.part).1,
            );
            &&& trades_by_the_rules(amount, legs.first, level, rules, trades.0)
            &&& trades_by_the_rules(trades.0.end, legs.second, level, rules, trades.1)
            &&& trades_by_the_rules(trades.1.end, legs.third, level, rules, trades.2)
            &&& crate::workers::gain_in_bps(amount, trades.2.end) == Some(
                crate::workers::execution_at(legs, level, rules)->0.executable,
            )
        }),
{
    let amount = crate::workers::walking_amount(
        crate::workers::start_amount(rules, legs.first.part).1,
    );
    law_walks_keep_to_the_rules(amount, legs, level, rules)
}

/// Where the rules do not count, a trade of an amount above zero is made by its
/// steps, whatever is offered; only a purchase that gives nothing above zero is
/// refused. An amount that is not above zero is refused in any case.
pub proof fn law_trades_without_rules(
    amount: Number,
    leg: LegView,
    level: int,
    rules: ExchangeRulesConfig,
    steps: LegSteps,
    enforce: bool,
)
    requires
        are_steps_on(amount, leg, level, steps),
    ensures
        crate::decimal::place(amount) > 0 && (is_sale(leg) || crate::decimal::place(steps.end) > 0)
            ==> crate::workers::traded_on(amount, leg, level, false, rules) == Ok::<
            Number,
            crate::workers::TradeErrorView,
        >(steps.end),
        crate::decimal::place(amount) > 0 && !is_sale(leg) && crate::decimal::place(steps.end) <= 0
            ==> crate::workers::traded_on(amount, leg, level, false, rules) == Err::<
            Number,
            crate::workers::TradeErrorView,
        >(crate::workers::TradeErrorView::Rejected("invalid ask price on "@ + leg.pair)),
        crate::decimal::place(amount) <= 0 ==> crate::workers::traded_on(
            amount,
            leg,
            level,
            enforce,
            rules,
        ) == Err::<Number, crate::workers::TradeErrorView>(
            crate::workers::TradeErrorView::Rejected("invalid input amount for "@ + leg.pair),
        ),
{
    law_sales_are_told_by_name(leg);
}

/// Where the rules do not count, a walk with one that comes to its end agrees
/// with the profit at its level.
pub proof fn law_walk_agrees_with_profit(
    legs: LegsView,
    level: int,
    rules: ExchangeRulesConfig,
    end: Number,
)
    requires
        crate::workers::walked((1, 0, false), legs, level, false, rules) == Ok::<
            Number,
            crate::workers::TradeErrorView,
        >(end),
    ensures
        crate::workers::profit_at(legs, level) == crate::decimal::difference(end, (1, 0, false)),
{
}

/// Why a trade that is to keep to the rules is refused, once its quantity is
/// rounded: the quantity is not above zero, or else below the smallest, or else
/// above what is offered, or else its notional is below the smallest. What is
/// paid in a purchase is held to the smallest notional before all that.
pub proof fn law_refusals_give_their_reason(
    left: Number,
    pair: Seq<char>,
    offer: OfferData,
    rule: PairRuleConfig,
    raw: Number,
    qty: Number,
    notional: Number,
    is_sale: bool,
)
    requires
        is_sale ==> raw == left,
        !is_sale ==> crate::decimal::quotient(left, offer.price@) == Some(raw)
            && crate::decimal::place(raw) > 0,
        is_rounded(raw, qty, Some(rule)),
        crate::decimal::product(qty, offer.price@) == Some(notional),
    ensures
        ({
            let outcome = if is_sale {
                crate::workers::sold(left, pair, offer, true, Some(rule))
            } else {
                crate::workers::bought(left, pair, offer, true, Some(rule))
            };
            let paid_too_little = !is_sale && rule.min_notional is Some && crate::decimal::place(
                left,
            ) < rule.min_notional->0.amount();
            let nothing = crate::decimal::place(qty) <= 0;
            let too_small = rule.min_qty is Some && crate::decimal::place(qty)
                < rule.min_qty->0.amount();
            let too_large = crate::decimal::place(qty) > offer.size.amount();
            let worth_too_little = rule.min_notional is Some && crate::decimal::place(notional)
                < rule.min_notional->0.amount();
            &&& paid_too_little ==> outcome == refused(
                "notional below min_notional on "@ + pair + " ("@ + crate::decimal::text_of_number(
                    left,
                ) + " < "@ + crate::decimal::text_of_number(rule.min_notional->0@) + ")"@,
            )
            &&& !paid_too_little && nothing ==> outcome == refused(
                "non-positive rounded quantity on "@ + pair,
            )
            &&& !paid_too_little && !nothing && too_small ==> outcome == refused(
                "quantity below min_qty on "@ + pair + " ("@ + crate::decimal::text_of_number(qty)
                    + " < "@ + crate::decimal::text_of_number(rule.min_qty->0@) + ")"@,
            )
            &&& !paid_too_little && !nothing && !too_small && too_large && is_sale ==> outcome
                == refused("insufficient bid depth on "@ + pair)
            &&& !paid_too_little && !nothing && !too_small && too_large && !is_sale ==> outcome
                == refused("insufficient ask depth on "@ + pair)
            &&& !paid_too_little && !nothing && !too_small && !too_large && worth_too_little
                ==> outcome == refused(
                "notional below min_notional on "@ + pair + " ("@ + crate::decimal::text_of_number(
                    notional,
                ) + " < "@ + crate::decimal::text_of_number(rule.min_notional->0@) + ")"@,
            )
            &&& !paid_too_little && !nothing && !too_small && !too_large && !worth_too_little
                ==> outcome == Ok::<Number, crate::workers::TradeErrorView>(
                if is_sale {
                    notional
                } else {
                    qty
                },
            )
        }),
{
    assert(crate::workers::rounded_qty(raw, Some(rule)) == Some(qty));
}

/// A trade that was refused for a reason.
pub open spec fn refused(reason: Seq<char>) -> crate::workers::TradeOutcome {
    Err(crate::workers::TradeErrorView::Rejected(reason))
}

/// Whether a configured number is a number that is not below zero.
pub open spec fn is_fee(n: ConfigNumber) -> bool {
    !n.float.nan() && n.float.key >= -1
}

/// The fee that a configured number stands for: itself, or zero where it is not
/// a number or below zero.
pub open spec fn as_fee(n: ConfigNumber) -> (FloatKey, Number) {
    if is_fee(n) {
        (n.float, n.decimal@)
    } else {
        (FloatKey { key: 0 }, (0, 0, false))
    }
}

/// The fee on a pair is that of its own rule, found by its name or else by its
/// name in small letters; where there is no rule, or the rule has no fee, it is
/// the default. It is never below zero.
pub proof fn law_fee_is_that_of_the_pair(rules: ExchangeRulesConfig, pair: Seq<char>)
    ensures
        ({
            let own = rules.pair_rules@.dom().contains(pair);
            let small = crate::text::lowered(pair);
            let other = !own && rules.pair_rules@.dom().contains(small);
            let fee = crate::workers::fee_on(rules, pair);
            &&& own && rules.pair_rules@[pair].fee_bps is Some ==> fee == as_fee(
                rules.pair_rules@[pair].fee_bps->0,
            )
            &&& other && rules.pair_rules@[small].fee_bps is Some ==> fee == as_fee(
                rules.pair_rules@[small].fee_bps->0,
            )
            &&& own && rules.pair_rules@[pair].fee_bps is None ==> fee == as_fee(
                rules.default_fee_bps,
            )
            &&& other && rules.pair_rules@[small].fee_bps is None ==> fee == as_fee(
                rules.default_fee_bps,
            )
            &&& !own && !other ==> fee == as_fee(rules.default_fee_bps)
        }),
{
}

/// The start amount of an asset is the one configured for it, found by its name
/// or else by its name in small letters, and else the default. One that is not a
/// number, or below the smallest positive number, counts as that, and as zero
/// where a decimal number is asked for; a walk then starts with a tiny amount.
pub proof fn law_start_amount_is_that_of_the_asset(
    rules: ExchangeRulesConfig,
    asset: Seq<char>,
    amount: ConfigNumber,
)
    requires
        ({
            let own = rules.assumed_start_amounts@.dom().contains(asset);
            let small = crate::text::lowered(asset);
            let other = !own && rules.assumed_start_amounts@.dom().contains(small);
            &&& own ==> amount == rules.assumed_start_amounts@[asset]
            &&& other ==> amount == rules.assumed_start_amounts@[small]
            &&& !own && !other ==> amount == rules.default_assumed_start_amount
        }),
    ensures
        ({
            let found = crate::workers::start_amount(rules, asset);
            let counts = !amount.float.nan() && amount.float.key >= 0x0010_0000_0000_0000;
            &&& counts ==> found == (amount.float, amount.decimal@)
            &&& !counts ==> found == (FloatKey { key: 0x0010_0000_0000_0000 }, (0int, 0int, false))
            &&& crate::decimal::place(found.1) > 0 ==> crate::workers::walking_amount(found.1)
                == found.1
            &&& crate::decimal::place(found.1) <= 0 ==> crate::workers::walking_amount(found.1) == (
                1int,
                18int,
                false,
            )
        }),
{
}

/// The legs of a triangle: each has the pair and the asset at its own place, the
/// depth data of its own pair, and the fee on its own pair.
pub proof fn law_legs_are_those_of_the_triangle(
    triangle: TriangleConfig,
    start: DepthStreamWrapper,
    mid: DepthStreamWrapper,
    end: DepthStreamWrapper,
    rules: ExchangeRulesConfig,
    fees: [crate::decimal::Decimal; 3],
)
    ensures
        is_leg(
            crate::workers::legs_of(triangle, start, mid, end, rules).first,
            triangle.pairs@[0]@,
            triangle.parts@[0]@,
            start,
            crate::workers::fee_on(rules, triangle.pairs@[0]@).1,
        ),
        is_leg(
            crate::workers::legs_of(triangle, start, mid, end, rules).second,
            triangle.pairs@[1]@,
            triangle.parts@[1]@,
            mid,
            crate::workers::fee_on(rules, triangle.pairs@[1]@).1,
        ),
        is_leg(
            crate::workers::legs_of(triangle, start, mid, end, rules).third,
            triangle.pairs@[2]@,
            triangle.parts@[2]@,
            end,
            crate::workers::fee_on(rules, triangle.pairs@[2]@).1,
        ),
        is_leg(
            crate::workers::legs_with_fees(triangle, start, mid, end, fees).first,
            triangle.pairs@[0]@,
            triangle.parts@[0]@,
            start,
            fees@[0]@,
        ),
        is_leg(
            crate::workers::legs_with_fees(triangle, start, mid, end, fees).second,
            triangle.pairs@[1]@,
            triangle.parts@[1]@,
            mid,
            fees@[1]@,
        ),
        is_leg(
            crate::workers::legs_with_fees(triangle, start, mid, end, fees).third,
            triangle.pairs@[2]@,
            triangle.parts@[2]@,
            end,
            fees@[2]@,
        ),
{
}

/// Whether a leg has a pair, an asset, the offers of depth data and a fee.
pub open spec fn is_leg(
    leg: LegView,
    pair: Seq<char>,
    part: Seq<char>,
    data: DepthStreamWrapper,
    fee: Number,
) -> bool {
    leg.pair == pair && leg.part == part && leg.asks == data.data.asks@ && leg.bids
        == data.data.bids@ && leg.fee == fee
}

/// Whether a level is there on both sides of all legs.
pub open spec fn is_level(legs: LegsView, level: int) -> bool {
    &&& 0 <= level
    &&& level < legs.first.asks.len() && level < legs.first.bids.len()
    &&& level < legs.second.asks.len() && level < legs.second.bids.len()
    &&& level < legs.third.asks.len() && level < legs.third.bids.len()
}

/// Whether a level has asks above zero on all legs.
pub open spec fn has_asks(legs: LegsView, level: int) -> bool {
    &&& legs.first.asks[level].price.amount() > 0
    &&& legs.second.asks[level].price.amount() > 0
    &&& legs.third.asks[level].price.amount() > 0
}

/// The levels that count are those that all legs have on both sides.
pub proof fn law_levels_are_those_of_all_legs(legs: LegsView, level: int)
    ensures
        0 <= level < crate::workers::common_depth(legs) <==> is_level(legs, level),
{
}

proof fn lemma_profits_hold(legs: LegsView, levels: nat, points: Seq<(int, Number)>)
    requires
        crate::workers::profits_up_to(legs, levels) == Some(points),
    ensures
        forall|i: int|
            0 <= i < points.len() ==> 0 <= (#[trigger] points[i]).0 < levels && has_asks(
                legs,
                points[i].0,
            ) && crate::workers::profit_at(legs, points[i].0) == Some(points[i].1),
        forall|i: int, j: int|
            0 <= i < j < points.len() ==> (#[trigger] points[i]).0 < (#[trigger] points[j]).0,
        forall|level: int|
            0 <= level < levels && #[trigger] has_asks(legs, level) ==> exists|i: int|
                0 <= i < points.len() && (#[trigger] points[i]).0 == level,
    decreases levels,
{
    if levels > 0 {
        let last = levels - 1;
        let before = crate::workers::profits_up_to(legs, last as nat)->0;
        lemma_profits_hold(legs, last as nat, before);
        assert forall|level: int| 0 <= level < levels && #[trigger] has_asks(legs, level) implies exists|
            i: int,
        |
            0 <= i < points.len() && (#[trigger] points[i]).0 == level by {
            if level < last {
                let i = choose|i: int| 0 <= i < before.len() && (#[trigger] before[i]).0 == level;
                assert(points[i] == before[i]);
            } else {
                assert(points[before.len() as int].0 == level);
            }
        }
    }
}

/// The profits of a triangle: one for every level that all legs have on both
/// sides and whose asks are above zero, in the order of the levels, each the
/// profit at its level.
pub proof fn law_every_level_has_its_profit(legs: LegsView, points: Seq<(int, Number)>, level: int)
    requires
        crate::workers::profits_of(legs) == Some(points),
    ensures
        forall|i: int|
            0 <= i < points.len() ==> is_level(legs, (#[trigger] points[i]).0) && has_asks(
                legs,
                points[i].0,
            ) && crate::workers::profit_at(legs, points[i].0) == Some(points[i].1),
        forall|i: int, j: int|
            0 <= i < j < points.len() ==> (#[trigger] points[i]).0 < (#[trigger] points[j]).0,
        is_level(legs, level) && has_asks(legs, level) ==> exists|i: int|
            0 <= i < points.len() && (#[trigger] points[i]).0 == level,
{
    lemma_profits_hold(legs, crate::workers::common_depth(legs), points);
}

proof fn lemma_profits_missing(legs: LegsView, levels: nat)
    ensures
        crate::workers::profits_up_to(legs, levels) is None <==> exists|level: int|
            0 <= level < levels && #[trigger] has_asks(legs, level) && crate::workers::profit_at(
                legs,
                level,
            ) is None,
    decreases levels,
{
    if levels > 0 {
        let last = levels - 1;
        lemma_profits_missing(legs, last as nat);
        if has_asks(legs, last) && crate::workers::profit_at(legs, last) is None {
            assert(crate::workers::profits_up_to(legs, levels) is None);
        }
    }
}

/// There are no profits of a triangle exactly where a number gets too large at
/// some level that counts.
pub proof fn law_profits_are_owed(legs: LegsView)
    ensures
        crate::workers::profits_of(legs) is None <==> exists|level: int|
            is_level(legs, level) && #[trigger] has_asks(legs, level) && crate::workers::profit_at(
                legs,
                level,
            ) is None,
{
    lemma_profits_missing(legs, crate::workers::common_depth(legs));
    if crate::workers::profits_of(legs) is None {
        let level = choose|level: int|
            0 <= level < crate::workers::common_depth(legs) && #[trigger] has_asks(legs, level)
                && crate::workers::profit_at(legs, level) is None;
        assert(is_level(legs, level));
    }
}

/// The number of profits above zero is that of the places with such a profit.
pub proof fn law_profitable_places_are_counted(points: Seq<(int, Number)>)
    ensures
        crate::workers::profitable_among(points) == Set::<int>::new(
            |i: int| 0 <= i < points.len() && crate::decimal::place(points[i].1) > 0,
        ).len(),
        Set::<int>::new(
            |i: int| 0 <= i < points.len() && crate::decimal::place(points[i].1) > 0,
        ).finite(),
    decreases points.len(),
{
    let places = Set::<int>::new(
        |i: int| 0 <= i < points.len() && crate::decimal::place(points[i].1) > 0,
    );
    if points.len() == 0 {
        assert(places =~= Set::empty());
    } else {
        let rest = points.drop_last();
        let n = points.len() - 1;
        let before = Set::<int>::new(
            |i: int| 0 <= i < rest.len() && crate::decimal::place(rest[i].1) > 0,
        );
        law_profitable_places_are_counted(rest);
        if crate::decimal::place(points[n].1) > 0 {
            assert(places =~= before.insert(n));
        } else {
            assert(places =~= before);
        }
    }
}

/// The sum of the profits in units.
pub open spec fn sum_in_units(points: Seq<(int, Number)>) -> int
    decreases points.len(),
{
    if points.len() == 0 {
        0
    } else {
        sum_in_units(points.drop_last()) + crate::decimal::place(points.last().1)
    }
}

/// Whether none of the sums of the first profits had to be rounded.
pub open spec fn sums_without_rounding(points: Seq<(int, Number)>) -> bool
    decreases points.len(),
{
    points.len() > 0 ==> {
        &&& sums_without_rounding(points.drop_last())
        &&& crate::decimal::in_range(points.last().1.0, points.last().1.1)
        &&& crate::workers::sum_of(points.drop_last()) matches Some(sum)
            && crate::decimal::sum_is_exact(sum.0, sum.1, points.last().1.0, points.last().1.1)
    }
}

/// Where nothing is rounded, the sum of the profits is their sum.
pub proof fn law_sum_is_exact(points: Seq<(int, Number)>)
    requires
        sums_without_rounding(points),
    ensures
        crate::workers::sum_of(points) matches Some(sum) && crate::decimal::in_range(sum.0, sum.1)
            && crate::decimal::place(sum) == sum_in_units(points),
    decreases points.len(),
{
    if points.len() > 0 {
        law_sum_is_exact(points.drop_last());
        crate::decimal::law_fitting_sums_are_exact(
            crate::workers::sum_of(points.drop_last())->0,
            points.last().1,
        );
    } else {
        crate::decimal::law_whole_numbers(0);
    }
}

/// A profit in basis points is ten thousand times the profit, where that fits.
pub proof fn law_basis_points(profit: Number)
    requires
        crate::decimal::in_range(profit.0, profit.1),
        crate::decimal::product_is_exact(profit.0, profit.1, 10_000, 0),
    ensures
        crate::workers::in_bps(profit) matches Some(bps) && crate::decimal::place(bps) == 10_000
            * crate::decimal::place(profit),
{
    crate::decimal::law_whole_numbers(10_000);
    crate::decimal::law_fitting_products_are_exact(profit, (10_000, 0, false));
    let u = one_in_units();
    let p = crate::decimal::place(profit);
    let b = crate::decimal::place(crate::workers::in_bps(profit)->0);
    assert(b == 10_000 * p) by (nonlinear_arith)
        requires
            b * u == p * (10_000 * u),
            u > 0,
    ;
}

/// Where nothing is rounded, the figures of profits in basis points are ten
/// thousand times the first profit, the highest one, and the sum of all over
/// their number.
pub proof fn law_figures_in_basis_points(points: Seq<(int, Number)>, average: Number)
    requires
        points.len() > 0,
        sums_without_rounding(points),
        crate::decimal::in_range(points.len() as int, 0),
        crate::decimal::quotient(
            crate::workers::sum_of(points)->0,
            (points.len() as int, 0, false),
        ) == Some(average),
        crate::decimal::is_quotient(
            average,
            crate::workers::sum_of(points)->0,
            (points.len() as int, 0, false),
        ),
        crate::decimal::product_is_exact(average.0, average.1, 10_000, 0),
        forall|i: int|
            0 <= i < points.len() ==> crate::decimal::in_range(
                (#[trigger] points[i]).1.0,
                points[i].1.1,
            ) && crate::decimal::product_is_exact(points[i].1.0, points[i].1.1, 10_000, 0),
    ensures
        crate::workers::bps_of(points) matches Some(bps) && {
            &&& crate::decimal::place(bps.0) == 10_000 * crate::decimal::place(points[0].1)
            &&& forall|i: int|
                0 <= i < points.len() ==> 10_000 * crate::decimal::place((#[trigger] points[i]).1)
                    <= crate::decimal::place(bps.1)
            &&& exists|i: int|
                0 <= i < points.len() && 10_000 * crate::decimal::place((#[trigger] points[i]).1)
                    == crate::decimal::place(bps.1)
            &&& crate::decimal::place(bps.2) * points.len() == 10_000 * sum_in_units(points)
        },
{
    let best = crate::workers::best_of(points);
    crate::workers::law_best_is_highest(points);
    law_basis_points(points[0].1);
    law_basis_points(points[best].1);
    law_basis_points(average);
    law_sum_is_exact(points);
    let n = points.len() as int;
    crate::decimal::law_whole_numbers(n);
    let u = one_in_units();
    let q = crate::decimal::place(average);
    let s = sum_in_units(points);
    assert(q * n == s) by (nonlinear_arith)
        requires
            q * (n * u) == s * u,
            u > 0,
    ;
    let bps = crate::workers::bps_of(points)->0;
    let avg = bps.2;
    assert(crate::decimal::place(avg) * n == 10_000 * s) by (nonlinear_arith)
        requires
            crate::decimal::place(avg) == 10_000 * q,
            q * n == s,
    ;
    assert(10_000 * crate::decimal::place(points[best].1) == crate::decimal::place(bps.1));
}

/// The figures of profits in basis points, step by step: the first and the best
/// profit, and the sum over the number of profits, each times ten thousand.
pub proof fn law_figures_go_by_their_steps(points: Seq<(int, Number)>, sum: Number, average: Number)
    requires
        points.len() > 0,
        crate::workers::sum_of(points) == Some(sum),
        crate::decimal::quotient(sum, (points.len() as int, 0, false)) == Some(average),
    ensures
        crate::workers::bps_of(points) is Some ==> {
            let bps = crate::workers::bps_of(points)->0;
            let best = crate::workers::best_of(points);
            &&& crate::decimal::product(points[0].1, (10_000, 0, false)) == Some(bps.0)
            &&& crate::decimal::product(points[best].1, (10_000, 0, false)) == Some(bps.1)
            &&& crate::decimal::product(average, (10_000, 0, false)) == Some(bps.2)
        },
{
}

/// The gain from one amount to another is their ratio less one, in basis points;
/// where nothing is rounded, ten thousand and the gain is to ten thousand as the
/// one amount is to the other.
pub proof fn law_gain_is_the_ratio_less_one(
    from: Number,
    to: Number,
    ratio: Number,
    gain: Number,
)
    requires
        crate::decimal::in_range(ratio.0, ratio.1),
        crate::decimal::quotient(to, from) == Some(ratio),
        crate::decimal::difference(ratio, (1, 0, false)) == Some(gain),
    ensures
        crate::workers::gain_in_bps(from, to) == crate::decimal::product(gain, (10_000, 0, false)),
        crate::decimal::is_quotient(ratio, to, from) && crate::decimal::sum_is_exact(
            ratio.0,
            ratio.1,
            -1,
            0,
        ) && crate::decimal::product_is_exact(gain.0, gain.1, 10_000, 0)
            ==> (crate::workers::gain_in_bps(from, to) matches Some(bps) && (crate::decimal::place(bps)
            + 10_000 * one_in_units()) * crate::decimal::place(from) == 10_000 * one_in_units()
            * crate::decimal::place(to)),
{
    if crate::decimal::is_quotient(ratio, to, from) && crate::decimal::sum_is_exact(
        ratio.0,
        ratio.1,
        -1,
        0,
    ) && crate::decimal::product_is_exact(gain.0, gain.1, 10_000, 0) {
        crate::decimal::law_whole_numbers(1);
        crate::decimal::law_fitting_differences_are_exact(ratio, (1, 0, false));
        law_basis_points(gain);
        let u = one_in_units();
        let r = crate::decimal::place(ratio);
        let g = crate::decimal::place(gain);
        let f = crate::decimal::place(from);
        let t = crate::decimal::place(to);
        let b = crate::decimal::place(crate::workers::gain_in_bps(from, to)->0);
        assert((b + 10_000 * u) * f == 10_000 * u * t) by (nonlinear_arith)
            requires
                b == 10_000 * g,
                g == r - u,
                r * f == t * u,
        {
            assert(b + 10_000 * u == 10_000 * r);
            assert(10_000 * r * f == 10_000 * (t * u));
        }
    }
}

/// What an execution tells, whatever came of the walk: the start amount and the
/// fees on the pairs of the legs, in their order. Where the rules count, the
/// penalty for latency is the configured one, but not below zero, and a walk that
/// is refused fails with its reason alone and no gain. Where they do not, there is
/// no penalty and no reason.
pub proof fn law_execution_tells_the_walk(legs: LegsView, level: int, rules: ExchangeRulesConfig)
    requires
        crate::workers::execution_at(legs, level, rules) is Some,
    ensures
        ({
            let found = crate::workers::execution_at(legs, level, rules)->0;
            let start = crate::workers::start_amount(rules, legs.first.part);
            let amount = crate::workers::walking_amount(start.1);
            let walk = crate::workers::walked(amount, legs, level, rules.enabled, rules);
            &&& found.start == start.0
            &&& found.fees.0 == crate::workers::fee_on(rules, legs.first.pair).0
            &&& found.fees.1 == crate::workers::fee_on(rules, legs.second.pair).0
            &&& found.fees.2 == crate::workers::fee_on(rules, legs.third.pair).0
            &&& !rules.enabled ==> found.latency.key == 0 && found.passed && found.reasons.len() == 0
            &&& rules.enabled && rules.latency_penalty_bps.nan() ==> found.latency.key == 0
            &&& rules.enabled && !rules.latency_penalty_bps.nan() && rules.latency_penalty_bps.key
                >= -1 ==> found.latency == rules.latency_penalty_bps
            &&& rules.enabled && !rules.latency_penalty_bps.nan() && rules.latency_penalty_bps.key
                < -1 ==> found.latency.key == 0
            &&& walk is Ok ==> found.passed && found.reasons.len() == 0
                && crate::workers::gain_in_bps(amount, walk->Ok_0) == Some(found.executable)
            &&& walk matches Err(crate::workers::TradeErrorView::Rejected(reason)) ==> {
                &&& found.executable == (0int, 0int, false)
                &&& rules.enabled ==> !found.passed && found.reasons == seq![reason]
            }
            &&& !(walk matches Err(crate::workers::TradeErrorView::OutOfRange))
        }),
{
}

/// There is no execution exactly where a number gets too large on the walk or in
/// its gain.
pub proof fn law_execution_is_owed(legs: LegsView, level: int, rules: ExchangeRulesConfig)
    ensures
        ({
            let amount = crate::workers::walking_amount(
                crate::workers::start_amount(rules, legs.first.part).1,
            );
            let walk = crate::workers::walked(amount, legs, level, rules.enabled, rules);
            crate::workers::execution_at(legs, level, rules) is None <==> (walk matches Err(
                crate::workers::TradeErrorView::OutOfRange,
            )) || (walk is Ok && crate::workers::gain_in_bps(amount, walk->Ok_0) is None)
        }),
{
}

/// A triangle is worthy exactly where it passes and neither its adjusted profit
/// nor its hit rate is below its threshold, all of them being numbers.
pub proof fn law_worthy_reaches_both_thresholds(
    passed: bool,
    floats: SignalFloats,
    min_profit_bps: FloatKey,
    min_hit_rate: FloatKey,
)
    ensures
        crate::workers::worthwhile(passed, floats, min_profit_bps, min_hit_rate) <==> {
            &&& passed
            &&& !floats.adjusted_profit_bps.nan() && !min_profit_bps.nan()
            &&& !floats.hit_rate.nan() && !min_hit_rate.nan()
            &&& !floats.adjusted_profit_bps.lt(min_profit_bps)
            &&& !floats.hit_rate.lt(min_hit_rate)
        },
{
}

/// What an evaluation finds: all profits, how many are above zero, the best of
/// them and the figures in basis points, and the execution at the level of the
/// best profit.
pub proof fn law_evaluation_is_at_the_best_level(
    legs: LegsView,
    points: Seq<(int, Number)>,
    rules: ExchangeRulesConfig,
    i: int,
)
    requires
        0 <= i < points.len(),
        crate::workers::evaluation(legs, points, rules) is Some,
    ensures
        ({
            let found = crate::workers::evaluation(legs, points, rules)->0;
            &&& found.points == points
            &&& 0 <= found.best < points.len()
            &&& crate::decimal::place(points[i].1) <= crate::decimal::place(points[found.best].1)
            &&& crate::decimal::place(points[i].1) == crate::decimal::place(points[found.best].1)
                ==> i <= found.best
            &&& found.profitable == crate::workers::profitable_among(points)
            &&& crate::workers::bps_of(points) == Some(
                (found.top_bps, found.best_bps, found.avg_bps),
            )
            &&& crate::workers::execution_at(legs, points[found.best].0, rules) == Some(
                found.execution,
            )
        }),
{
    crate::workers::law_best_is_highest(points);
}

/// What a triangle is evaluated on: the depth data of its own pairs, in their
/// order.
pub proof fn law_triangle_is_evaluated_on_its_pairs(
    pairs_data: Map<Seq<char>, DepthStreamWrapper>,
    triangle: TriangleConfig,
    rules: ExchangeRulesConfig,
    start: DepthStreamWrapper,
    mid: DepthStreamWrapper,
    end: DepthStreamWrapper,
)
    requires
        pairs_data.contains_pair(triangle.pairs@[0]@, start),
        pairs_data.contains_pair(triangle.pairs@[1]@, mid),
        pairs_data.contains_pair(triangle.pairs@[2]@, end),
    ensures
        ({
            let legs = crate::workers::legs_of(triangle, start, mid, end, rules);
            let points = crate::workers::profits_of(legs);
            &&& crate::workers::has_data(pairs_data, triangle)
            &&& crate::workers::data_of(pairs_data, triangle) == (start, mid, end)
            &&& crate::workers::triangle_profits(pairs_data, triangle, rules) == points
            &&& points is None ==> crate::workers::triangle_evaluation(pairs_data, triangle, rules)
                is None
            &&& points is Some ==> crate::workers::triangle_evaluation(pairs_data, triangle, rules)
                == crate::workers::evaluation(legs, points->0, rules)
        }),
{
}

/// A triangle is not evaluated where the depth data of one of its pairs is
/// missing.
pub proof fn law_triangle_needs_all_data(
    pairs_data: Map<Seq<char>, DepthStreamWrapper>,
    triangle: TriangleConfig,
    i: int,
)
    requires
        0 <= i < 3,
        !pairs_data.dom().contains(triangle.pairs@[i]@),
    ensures
        !crate::workers::has_data(pairs_data, triangle),
{
}

/// What a summary of profits says: how many there are and how many are above
/// zero, the level and the profit of the best, and the figures in basis points.
pub proof fn law_summary_tells_the_profits(summary: ProfitSummary, found: Evaluation)
    requires
        crate::workers::sums_up(summary, found),
    ensures
        summary.depth_levels_considered == found.points.len(),
        summary.profitable_levels == found.profitable,
        summary.best_level_index == found.points[found.best].0,
        summary.best_profit@ == found.points[found.best].1,
        summary.top_profit_bps@ == found.top_bps,
        summary.best_profit_bps@ == found.best_bps,
        summary.avg_profit_bps@ == found.avg_bps,
{
}

/// What a signal says of the market: for each pair of the triangle, in their
/// order, the ask and the bid of that pair's depth data at the best level, with
/// their sizes.
pub proof fn law_signal_quotes_the_best_level(
    signal: TriangleOpportunitySignal,
    triangle: TriangleConfig,
    data: (DepthStreamWrapper, DepthStreamWrapper, DepthStreamWrapper),
    summary: ProfitSummary,
    execution: ExecutionView,
    floats: SignalFloats,
    min_profit_bps: FloatKey,
    min_hit_rate: FloatKey,
    timestamp_ms: u64,
    i: int,
)
    requires
        0 <= i < 3,
        crate::workers::reports(
            signal,
            triangle,
            data,
            summary,
            execution,
            floats,
            min_profit_bps,
            min_hit_rate,
            timestamp_ms,
        ),
    ensures
        ({
            let quote = signal.best_level_quotes@[i];
            let book = if i == 0 {
                data.0.data
            } else if i == 1 {
                data.1.data
            } else {
                data.2.data
            };
            let level = summary.best_level_index as int;
            &&& signal.triangle_parts@[i]@ == triangle.parts@[i]@
            &&& signal.triangle_pairs@[i]@ == triangle.pairs@[i]@
            &&& quote.pair@ == triangle.pairs@[i]@
            &&& quote.ask_price == book.asks@[level].price
            &&& quote.ask_size == book.asks@[level].size
            &&& quote.bid_price == book.bids@[level].price
            &&& quote.bid_size == book.bids@[level].size
        }),
{
}

/// What a signal says of a triangle: the figures of its profits and of its
/// execution, the thresholds it was held to, and whether it is worthy by them.
pub proof fn law_signal_tells_what_was_found(
    signal: TriangleOpportunitySignal,
    triangle: TriangleConfig,
    data: (DepthStreamWrapper, DepthStreamWrapper, DepthStreamWrapper),
    summary: ProfitSummary,
    execution: ExecutionView,
    floats: SignalFloats,
    min_profit_bps: FloatKey,
    min_hit_rate: FloatKey,
    timestamp_ms: u64,
)
    requires
        crate::workers::reports(
            signal,
            triangle,
            data,
            summary,
            execution,
            floats,
            min_profit_bps,
            min_hit_rate,
            timestamp_ms,
        ),
    ensures
        signal.timestamp_ms == timestamp_ms,
        signal.exchange@ == "binance"@,
        signal.depth_levels_considered == summary.depth_levels_considered,
        signal.profitable_levels == summary.profitable_levels,
        signal.hit_rate == floats.hit_rate,
        signal.top_profit_bps == summary.top_profit_bps,
        signal.best_profit_bps == summary.best_profit_bps,
        signal.avg_profit_bps == summary.avg_profit_bps,
        signal.best_level_index == summary.best_level_index,
        signal.assumed_start_amount == execution.start,
        signal.executable_profit_bps@ == execution.executable,
        signal.adjusted_profit_bps == floats.adjusted_profit_bps,
        signal.latency_penalty_bps == execution.latency,
        signal.execution_filter_passed == execution.passed,
        signal.min_profit_bps_threshold == min_profit_bps,
        signal.min_hit_rate_threshold == min_hit_rate,
        signal.rejection_reasons@.len() == execution.reasons.len(),
        forall|i: int|
            0 <= i < execution.reasons.len() ==> (#[trigger] signal.rejection_reasons@[i])@
                == execution.reasons[i],
        signal.fee_bps_by_leg@[0] == execution.fees.0,
        signal.fee_bps_by_leg@[1] == execution.fees.1,
        signal.fee_bps_by_leg@[2] == execution.fees.2,
        signal.worthy <==> execution.passed && min_profit_bps.le(floats.adjusted_profit_bps)
            && min_hit_rate.le(floats.hit_rate),
{
    let reasons = crate::text::texts(signal.rejection_reasons@);
    assert(reasons.len() == signal.rejection_reasons@.len());
    assert forall|i: int| 0 <= i < execution.reasons.len() implies (
    #[trigger] signal.rejection_reasons@[i])@ == execution.reasons[i] by {
        assert(reasons[i] == signal.rejection_reasons@[i]@);
    }
}

/// What is sent to clients: the assets of the triangle, its profits in order, and
/// the depth data of its pairs in order.
pub proof fn law_payload_shows_the_triangle(
    payload: TriangleArbitragePayload<'_>,
    triangle: TriangleConfig,
    data: (DepthStreamWrapper, DepthStreamWrapper, DepthStreamWrapper),
    points: Seq<(int, Number)>,
)
    requires
        crate::workers::payload_shows(payload, triangle, data, points),
    ensures
        payload.triangle@[0]@ == triangle.parts@[0]@,
        payload.triangle@[1]@ == triangle.parts@[1]@,
        payload.triangle@[2]@ == triangle.parts@[2]@,
        payload.profits@.len() == points.len(),
        forall|i: int| 0 <= i < points.len() ==> (#[trigger] payload.profits@[i])@ == points[i].1,
        *payload.start_pair_data == data.0,
        *payload.mid_pair_data == data.1,
        *payload.end_pair_data == data.2,
{
}

/// What a worker does on an event. It stops at the end, on a failure and on a
/// close, and answers a ping. Only depth data makes it publish, and that once the
/// interval, of at least a millisecond, has passed; it waits otherwise.
pub proof fn law_worker_actions(event: WorkerEvent, elapsed_nanos: u128, update_interval: u32)
    ensures
        ({
            let action = crate::workers::action_for(event, elapsed_nanos, update_interval);
            let interval: int = if update_interval == 0 {
                1
            } else {
                update_interval as int
            };
            &&& action is Stop <==> event is End || event is Failed || event is Close
            &&& action is AnswerPing <==> event is Ping
            &&& action is Publish <==> event is Depth && elapsed_nanos >= interval * 1_000_000
            &&& action is Wait <==> event is Unreadable || event is Pong || event is Other || (event
                is Depth && elapsed_nanos < interval * 1_000_000)
        }),
{
}

/// Depth data takes the place of earlier data of its own pair, which its stream
/// names in front of the mark, and leaves all other data; no other event changes
/// any.
pub proof fn law_depth_data_is_kept_by_pair(
    pairs_data: Map<Seq<char>, DepthStreamWrapper>,
    event: WorkerEvent,
    other: Seq<char>,
)
    ensures
        event matches WorkerEvent::Depth(data) ==> {
            let pair = crate::text::before(data.stream@, '@');
            let after = crate::workers::data_after(pairs_data, event);
            &&& after.contains_pair(pair, data)
            &&& other != pair ==> after.dom().contains(other) == pairs_data.dom().contains(other)
            &&& other != pair && pairs_data.dom().contains(other) ==> after[other]
                == pairs_data[other]
        },
        !(event is Depth) ==> crate::workers::data_after(pairs_data, event) == pairs_data,
{
}

/// A client is noted as one that takes no more exactly where sending to it found
/// it closed, and once only; the clients noted before stay, in their order.
pub proof fn law_only_closed_clients_are_stale(
    stale: Seq<Seq<char>>,
    client: Seq<char>,
    result: SendResult,
)
    ensures
        ({
            let after = crate::workers::stale_after(stale, client, result);
            &&& stale.is_prefix_of(after)
            &&& after.contains(client) <==> stale.contains(client) || result is Closed
            &&& after.len() == stale.len() + if result is Closed && !stale.contains(client) {
                1int
            } else {
                0int
            }
            &&& stale.no_duplicates() ==> after.no_duplicates()
        }),
{
    let after = crate::workers::stale_after(stale, client, result);
    if result is Closed && !stale.contains(client) {
        assert(after[stale.len() as int] == client);
    }
    if after.contains(client) && !(result is Closed) {
        assert(stale.contains(client));
    }
}

/// A walk stops at the first leg whose trade is not made, with what came of that
/// trade; the legs behind it do not count.
pub proof fn law_walk_stops_at_the_first_refusal(
    amount: Number,
    legs: LegsView,
    level: int,
    enforce: bool,
    rules: ExchangeRulesConfig,
)
    ensures
        ({
            let first = crate::workers::traded_on(amount, legs.first, level, enforce, rules);
            let second = crate::workers::traded_on(
                first->Ok_0,
                legs.second,
                level,
                enforce,
                rules,
            );
            let third = crate::workers::traded_on(second->Ok_0, legs.third, level, enforce, rules);
            let walk = crate::workers::walked(amount, legs, level, enforce, rules);
            &&& first is Err ==> walk == first
            &&& first is Ok && second is Err ==> walk == second
            &&& first is Ok && second is Ok ==> walk == third
        }),
{
}

/// A trade of an amount above zero is out of range exactly where one of the numbers
/// that come up in it, before a reason to refuse it is found, gets too large or is
/// divided by zero.
pub proof fn law_trades_out_of_range(
    amount: Number,
    leg: LegView,
    level: int,
    rules: ExchangeRulesConfig,
)
    requires
        crate::decimal::place(amount) > 0,
    ensures
        ({
            let fee = if crate::decimal::place(leg.fee) < 0 {
                (0int, 0int, false)
            } else {
                leg.fee
            };
            let out = Err::<Number, crate::workers::TradeErrorView>(
                crate::workers::TradeErrorView::OutOfRange,
            );
            let plain = crate::workers::traded_on(amount, leg, level, false, rules);
            let ruled = crate::workers::traded_on(amount, leg, level, true, rules);
            let share = crate::decimal::quotient(fee, (10_000, 0, false));
            let kept = crate::decimal::difference((1, 0, false), share->0);
            let left = crate::decimal::product(amount, kept->0);
            let fee_is_taken = share is Some && kept is Some && left is Some;
            &&& !fee_is_taken ==> plain == out && ruled == out
            &&& fee_is_taken && is_sale(leg) ==> (plain == out <==> crate::decimal::product(
                left->0,
                leg.bids[level].price@,
            ) is None)
            &&& fee_is_taken && !is_sale(leg) ==> (plain == out <==> crate::decimal::quotient(
                left->0,
                leg.asks[level].price@,
            ) is None)
        }),
{
    law_sales_are_told_by_name(leg);
}

/// The figures of profits in basis points are missing exactly where their sum, its
/// quotient or one of the products gets too large, and an evaluation where they are
/// missing or the execution is.
pub proof fn law_figures_are_owed(
    legs: LegsView,
    points: Seq<(int, Number)>,
    rules: ExchangeRulesConfig,
)
    ensures
        ({
            let ten_thousand = (10_000int, 0int, false);
            let best = crate::workers::best_of(points);
            let sum = crate::workers::sum_of(points);
            let average = crate::decimal::quotient(sum->0, (points.len() as int, 0, false));
            &&& crate::workers::bps_of(points) is Some <==> sum is Some && average is Some
                && crate::decimal::product(points[0].1, ten_thousand) is Some
                && crate::decimal::product(points[best].1, ten_thousand) is Some
                && crate::decimal::product(average->0, ten_thousand) is Some
            &&& crate::workers::evaluation(legs, points, rules) is Some <==> crate::workers::bps_of(
                points,
            ) is Some && crate::workers::execution_at(legs, points[best].0, rules) is Some
        }),
{
}

/// The sum of profits grows with each profit: one more is added to the sum of those
/// before it.
pub proof fn law_sum_grows_profit_by_profit(points: Seq<(int, Number)>, point: (int, Number))
    ensures
        crate::workers::sum_of(Seq::empty()) == Some((0int, 0int, false)),
        crate::workers::sum_of(points) matches Some(sum) ==> crate::workers::sum_of(
            points.push(point),
        ) == crate::decimal::total(sum, point.1),
        crate::workers::sum_of(points) is None ==> crate::workers::sum_of(points.push(point))
            is None,
{
    assert(points.push(point).drop_last() =~= points);
}

/// Where nothing is rounded, the profit of a triangle at a level is the product over
/// its three pairs of one less the fee that is configured for the pair, times the
/// bid of the pair's own depth data or one over the ask, minus one.
pub proof fn law_triangle_profit_has_the_fee_of_each_pair(
    triangle: TriangleConfig,
    data: (DepthStreamWrapper, DepthStreamWrapper, DepthStreamWrapper),
    rules: ExchangeRulesConfig,
    level: int,
    steps: (LegSteps, LegSteps, LegSteps),
)
    requires
        ({
            let legs = crate::workers::legs_of(triangle, data.0, data.1, data.2, rules);
            &&& holds_numbers(legs.first, level)
            &&& holds_numbers(legs.second, level)
            &&& holds_numbers(legs.third, level)
            &&& walks_without_rounding(legs, level, steps)
        }),
    ensures
        ({
            let legs = crate::workers::legs_of(triangle, data.0, data.1, data.2, rules);
            let u = one_in_units();
            let fee = |i: int| crate::workers::fee_on(rules, triangle.pairs@[i]@).1;
            let sold = |i: int| triangle.parts@[i]@.is_prefix_of(triangle.pairs@[i]@);
            let book = |i: int|
                if i == 0 {
                    data.0.data
                } else if i == 1 {
                    data.1.data
                } else {
                    data.2.data
                };
            let times = |i: int|
                kept_of_ten_thousand(fee(i)) * if sold(i) {
                    book(i).bids@[level].price.amount()
                } else {
                    u
                };
            let over = |i: int|
                10_000 * u * if sold(i) {
                    u
                } else {
                    book(i).asks@[level].price.amount()
                };
            crate::workers::profit_at(legs, level) matches Some(profit) && (crate::decimal::place(
                profit,
            ) + u) * (over(0) * over(1) * over(2)) == u * (times(0) * times(1) * times(2))
        }),
{
    let legs = crate::workers::legs_of(triangle, data.0, data.1, data.2, rules);
    law_profit_is_the_product(legs, level, steps);
    law_sales_are_told_by_name(legs.first);
    law_sales_are_told_by_name(legs.second);
    law_sales_are_told_by_name(legs.third);
}

} // verus!
