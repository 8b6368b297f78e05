//! Evaluating triangles on depth data.

use vstd::prelude::*;

use crate::config::{AppConfig, ConfigNumber, ExchangeRulesConfig, PairRuleConfig, TriangleConfig};
use crate::decimal::Decimal;
use crate::float_key::FloatKey;
use crate::models::{
    DepthStreamWrapper, OfferData, TriangleLegQuote, TriangleOpportunitySignal,
};
use crate::market_state::pair_key_from_stream;
use crate::text::{concat2, lowercase, same_string, starts_with};
use crate::text_map::TextMap;

verus! {

/// A number as it is written: a mantissa and a scale.
pub type Number = crate::decimal::Number;

/// Which way a pair is traded.
#[derive(Debug, Clone, Copy, PartialEq, Eq, Structural)]
pub enum TradeSide {
    SellBase,
    BuyBase,
}

/// Whether a pair is sold for an asset: its name begins with the asset's.
pub open spec fn sells(pair: Seq<char>, part: Seq<char>) -> bool {
    part.is_prefix_of(pair)
}

/// Which way a pair is traded to give an asset away.
pub fn trade_side(pair_name: &str, triangle_part: &str) -> (r: TradeSide)
    ensures
        r == if sells(pair_name@, triangle_part@) {
            TradeSide::SellBase
        } else {
            TradeSide::BuyBase
        },
{
    if starts_with(pair_name, triangle_part) {
        TradeSide::SellBase
    } else {
        TradeSide::BuyBase
    }
}

/// The entry under a name, or else under the name in small letters.
pub open spec fn entry_for<V>(map: Map<Seq<char>, V>, name: Seq<char>) -> Option<V> {
    if map.dom().contains(name) {
        Some(map[name])
    } else if map.dom().contains(crate::text::lowered(name)) {
        Some(map[crate::text::lowered(name)])
    } else {
        None
    }
}

/// What is demanded of orders on a pair.
pub fn pair_rule_for_pair(rules: &ExchangeRulesConfig, pair_name: &str) -> (r: Option<PairRuleConfig>)
    ensures
        r == entry_for(rules.pair_rules@, pair_name@),
{
    match rules.pair_rules.get(pair_name) {
        Some(rule) => Some(*rule),
        None => match rules.pair_rules.get(lowercase(pair_name).as_str()) {
            Some(rule) => Some(*rule),
            None => None,
        },
    }
}

/// A number, or zero where it is below that.
pub open spec fn at_least_zero(n: Number) -> Number {
    if crate::decimal::place(n) < 0 {
        (0, 0, false)
    } else {
        n
    }
}

/// The larger of a configured number and a bound. Where the bound is the larger
/// one, or there is no number, the decimal number is zero.
pub open spec fn bounded(n: (FloatKey, Number), bound: FloatKey) -> (FloatKey, Number) {
    if n.0.nan() || n.0.lt(bound) {
        (bound, (0, 0, false))
    } else {
        n
    }
}

fn at_least(n: ConfigNumber, bound: FloatKey) -> (r: ConfigNumber)
    ensures
        r@ == bounded(n@, bound),
{
    if n.float.is_nan() || n.float.below(bound) {
        ConfigNumber { float: bound, decimal: Decimal::zero() }
    } else {
        n
    }
}

/// The fee on a pair, in basis points.
pub open spec fn fee_on(rules: ExchangeRulesConfig, pair: Seq<char>) -> (FloatKey, Number) {
    bounded(
        match entry_for(rules.pair_rules@, pair) {
            Some(rule) => match rule.fee_bps {
                Some(fee) => fee@,
                None => rules.default_fee_bps@,
            },
            None => rules.default_fee_bps@,
        },
        FloatKey { key: 0 },
    )
}

/// The fee on a pair, in basis points: that of the pair, or else the default;
/// never below zero.
pub fn fee_bps_for_pair(rules: &ExchangeRulesConfig, pair_name: &str) -> (r: ConfigNumber)
    ensures
        r@ == fee_on(*rules, pair_name@),
{
    let fee: ConfigNumber = match pair_rule_for_pair(rules, pair_name) {
        Some(rule) => match rule.fee_bps {
            Some(fee) => fee,
            None => rules.default_fee_bps,
        },
        None => rules.default_fee_bps,
    };
    at_least(fee, FloatKey::zero())
}

/// A number far below any amount that is traded.
pub fn dec_epsilon() -> (r: Decimal)
    ensures
        r@ == (1int, 18int, false),
{
    Decimal::new(1, 18)
}

/// The amount of an asset that is assumed at the start of a triangle.
pub open spec fn start_amount(rules: ExchangeRulesConfig, asset: Seq<char>) -> (FloatKey, Number) {
    bounded(
        match entry_for(rules.assumed_start_amounts@, asset) {
            Some(amount) => amount@,
            None => rules.default_assumed_start_amount@,
        },
        FloatKey { key: crate::float_key::MIN_POSITIVE },
    )
}

/// The amount of an asset that is assumed at the start of a triangle: that of
/// the asset, or else the default; never below the smallest positive float, which
/// is zero as a decimal number.
pub fn assumed_start_amount_for_asset(rules: &ExchangeRulesConfig, asset: &str) -> (r: ConfigNumber)
    ensures
        r@ == start_amount(*rules, asset@),
{
    let amount: ConfigNumber = match rules.assumed_start_amounts.get(asset) {
        Some(amount) => *amount,
        None => match rules.assumed_start_amounts.get(lowercase(asset).as_str()) {
            Some(amount) => *amount,
            None => rules.default_assumed_start_amount,
        },
    };
    at_least(amount, FloatKey::min_positive())
}

/// The amount that a triangle is walked with: a tiny one where the assumed
/// amount is not above zero as a decimal number.
pub open spec fn walking_amount(amount: Number) -> Number {
    if crate::decimal::place(amount) > 0 {
        amount
    } else {
        (1, 18, false)
    }
}

fn amount_to_walk(amount: Decimal) -> (r: Decimal)
    ensures
        r@ == walking_amount(amount@),
{
    if amount.is_positive() {
        amount
    } else {
        dec_epsilon()
    }
}

/// A profit in basis points.
pub open spec fn in_bps(profit: Number) -> Option<Number> {
    crate::decimal::product(profit, (10_000, 0, false))
}

/// A profit in basis points; `None` where that is too large.
pub fn profit_to_bps(profit: Decimal) -> (r: Option<Decimal>)
    ensures
        crate::decimal::number(r) == in_bps(profit@),
{
    profit.checked_mul(Decimal::from_i64(10_000))
}

/// What a fee leaves of one.
pub open spec fn kept_share(fee: Number) -> Option<Number> {
    match crate::decimal::quotient(at_least_zero(fee), (10_000, 0, false)) {
        Some(share) => crate::decimal::difference((1, 0, false), share),
        None => None,
    }
}

/// What a fee leaves of an amount.
pub open spec fn after_fee(amount: Number, fee: Number) -> Option<Number> {
    match kept_share(fee) {
        Some(share) => crate::decimal::product(amount, share),
        None => None,
    }
}

fn amount_after_fee(amount: Decimal, fee_bps: Decimal) -> (r: Option<Decimal>)
    ensures
        crate::decimal::number(r) == after_fee(amount@, fee_bps@),
{
    let share: Decimal = match fee_bps.max(Decimal::zero()).checked_div(Decimal::from_i64(10_000)) {
        Some(share) => share,
        None => {
            return None;
        },
    };
    match Decimal::one().checked_sub(share) {
        Some(kept) => amount.checked_mul(kept),
        None => None,
    }
}

/// What an amount becomes in a trade, after the fee: at the bid where the pair
/// is sold, and at the ask where it is bought.
pub open spec fn after_step(
    amount: Number,
    ask: Number,
    bid: Number,
    pair: Seq<char>,
    part: Seq<char>,
    fee: Number,
) -> Option<Number> {
    match after_fee(amount, fee) {
        Some(left) => if sells(pair, part) {
            crate::decimal::product(left, bid)
        } else {
            crate::decimal::quotient(left, ask)
        },
        None => None,
    }
}

/// What an amount becomes in a trade; `None` where a number gets too large or
/// the ask is zero.
pub fn calc_triangle_step(
    trade_amount: Decimal,
    ask_price: Decimal,
    bid_price: Decimal,
    pair_name: &str,
    triangle_part: &str,
    fee_bps: Decimal,
) -> (r: Option<Decimal>)
    ensures
        crate::decimal::number(r) == after_step(
            trade_amount@,
            ask_price@,
            bid_price@,
            pair_name@,
            triangle_part@,
            fee_bps@,
        ),
{
    let left: Decimal = match amount_after_fee(trade_amount, fee_bps) {
        Some(left) => left,
        None => {
            return None;
        },
    };
    if starts_with(pair_name, triangle_part) {
        left.checked_mul(bid_price)
    } else {
        left.checked_div(ask_price)
    }
}

/// A leg of a triangle: a pair, the asset that is given away, the offers and
/// the fee.
pub struct LegView {
    pub pair: Seq<char>,
    pub part: Seq<char>,
    pub asks: Seq<OfferData>,
    pub bids: Seq<OfferData>,
    pub fee: Number,
}

/// The leg that depth data gives for a pair.
pub open spec fn leg_of(
    data: DepthStreamWrapper,
    pair: Seq<char>,
    part: Seq<char>,
    rules: ExchangeRulesConfig,
) -> LegView {
    LegView {
        pair,
        part,
        asks: data.data.asks@,
        bids: data.data.bids@,
        fee: fee_on(rules, pair).1,
    }
}

/// The three legs of a triangle.
pub struct LegsView {
    pub first: LegView,
    pub second: LegView,
    pub third: LegView,
}

pub open spec fn smaller(a: nat, b: nat) -> nat {
    if a <= b {
        a
    } else {
        b
    }
}

/// How many levels a leg has on both sides.
pub open spec fn leg_depth(leg: LegView) -> nat {
    smaller(leg.asks.len(), leg.bids.len())
}

/// How many levels all legs have on both sides.
pub open spec fn common_depth(legs: LegsView) -> nat {
    smaller(smaller(leg_depth(legs.first), leg_depth(legs.second)), leg_depth(legs.third))
}

/// What an amount becomes on a leg at a level.
pub open spec fn after_leg(amount: Number, leg: LegView, level: int) -> Option<Number> {
    after_step(amount, leg.asks[level].price@, leg.bids[level].price@, leg.pair, leg.part, leg.fee)
}

/// The profit on one, walked over all legs at a level.
pub open spec fn profit_at(legs: LegsView, level: int) -> Option<Number> {
    match after_leg((1, 0, false), legs.first, level) {
        None => None,
        Some(first) => match after_leg(first, legs.second, level) {
            None => None,
            Some(second) => match after_leg(second, legs.third, level) {
                None => None,
                Some(third) => crate::decimal::difference(third, (1, 0, false)),
            },
        },
    }
}

/// Whether a level has asks above zero on all legs.
pub open spec fn tradable(legs: LegsView, level: int) -> bool {
    &&& legs.first.asks[level].price.amount() > 0
    &&& legs.second.asks[level].price.amount() > 0
    &&& legs.third.asks[level].price.amount() > 0
}

/// The profits of the tradable ones of the first levels, with their levels;
/// `None` where a number gets too large.
pub open spec fn profits_up_to(legs: LegsView, levels: nat) -> Option<Seq<(int, Number)>>
    decreases levels,
{
    if levels == 0 {
        Some(Seq::empty())
    } else {
        let level = levels - 1;
        match profits_up_to(legs, level as nat) {
            None => None,
            Some(before) => if !tradable(legs, level) {
                Some(before)
            } else {
                match profit_at(legs, level) {
                    None => None,
                    Some(profit) => Some(before.push((level, profit))),
                }
            },
        }
    }
}

/// The profits of a triangle, with their levels.
pub open spec fn profits_of(legs: LegsView) -> Option<Seq<(int, Number)>> {
    profits_up_to(legs, common_depth(legs))
}

/// The profit on one at a depth level.
#[derive(Debug, Clone, Copy)]
pub struct ProfitPoint {
    pub level_index: usize,
    pub profit: Decimal,
}

/// What a list of profits says.
pub open spec fn points_of(points: Seq<ProfitPoint>) -> Seq<(int, Number)> {
    points.map_values(|p: ProfitPoint| (p.level_index as int, p.profit@))
}

proof fn lemma_too_large_stays(legs: LegsView, levels: nat, more: nat)
    requires
        levels <= more,
        profits_up_to(legs, levels) is None,
    ensures
        profits_up_to(legs, more) is None,
    decreases more,
{
    if levels < more {
        lemma_too_large_stays(legs, levels, (more - 1) as nat);
    }
}

fn shorter(a: usize, b: usize) -> (r: usize)
    ensures
        r == smaller(a as nat, b as nat),
{
    if a <= b {
        a
    } else {
        b
    }
}

/// The profit on one, walked over all legs at a level.
fn level_profit(
    start_pair_data: &DepthStreamWrapper,
    mid_pair_data: &DepthStreamWrapper,
    end_pair_data: &DepthStreamWrapper,
    pairs: [&str; 3],
    triangle: [&str; 3],
    fees: [Decimal; 3],
    level: usize,
) -> (r: Option<Decimal>)
    requires
        level < start_pair_data.data.asks@.len(),
        level < start_pair_data.data.bids@.len(),
        level < mid_pair_data.data.asks@.len(),
        level < mid_pair_data.data.bids@.len(),
        level < end_pair_data.data.asks@.len(),
        level < end_pair_data.data.bids@.len(),
    ensures
        crate::decimal::number(r) == profit_at(
            LegsView {
                first: LegView {
                    pair: pairs@[0]@,
                    part: triangle@[0]@,
                    asks: start_pair_data.data.asks@,
                    bids: start_pair_data.data.bids@,
                    fee: fees@[0]@,
                },
                second: LegView {
                    pair: pairs@[1]@,
                    part: triangle@[1]@,
                    asks: mid_pair_data.data.asks@,
                    bids: mid_pair_data.data.bids@,
                    fee: fees@[1]@,
                },
                third: LegView {
                    pair: pairs@[2]@,
                    part: triangle@[2]@,
                    asks: end_pair_data.data.asks@,
                    bids: end_pair_data.data.bids@,
                    fee: fees@[2]@,
                },
            },
            level as int,
        ),
{
    let first: Decimal = match calc_triangle_step(
        Decimal::one(),
        start_pair_data.data.asks[level].price,
        start_pair_data.data.bids[level].price,
        pairs[0],
        triangle[0],
        fees[0],
    ) {
        Some(amount) => amount,
        None => {
            return None;
        },
    };
    let second: Decimal = match calc_triangle_step(
        first,
        mid_pair_data.data.asks[level].price,
        mid_pair_data.data.bids[level].price,
        pairs[1],
        triangle[1],
        fees[1],
    ) {
        Some(amount) => amount,
        None => {
            return None;
        },
    };
    match calc_triangle_step(
        second,
        end_pair_data.data.asks[level].price,
        end_pair_data.data.bids[level].price,
        pairs[2],
        triangle[2],
        fees[2],
    ) {
        Some(amount) => amount.checked_sub(Decimal::one()),
        None => None,
    }
}

/// The profits of a triangle at the levels that all legs have and whose asks
/// are above zero; `None` where a number gets too large.
pub fn calculate_triangle_profits(
    start_pair_data: &DepthStreamWrapper,
    mid_pair_data: &DepthStreamWrapper,
    end_pair_data: &DepthStreamWrapper,
    start_pair: &str,
    mid_pair: &str,
    end_pair: &str,
    triangle: [&str; 3],
    exchange_rules: &ExchangeRulesConfig,
) -> (r: Option<Vec<ProfitPoint>>)
    ensures
        ({
            let legs = LegsView {
                first: leg_of(*start_pair_data, start_pair@, triangle@[0]@, *exchange_rules),
                second: leg_of(*mid_pair_data, mid_pair@, triangle@[1]@, *exchange_rules),
                third: leg_of(*end_pair_data, end_pair@, triangle@[2]@, *exchange_rules),
            };
            match r {
                Some(points) => profits_of(legs) == Some(points_of(points@)),
                None => profits_of(legs) is None,
            }
        }),
{
    let ghost legs = LegsView {
        first: leg_of(*start_pair_data, start_pair@, triangle@[0]@, *exchange_rules),
        second: leg_of(*mid_pair_data, mid_pair@, triangle@[1]@, *exchange_rules),
        third: leg_of(*end_pair_data, end_pair@, triangle@[2]@, *exchange_rules),
    };
    let depth: usize = shorter(
        shorter(
            shorter(start_pair_data.data.asks.len(), start_pair_data.data.bids.len()),
            shorter(mid_pair_data.data.asks.len(), mid_pair_data.data.bids.len()),
        ),
        shorter(end_pair_data.data.asks.len(), end_pair_data.data.bids.len()),
    );
    let fees: [Decimal; 3] = [
        fee_bps_for_pair(exchange_rules, start_pair).decimal,
        fee_bps_for_pair(exchange_rules, mid_pair).decimal,
        fee_bps_for_pair(exchange_rules, end_pair).decimal,
    ];
    let pairs: [&str; 3] = [start_pair, mid_pair, end_pair];
    let mut profits: Vec<ProfitPoint> = Vec::new();
    proof {
        assert(points_of(profits@) =~= Seq::<(int, Number)>::empty());
    }
    let mut i: usize = 0;
    while i < depth
        invariant
            i <= depth,
            depth == common_depth(legs),
            legs == (LegsView {
                first: leg_of(*start_pair_data, start_pair@, triangle@[0]@, *exchange_rules),
                second: leg_of(*mid_pair_data, mid_pair@, triangle@[1]@, *exchange_rules),
                third: leg_of(*end_pair_data, end_pair@, triangle@[2]@, *exchange_rules),
            }),
            fees@[0]@ == legs.first.fee,
            fees@[1]@ == legs.second.fee,
            fees@[2]@ == legs.third.fee,
            pairs@[0]@ == start_pair@,
            pairs@[1]@ == mid_pair@,
            pairs@[2]@ == end_pair@,
            profits_up_to(legs, i as nat) == Some(points_of(profits@)),
        decreases depth - i,
    {
        let ghost before = points_of(profits@);
        if start_pair_data.data.asks[i].price.is_positive()
            && mid_pair_data.data.asks[i].price.is_positive()
            && end_pair_data.data.asks[i].price.is_positive() {
            match level_profit(
                start_pair_data,
                mid_pair_data,
                end_pair_data,
                pairs,
                triangle,
                fees,
                i,
            ) {
                Some(profit) => {
                    profits.push(ProfitPoint { level_index: i, profit });
                    proof {
                        assert(points_of(profits@) =~= before.push((i as int, profit@)));
                    }
                },
                None => {
                    proof {
                        assert(profits_up_to(legs, (i + 1) as nat) is None);
                        lemma_too_large_stays(legs, (i + 1) as nat, depth as nat);
                    }
                    return None;
                },
            }
        }
        i = i + 1;
    }
    Some(profits)
}

/// Why a trade could not be simulated.
#[derive(Debug)]
pub enum TradeError {
    /// The trade is refused, for a reason.
    Rejected(String),
    /// A number gets too large, or an ask is zero.
    OutOfRange,
}

/// Why a trade could not be simulated.
pub enum TradeErrorView {
    Rejected(Seq<char>),
    OutOfRange,
}

impl View for TradeError {
    type V = TradeErrorView;

    open spec fn view(&self) -> TradeErrorView {
        match self {
            TradeError::Rejected(reason) => TradeErrorView::Rejected(reason@),
            TradeError::OutOfRange => TradeErrorView::OutOfRange,
        }
    }
}

/// What came of a trade.
pub type TradeOutcome = Result<Number, TradeErrorView>;

/// What came of a trade.
pub open spec fn outcome_of(r: Result<Decimal, TradeError>) -> TradeOutcome {
    match r {
        Ok(amount) => Ok(amount@),
        Err(error) => Err(error@),
    }
}

/// A number that may have got too large, as an outcome.
pub open spec fn in_range_or_error(n: Option<Number>) -> TradeOutcome {
    match n {
        Some(n) => Ok(n),
        None => Err(TradeErrorView::OutOfRange),
    }
}

/// A value in whole steps: as many as its quotient by the step has, as it is
/// computed. A step that is not above zero changes nothing.
pub open spec fn floored(value: Number, step: Number) -> Option<Number> {
    if crate::decimal::place(step) <= 0 {
        Some(value)
    } else {
        match crate::decimal::quotient(value, step) {
            Some(steps) => crate::decimal::product(
                crate::decimal::whole_part(steps),
                step,
            ),
            None => None,
        }
    }
}

/// Whether a number is a value in whole steps: a whole number of steps where that
/// is a decimal number, not above the value and less than one step below it.
/// Where the number of steps that the value holds is no decimal number, it may be
/// off by half a unit of its last digit.
pub open spec fn in_steps(value: Number, step: Number, r: Number) -> bool {
    crate::decimal::quotient(value, step) matches Some(q) && {
        let steps = crate::decimal::whole_part(q).0;
        let low = steps * crate::decimal::place(step);
        let high = (steps + 1) * crate::decimal::place(step);
        let digits = crate::decimal::pow10(q.1 as nat);
        &&& crate::decimal::product_is_exact(steps, 0, step.0, step.1) ==> crate::decimal::place(r)
            == low
        &&& crate::decimal::quotient_fits(value, step) ==> low <= crate::decimal::place(value)
            < high
        &&& 2 * digits * (low - crate::decimal::place(value)) <= crate::decimal::place(step)
        &&& 2 * digits * (crate::decimal::place(value) - high) < crate::decimal::place(step)
    }
}

/// Rounding to a step that is above zero gives a value in whole steps.
pub proof fn law_rounded_to_steps(value: Number, step: Number, r: Number)
    requires
        crate::decimal::in_range(value.0, value.1),
        crate::decimal::in_range(step.0, step.1),
        crate::decimal::place(step) > 0,
        floored(value, step) == Some(r),
    ensures
        in_steps(value, step, r),
{
    let q = crate::decimal::quotient(value, step)->0;
    crate::decimal::law_whole_part_of_quotient(value, step, q);
    let steps = crate::decimal::whole_part(q).0;
    let unit = crate::decimal::pow10((crate::decimal::MAX_SCALE - step.1) as nat);
    if crate::decimal::product_is_exact(steps, 0, step.0, step.1) {
        assert((steps * step.0) * unit == steps * (step.0 * unit)) by (nonlinear_arith);
        if steps == 0 {
            assert(0 * crate::decimal::place(step) == 0);
            assert(0 * crate::decimal::pow10(crate::decimal::MAX_SCALE as nat) == 0);
        }
    }
}

/// Rounds a value down to a multiple of a step, where the step is above zero.
pub fn floor_to_step(value: Decimal, step: Decimal) -> (r: Option<Decimal>)
    ensures
        crate::decimal::number(r) == floored(value@, step@),
{
    if !step.is_positive() {
        return Some(value);
    }
    match value.checked_div(step) {
        Some(steps) => steps.floor().checked_mul(step),
        None => None,
    }
}

/// A quantity rounded as the exchange demands.
pub open spec fn rounded_qty(qty: Number, rule: Option<PairRuleConfig>) -> Option<Number> {
    match rule {
        Some(rule) => match rule.qty_step {
            Some(step) => floored(qty, step@),
            None => Some(qty),
        },
        None => Some(qty),
    }
}

/// Rounds a quantity as the exchange demands.
pub fn apply_qty_rounding(quantity: Decimal, pair_rule: Option<PairRuleConfig>) -> (r: Option<Decimal>)
    ensures
        crate::decimal::number(r) == rounded_qty(quantity@, pair_rule),
{
    match pair_rule {
        Some(rule) => match rule.qty_step {
            Some(step) => floor_to_step(quantity, step),
            None => Some(quantity),
        },
        None => Some(quantity),
    }
}

/// A number that is below a bound, in brackets behind what is said of a pair.
pub open spec fn below_bound(what: Seq<char>, pair: Seq<char>, n: Number, bound: Number) -> Seq<char> {
    what + pair + " ("@ + crate::decimal::text_of_number(n) + " < "@
        + crate::decimal::text_of_number(bound) + ")"@
}

fn below_bound_message(what: &str, pair_name: &str, n: Decimal, bound: Decimal) -> (r: String)
    ensures
        r@ == below_bound(what@, pair_name@, n@, bound@),
{
    let mut out: String = concat2(what, pair_name);
    out.append(" (");
    out.append(n.to_text().as_str());
    out.append(" < ");
    out.append(bound.to_text().as_str());
    out.append(")");
    out
}

/// Why a quantity is refused.
pub open spec fn qty_refusal(pair: Seq<char>, qty: Number, rule: Option<PairRuleConfig>) -> Option<
    Seq<char>,
> {
    if crate::decimal::place(qty) <= 0 {
        Some("non-positive rounded quantity on "@ + pair)
    } else {
        match rule {
            Some(rule) => match rule.min_qty {
                Some(min_qty) => if crate::decimal::place(qty) < min_qty.amount() {
                    Some(below_bound("quantity below min_qty on "@, pair, qty, min_qty@))
                } else {
                    None
                },
                None => None,
            },
            None => None,
        }
    }
}

/// Refuses a quantity that is not above zero or below the smallest.
pub fn validate_base_qty_rules(
    pair_name: &str,
    base_qty: Decimal,
    pair_rule: Option<PairRuleConfig>,
) -> (r: Result<(), String>)
    ensures
        match r {
            Ok(_) => qty_refusal(pair_name@, base_qty@, pair_rule) is None,
            Err(reason) => qty_refusal(pair_name@, base_qty@, pair_rule) == Some(reason@),
        },
{
    if !base_qty.is_positive() {
        return Err(concat2("non-positive rounded quantity on ", pair_name));
    }
    if let Some(rule) = pair_rule {
        if let Some(min_qty) = rule.min_qty {
            if base_qty.below(min_qty) {
                return Err(
                    below_bound_message("quantity below min_qty on ", pair_name, base_qty, min_qty),
                );
            }
        }
    }
    Ok(())
}

/// Why a notional is refused.
pub open spec fn notional_refusal(
    pair: Seq<char>,
    notional: Number,
    rule: Option<PairRuleConfig>,
) -> Option<Seq<char>> {
    match rule {
        Some(rule) => match rule.min_notional {
            Some(min_notional) => if crate::decimal::place(notional) < min_notional.amount() {
                Some(
                    below_bound("notional below min_notional on "@, pair, notional, min_notional@),
                )
            } else {
                None
            },
            None => None,
        },
        None => None,
    }
}

/// Refuses a notional below the smallest.
pub fn validate_min_notional(
    pair_name: &str,
    notional: Decimal,
    pair_rule: Option<PairRuleConfig>,
) -> (r: Result<(), String>)
    ensures
        match r {
            Ok(_) => notional_refusal(pair_name@, notional@, pair_rule) is None,
            Err(reason) => notional_refusal(pair_name@, notional@, pair_rule) == Some(reason@),
        },
{
    if let Some(rule) = pair_rule {
        if let Some(min_notional) = rule.min_notional {
            if notional.below(min_notional) {
                return Err(
                    below_bound_message(
                        "notional below min_notional on ",
                        pair_name,
                        notional,
                        min_notional,
                    ),
                );
            }
        }
    }
    Ok(())
}

/// What selling an amount of the base gives.
pub open spec fn sold(
    amount: Number,
    pair: Seq<char>,
    bid: OfferData,
    enforce: bool,
    rule: Option<PairRuleConfig>,
) -> TradeOutcome {
    if !enforce {
        in_range_or_error(crate::decimal::product(amount, bid.price@))
    } else {
        match rounded_qty(amount, rule) {
            None => Err(TradeErrorView::OutOfRange),
            Some(qty) => match qty_refusal(pair, qty, rule) {
                Some(reason) => Err(TradeErrorView::Rejected(reason)),
                None => if crate::decimal::place(qty) > bid.size.amount() {
                    Err(TradeErrorView::Rejected("insufficient bid depth on "@ + pair))
                } else {
                    match crate::decimal::product(qty, bid.price@) {
                        None => Err(TradeErrorView::OutOfRange),
                        Some(notional) => match notional_refusal(pair, notional, rule) {
                            Some(reason) => Err(TradeErrorView::Rejected(reason)),
                            None => Ok(notional),
                        },
                    }
                },
            },
        }
    }
}

/// What is bought for an amount of the quote, where the exchange's demands
/// count.
pub open spec fn bought_by_the_rules(
    qty: Number,
    pair: Seq<char>,
    ask: OfferData,
    rule: Option<PairRuleConfig>,
) -> TradeOutcome {
    match rounded_qty(qty, rule) {
        None => Err(TradeErrorView::OutOfRange),
        Some(rounded) => match qty_refusal(pair, rounded, rule) {
            Some(reason) => Err(TradeErrorView::Rejected(reason)),
            None => if crate::decimal::place(rounded) > ask.size.amount() {
                Err(TradeErrorView::Rejected("insufficient ask depth on "@ + pair))
            } else {
                match crate::decimal::product(rounded, ask.price@) {
                    None => Err(TradeErrorView::OutOfRange),
                    Some(notional) => match notional_refusal(pair, notional, rule) {
                        Some(reason) => Err(TradeErrorView::Rejected(reason)),
                        None => Ok(rounded),
                    },
                }
            },
        },
    }
}

/// What an amount of the quote buys.
pub open spec fn bought(
    amount: Number,
    pair: Seq<char>,
    ask: OfferData,
    enforce: bool,
    rule: Option<PairRuleConfig>,
) -> TradeOutcome {
    if enforce && notional_refusal(pair, amount, rule) is Some {
        Err(TradeErrorView::Rejected(notional_refusal(pair, amount, rule)->0))
    } else {
        match crate::decimal::quotient(amount, ask.price@) {
            None => Err(TradeErrorView::OutOfRange),
            Some(qty) => if crate::decimal::place(qty) <= 0 {
                Err(TradeErrorView::Rejected("invalid ask price on "@ + pair))
            } else if !enforce {
                Ok(qty)
            } else {
                bought_by_the_rules(qty, pair, ask, rule)
            },
        }
    }
}

/// What an amount becomes on a leg at one ask and one bid.
pub open spec fn traded(
    amount: Number,
    pair: Seq<char>,
    part: Seq<char>,
    ask: OfferData,
    bid: OfferData,
    fee: Number,
    enforce: bool,
    rules: ExchangeRulesConfig,
) -> TradeOutcome {
    if crate::decimal::place(amount) <= 0 {
        Err(TradeErrorView::Rejected("invalid input amount for "@ + pair))
    } else {
        match after_fee(amount, fee) {
            None => Err(TradeErrorView::OutOfRange),
            Some(left) => if sells(pair, part) {
                sold(left, pair, bid, enforce, entry_for(rules.pair_rules@, pair))
            } else {
                bought(left, pair, ask, enforce, entry_for(rules.pair_rules@, pair))
            },
        }
    }
}

fn sell_base(
    amount: Decimal,
    pair_name: &str,
    bid: &OfferData,
    enforce_rules: bool,
    pair_rule: Option<PairRuleConfig>,
) -> (r: Result<Decimal, TradeError>)
    ensures
        outcome_of(r) == sold(amount@, pair_name@, *bid, enforce_rules, pair_rule),
{
    if !enforce_rules {
        return match amount.checked_mul(bid.price) {
            Some(notional) => Ok(notional),
            None => Err(TradeError::OutOfRange),
        };
    }
    let base_qty: Decimal = match apply_qty_rounding(amount, pair_rule) {
        Some(qty) => qty,
        None => {
            return Err(TradeError::OutOfRange);
        },
    };
    if let Err(reason) = validate_base_qty_rules(pair_name, base_qty, pair_rule) {
        return Err(TradeError::Rejected(reason));
    }
    if bid.size.below(base_qty) {
        return Err(TradeError::Rejected(concat2("insufficient bid depth on ", pair_name)));
    }
    let notional: Decimal = match base_qty.checked_mul(bid.price) {
        Some(notional) => notional,
        None => {
            return Err(TradeError::OutOfRange);
        },
    };
    if let Err(reason) = validate_min_notional(pair_name, notional, pair_rule) {
        return Err(TradeError::Rejected(reason));
    }
    Ok(notional)
}

fn buy_base(
    amount: Decimal,
    pair_name: &str,
    ask: &OfferData,
    enforce_rules: bool,
    pair_rule: Option<PairRuleConfig>,
) -> (r: Result<Decimal, TradeError>)
    ensures
        outcome_of(r) == bought(amount@, pair_name@, *ask, enforce_rules, pair_rule),
{
    if enforce_rules {
        if let Err(reason) = validate_min_notional(pair_name, amount, pair_rule) {
            return Err(TradeError::Rejected(reason));
        }
    }
    let wanted: Decimal = match amount.checked_div(ask.price) {
        Some(qty) => qty,
        None => {
            return Err(TradeError::OutOfRange);
        },
    };
    if !wanted.is_positive() {
        return Err(TradeError::Rejected(concat2("invalid ask price on ", pair_name)));
    }
    if !enforce_rules {
        return Ok(wanted);
    }
    let base_qty: Decimal = match apply_qty_rounding(wanted, pair_rule) {
        Some(qty) => qty,
        None => {
            return Err(TradeError::OutOfRange);
        },
    };
    if let Err(reason) = validate_base_qty_rules(pair_name, base_qty, pair_rule) {
        return Err(TradeError::Rejected(reason));
    }
    if ask.size.below(base_qty) {
        return Err(TradeError::Rejected(concat2("insufficient ask depth on ", pair_name)));
    }
    let notional: Decimal = match base_qty.checked_mul(ask.price) {
        Some(notional) => notional,
        None => {
            return Err(TradeError::OutOfRange);
        },
    };
    if let Err(reason) = validate_min_notional(pair_name, notional, pair_rule) {
        return Err(TradeError::Rejected(reason));
    }
    Ok(base_qty)
}

/// What an amount becomes on a leg at one ask and one bid.
pub fn simulate_leg(
    trade_amount: Decimal,
    pair_name: &str,
    triangle_part: &str,
    ask: &OfferData,
    bid: &OfferData,
    fee_bps: Decimal,
    enforce_rules: bool,
    rules: &ExchangeRulesConfig,
) -> (r: Result<Decimal, TradeError>)
    ensures
        outcome_of(r) == traded(
            trade_amount@,
            pair_name@,
            triangle_part@,
            *ask,
            *bid,
            fee_bps@,
            enforce_rules,
            *rules,
        ),
{
    if !trade_amount.is_positive() {
        return Err(TradeError::Rejected(concat2("invalid input amount for ", pair_name)));
    }
    let pair_rule: Option<PairRuleConfig> = pair_rule_for_pair(rules, pair_name);
    let left: Decimal = match amount_after_fee(trade_amount, fee_bps) {
        Some(left) => left,
        None => {
            return Err(TradeError::OutOfRange);
        },
    };
    match trade_side(pair_name, triangle_part) {
        TradeSide::SellBase => sell_base(left, pair_name, bid, enforce_rules, pair_rule),
        TradeSide::BuyBase => buy_base(left, pair_name, ask, enforce_rules, pair_rule),
    }
}

/// What an amount becomes on a leg at a level.
pub open spec fn traded_on(
    amount: Number,
    leg: LegView,
    level: int,
    enforce: bool,
    rules: ExchangeRulesConfig,
) -> TradeOutcome {
    traded(
        amount,
        leg.pair,
        leg.part,
        leg.asks[level],
        leg.bids[level],
        leg.fee,
        enforce,
        rules,
    )
}

/// What an amount becomes on all legs at a level.
pub open spec fn walked(
    amount: Number,
    legs: LegsView,
    level: int,
    enforce: bool,
    rules: ExchangeRulesConfig,
) -> TradeOutcome {
    match traded_on(amount, legs.first, level, enforce, rules) {
        Err(error) => Err(error),
        Ok(first) => match traded_on(first, legs.second, level, enforce, rules) {
            Err(error) => Err(error),
            Ok(second) => traded_on(second, legs.third, level, enforce, rules),
        },
    }
}

/// The legs of a triangle with fees.
pub open spec fn legs_with_fees(
    triangle: TriangleConfig,
    start: DepthStreamWrapper,
    mid: DepthStreamWrapper,
    end: DepthStreamWrapper,
    fees: [Decimal; 3],
) -> LegsView {
    LegsView {
        first: LegView {
            pair: triangle.pairs@[0]@,
            part: triangle.parts@[0]@,
            asks: start.data.asks@,
            bids: start.data.bids@,
            fee: fees@[0]@,
        },
        second: LegView {
            pair: triangle.pairs@[1]@,
            part: triangle.parts@[1]@,
            asks: mid.data.asks@,
            bids: mid.data.bids@,
            fee: fees@[1]@,
        },
        third: LegView {
            pair: triangle.pairs@[2]@,
            part: triangle.parts@[2]@,
            asks: end.data.asks@,
            bids: end.data.bids@,
            fee: fees@[2]@,
        },
    }
}

/// What an amount becomes on all legs of a triangle at a level.
pub fn simulate_triangle_path_amount(
    triangle_config: &TriangleConfig,
    start_pair_data: &DepthStreamWrapper,
    mid_pair_data: &DepthStreamWrapper,
    end_pair_data: &DepthStreamWrapper,
    level_index: usize,
    initial_amount: Decimal,
    fee_bps_by_leg: &[Decimal; 3],
    enforce_rules: bool,
    rules: &ExchangeRulesConfig,
) -> (r: Result<Decimal, TradeError>)
    requires
        level_index < common_depth(
            legs_with_fees(
                *triangle_config,
                *start_pair_data,
                *mid_pair_data,
                *end_pair_data,
                *fee_bps_by_leg,
            ),
        ),
    ensures
        outcome_of(r) == walked(
            initial_amount@,
            legs_with_fees(
                *triangle_config,
                *start_pair_data,
                *mid_pair_data,
                *end_pair_data,
                *fee_bps_by_leg,
            ),
            level_index as int,
            enforce_rules,
            *rules,
        ),
{
    let leg1: Decimal = match simulate_leg(
        initial_amount,
        triangle_config.pairs[0].as_str(),
        triangle_config.parts[0].as_str(),
        &start_pair_data.data.asks[level_index],
        &start_pair_data.data.bids[level_index],
        fee_bps_by_leg[0],
        enforce_rules,
        rules,
    ) {
        Ok(amount) => amount,
        Err(error) => {
            return Err(error);
        },
    };
    let leg2: Decimal = match simulate_leg(
        leg1,
        triangle_config.pairs[1].as_str(),
        triangle_config.parts[1].as_str(),
        &mid_pair_data.data.asks[level_index],
        &mid_pair_data.data.bids[level_index],
        fee_bps_by_leg[1],
        enforce_rules,
        rules,
    ) {
        Ok(amount) => amount,
        Err(error) => {
            return Err(error);
        },
    };
    simulate_leg(
        leg2,
        triangle_config.pairs[2].as_str(),
        triangle_config.parts[2].as_str(),
        &end_pair_data.data.asks[level_index],
        &end_pair_data.data.bids[level_index],
        fee_bps_by_leg[2],
        enforce_rules,
        rules,
    )
}

/// What walking a triangle with an assumed amount comes to.
#[derive(Debug)]
pub struct ExecutionFilterOutcome {
    pub assumed_start_amount: FloatKey,
    pub executable_profit_bps: Decimal,
    pub latency_penalty_bps: FloatKey,
    pub execution_filter_passed: bool,
    pub rejection_reasons: Vec<String>,
    pub fee_bps_by_leg: [FloatKey; 3],
}

/// What walking a triangle with an assumed amount comes to.
pub struct ExecutionView {
    pub start: FloatKey,
    pub executable: Number,
    pub latency: FloatKey,
    pub passed: bool,
    pub reasons: Seq<Seq<char>>,
    pub fees: (FloatKey, FloatKey, FloatKey),
}

impl View for ExecutionFilterOutcome {
    type V = ExecutionView;

    open spec fn view(&self) -> ExecutionView {
        ExecutionView {
            start: self.assumed_start_amount,
            executable: self.executable_profit_bps@,
            latency: self.latency_penalty_bps,
            passed: self.execution_filter_passed,
            reasons: crate::text::texts(self.rejection_reasons@),
            fees: (self.fee_bps_by_leg@[0], self.fee_bps_by_leg@[1], self.fee_bps_by_leg@[2]),
        }
    }
}

/// The gain from one amount to another, in basis points.
pub open spec fn gain_in_bps(from: Number, to: Number) -> Option<Number> {
    match crate::decimal::quotient(to, from) {
        None => None,
        Some(ratio) => match crate::decimal::difference(ratio, (1, 0, false)) {
            None => None,
            Some(gain) => in_bps(gain),
        },
    }
}

fn gain_bps(from: Decimal, to: Decimal) -> (r: Option<Decimal>)
    ensures
        crate::decimal::number(r) == gain_in_bps(from@, to@),
{
    let ratio: Decimal = match to.checked_div(from) {
        Some(ratio) => ratio,
        None => {
            return None;
        },
    };
    match ratio.checked_sub(Decimal::one()) {
        Some(gain) => profit_to_bps(gain),
        None => None,
    }
}

/// The legs of a triangle with the fees of the exchange.
pub open spec fn legs_of(
    triangle: TriangleConfig,
    start: DepthStreamWrapper,
    mid: DepthStreamWrapper,
    end: DepthStreamWrapper,
    rules: ExchangeRulesConfig,
) -> LegsView {
    LegsView {
        first: leg_of(start, triangle.pairs@[0]@, triangle.parts@[0]@, rules),
        second: leg_of(mid, triangle.pairs@[1]@, triangle.parts@[1]@, rules),
        third: leg_of(end, triangle.pairs@[2]@, triangle.parts@[2]@, rules),
    }
}

/// What walking a triangle at a level comes to; `None` where a number gets too
/// large. Where the demands of the exchange do not count, every triangle
/// passes, a walk that is refused counts as no gain, and there is no penalty for
/// latency. Where they count, a walk that is refused does not pass.
pub open spec fn execution_at(legs: LegsView, level: int, rules: ExchangeRulesConfig) -> Option<
    ExecutionView,
> {
    let start = start_amount(rules, legs.first.part);
    let amount = walking_amount(start.1);
    let gain = match walked(amount, legs, level, rules.enabled, rules) {
        Ok(end) => gain_in_bps(amount, end),
        Err(TradeErrorView::Rejected(_)) => Some((0int, 0int, false)),
        Err(TradeErrorView::OutOfRange) => None,
    };
    let reasons = match walked(amount, legs, level, rules.enabled, rules) {
        Err(TradeErrorView::Rejected(reason)) if rules.enabled => seq![reason],
        _ => Seq::empty(),
    };
    match gain {
        None => None,
        Some(executable) => Some(
            ExecutionView {
                start: start.0,
                executable,
                latency: if rules.enabled {
                    rules.latency_penalty_bps.larger(FloatKey { key: 0 })
                } else {
                    FloatKey { key: 0 }
                },
                passed: reasons.len() == 0,
                reasons,
                fees: (
                    fee_on(rules, legs.first.pair).0,
                    fee_on(rules, legs.second.pair).0,
                    fee_on(rules, legs.third.pair).0,
                ),
            },
        ),
    }
}

/// What walking a triangle at a level comes to; `None` where a number gets too
/// large.
pub fn evaluate_execution_filters(
    triangle_config: &TriangleConfig,
    start_pair_data: &DepthStreamWrapper,
    mid_pair_data: &DepthStreamWrapper,
    end_pair_data: &DepthStreamWrapper,
    level_index: usize,
    rules: &ExchangeRulesConfig,
) -> (r: Option<ExecutionFilterOutcome>)
    requires
        level_index < common_depth(
            legs_of(*triangle_config, *start_pair_data, *mid_pair_data, *end_pair_data, *rules),
        ),
    ensures
        ({
            let legs = legs_of(
                *triangle_config,
                *start_pair_data,
                *mid_pair_data,
                *end_pair_data,
                *rules,
            );
            match r {
                Some(outcome) => execution_at(legs, level_index as int, *rules) == Some(outcome@),
                None => execution_at(legs, level_index as int, *rules) is None,
            }
        }),
{
    let fee1: ConfigNumber = fee_bps_for_pair(rules, triangle_config.pairs[0].as_str());
    let fee2: ConfigNumber = fee_bps_for_pair(rules, triangle_config.pairs[1].as_str());
    let fee3: ConfigNumber = fee_bps_for_pair(rules, triangle_config.pairs[2].as_str());
    let assumed_start_amount: ConfigNumber = assumed_start_amount_for_asset(
        rules,
        triangle_config.parts[0].as_str(),
    );
    let amount: Decimal = amount_to_walk(assumed_start_amount.decimal);
    let mut rejection_reasons: Vec<String> = Vec::new();
    let simulated: Result<Decimal, TradeError> = simulate_triangle_path_amount(
        triangle_config,
        start_pair_data,
        mid_pair_data,
        end_pair_data,
        level_index,
        amount,
        &[fee1.decimal, fee2.decimal, fee3.decimal],
        rules.enabled,
        rules,
    );
    let mut passed: bool = true;
    let executable_profit_bps: Decimal = match simulated {
        Ok(final_amount) => match gain_bps(amount, final_amount) {
            Some(gain) => gain,
            None => {
                return None;
            },
        },
        Err(TradeError::Rejected(reason)) => {
            if rules.enabled {
                let ghost text = reason@;
                rejection_reasons.push(reason);
                passed = false;
                proof {
                    assert(crate::text::texts(rejection_reasons@) =~= seq![text]);
                }
            }
            Decimal::zero()
        },
        Err(TradeError::OutOfRange) => {
            return None;
        },
    };
    proof {
        if passed {
            assert(crate::text::texts(rejection_reasons@) =~= Seq::<Seq<char>>::empty());
        }
    }
    let latency_penalty_bps: FloatKey = if rules.enabled {
        rules.latency_penalty_bps.max(FloatKey::zero())
    } else {
        FloatKey::zero()
    };
    Some(
        ExecutionFilterOutcome {
            assumed_start_amount: assumed_start_amount.float,
            executable_profit_bps,
            latency_penalty_bps,
            execution_filter_passed: passed,
            rejection_reasons,
            fee_bps_by_leg: [fee1.float, fee2.float, fee3.float],
        },
    )
}

/// The place of the highest profit; of equal ones, of the last.
pub open spec fn best_of(points: Seq<(int, Number)>) -> int
    decreases points.len(),
{
    if points.len() <= 1 {
        0
    } else {
        let before = best_of(points.drop_last());
        if crate::decimal::place(points.last().1) >= crate::decimal::place(points[before].1) {
            points.len() - 1
        } else {
            before
        }
    }
}

/// How many profits are above zero.
pub open spec fn profitable_among(points: Seq<(int, Number)>) -> nat
    decreases points.len(),
{
    if points.len() == 0 {
        0
    } else {
        profitable_among(points.drop_last()) + if crate::decimal::place(points.last().1) > 0 {
            1nat
        } else {
            0nat
        }
    }
}

/// The sum of profits; `None` where it gets too large.
pub open spec fn sum_of(points: Seq<(int, Number)>) -> Option<Number>
    decreases points.len(),
{
    if points.len() == 0 {
        Some((0, 0, false))
    } else {
        match sum_of(points.drop_last()) {
            None => None,
            Some(sum) => crate::decimal::total(sum, points.last().1),
        }
    }
}

proof fn lemma_best(points: Seq<(int, Number)>)
    ensures
        points.len() > 0 ==> 0 <= best_of(points) < points.len(),
    decreases points.len(),
{
    if points.len() > 1 {
        lemma_best(points.drop_last());
    }
}

proof fn lemma_sum_too_large(points: Seq<(int, Number)>, n: int)
    requires
        0 <= n <= points.len(),
        sum_of(points.take(n)) is None,
    ensures
        sum_of(points) is None,
    decreases points.len() - n,
{
    if n < points.len() {
        assert(points.take(n + 1).drop_last() =~= points.take(n));
        lemma_sum_too_large(points, n + 1);
    } else {
        assert(points.take(n) =~= points);
    }
}

/// The place of the highest profit.
fn best_point(points: &Vec<ProfitPoint>) -> (r: usize)
    requires
        points@.len() > 0,
    ensures
        r == best_of(points_of(points@)),
        r < points@.len(),
{
    let ghost all = points_of(points@);
    let mut best: usize = 0;
    let mut i: usize = 1;
    while i < points.len()
        invariant
            1 <= i <= points@.len(),
            best < i,
            all == points_of(points@),
            best == best_of(all.take(i as int)),
        decreases points@.len() - i,
    {
        proof {
            assert(all.take(i + 1).drop_last() =~= all.take(i as int));
            assert(all.take(i + 1).last() == all[i as int]);
            assert(all.take(i + 1)[best as int] == all[best as int]);
        }
        if !points[i].profit.below(points[best].profit) {
            best = i;
        }
        i = i + 1;
    }
    proof {
        assert(all.take(i as int) =~= all);
    }
    best
}

/// How many profits are above zero.
fn count_profitable(points: &Vec<ProfitPoint>) -> (r: usize)
    ensures
        r == profitable_among(points_of(points@)),
        r <= points@.len(),
{
    let ghost all = points_of(points@);
    let mut count: usize = 0;
    for i in 0..points.len()
        invariant
            count <= i,
            all == points_of(points@),
            count == profitable_among(all.take(i as int)),
    {
        proof {
            assert(all.take(i + 1).drop_last() =~= all.take(i as int));
            assert(all.take(i + 1).last() == all[i as int]);
        }
        if points[i].profit.is_positive() {
            count = count + 1;
        }
    }
    proof {
        assert(all.take(all.len() as int) =~= all);
    }
    count
}

/// The sum of profits.
fn sum_profits(points: &Vec<ProfitPoint>) -> (r: Option<Decimal>)
    ensures
        crate::decimal::number(r) == sum_of(points_of(points@)),
{
    let ghost all = points_of(points@);
    let mut sum: Decimal = Decimal::zero();
    for i in 0..points.len()
        invariant
            all == points_of(points@),
            Some(sum@) == sum_of(all.take(i as int)),
    {
        proof {
            assert(all.take(i + 1).drop_last() =~= all.take(i as int));
            assert(all.take(i + 1).last() == all[i as int]);
        }
        match sum.checked_add(points[i].profit) {
            Some(next) => {
                sum = next;
            },
            None => {
                proof {
                    lemma_sum_too_large(all, i + 1);
                }
                return None;
            },
        }
    }
    proof {
        assert(all.take(all.len() as int) =~= all);
    }
    Some(sum)
}

/// What an evaluation of a triangle finds.
pub struct Evaluation {
    pub points: Seq<(int, Number)>,
    pub best: int,
    pub profitable: nat,
    pub top_bps: Number,
    pub best_bps: Number,
    pub avg_bps: Number,
    pub execution: ExecutionView,
}

/// What profits amount to in basis points: the first, the best and the average.
pub open spec fn bps_of(points: Seq<(int, Number)>) -> Option<(Number, Number, Number)> {
    let count = (points.len() as int, 0int, false);
    let average = match sum_of(points) {
        None => None,
        Some(sum) => crate::decimal::quotient(sum, count),
    };
    match average {
        None => None,
        Some(average) => match (
            in_bps(points[0].1),
            in_bps(points[best_of(points)].1),
            in_bps(average),
        ) {
            (Some(top), Some(best), Some(avg)) => Some((top, best, avg)),
            _ => None,
        },
    }
}

/// What an evaluation of a triangle with profits finds; `None` where a number
/// gets too large. The triangle is walked at the level of its best profit.
pub open spec fn evaluation(
    legs: LegsView,
    points: Seq<(int, Number)>,
    rules: ExchangeRulesConfig,
) -> Option<Evaluation> {
    let best = best_of(points);
    match (bps_of(points), execution_at(legs, points[best].0, rules)) {
        (Some(bps), Some(execution)) => Some(
            Evaluation {
                points,
                best,
                profitable: profitable_among(points),
                top_bps: bps.0,
                best_bps: bps.1,
                avg_bps: bps.2,
                execution,
            },
        ),
        _ => None,
    }
}

/// Whether a quote shows the offers of a pair at a level.
pub open spec fn quotes(
    quote: TriangleLegQuote,
    pair: Seq<char>,
    data: DepthStreamWrapper,
    level: int,
) -> bool {
    &&& quote.pair@ == pair
    &&& quote.ask_price == data.data.asks@[level].price
    &&& quote.ask_size == data.data.asks@[level].size
    &&& quote.bid_price == data.data.bids@[level].price
    &&& quote.bid_size == data.data.bids@[level].size
}

/// Whether three texts are those of an array.
pub open spec fn same_three(a: [String; 3], b: [String; 3]) -> bool {
    a@[0]@ == b@[0]@ && a@[1]@ == b@[1]@ && a@[2]@ == b@[2]@
}

/// The numbers that floating-point arithmetic gives for an evaluation.
#[derive(Debug, Clone, Copy)]
pub struct SignalFloats {
    /// The profitable levels over the levels considered.
    pub hit_rate: FloatKey,
    /// The executable profit less the penalty for latency.
    pub adjusted_profit_bps: FloatKey,
}

/// Whether a triangle is worthy: it passes, and its adjusted profit and its hit
/// rate reach the thresholds. What is not a number reaches none and is reached
/// by none.
pub open spec fn worthwhile(
    passed: bool,
    floats: SignalFloats,
    min_profit_bps: FloatKey,
    min_hit_rate: FloatKey,
) -> bool {
    &&& passed
    &&& min_profit_bps.le(floats.adjusted_profit_bps)
    &&& min_hit_rate.le(floats.hit_rate)
}

/// Whether a triangle is worthy.
pub fn is_worthy(
    passed: bool,
    floats: SignalFloats,
    min_profit_bps: FloatKey,
    min_hit_rate: FloatKey,
) -> (r: bool)
    ensures
        r == worthwhile(passed, floats, min_profit_bps, min_hit_rate),
{
    passed && min_profit_bps.at_most(floats.adjusted_profit_bps) && min_hit_rate.at_most(
        floats.hit_rate,
    )
}

/// The numbers that a signal shows of the profits.
#[derive(Debug, Clone, Copy)]
pub struct ProfitSummary {
    pub depth_levels_considered: usize,
    pub profitable_levels: usize,
    pub best_level_index: usize,
    pub best_profit: Decimal,
    pub top_profit_bps: Decimal,
    pub best_profit_bps: Decimal,
    pub avg_profit_bps: Decimal,
}

/// Whether numbers sum up what an evaluation found of the profits.
pub open spec fn sums_up(summary: ProfitSummary, found: Evaluation) -> bool {
    &&& summary.depth_levels_considered == found.points.len()
    &&& summary.profitable_levels == found.profitable
    &&& summary.best_level_index == found.points[found.best].0
    &&& summary.best_profit@ == found.points[found.best].1
    &&& summary.top_profit_bps@ == found.top_bps
    &&& summary.best_profit_bps@ == found.best_bps
    &&& summary.avg_profit_bps@ == found.avg_bps
}

/// Whether a signal reports what an evaluation found, at a time.
pub open spec fn reports(
    signal: TriangleOpportunitySignal,
    triangle: TriangleConfig,
    data: (DepthStreamWrapper, DepthStreamWrapper, DepthStreamWrapper),
    summary: ProfitSummary,
    execution: ExecutionView,
    floats: SignalFloats,
    min_profit_bps: FloatKey,
    min_hit_rate: FloatKey,
    timestamp_ms: u64,
) -> bool {
    let level = summary.best_level_index as int;
    &&& signal.timestamp_ms == timestamp_ms
    &&& signal.exchange@ == "binance"@
    &&& same_three(signal.triangle_parts, triangle.parts)
    &&& same_three(signal.triangle_pairs, triangle.pairs)
    &&& signal.depth_levels_considered == summary.depth_levels_considered
    &&& signal.profitable_levels == summary.profitable_levels
    &&& signal.hit_rate == floats.hit_rate
    &&& signal.top_profit_bps == summary.top_profit_bps
    &&& signal.best_profit_bps == summary.best_profit_bps
    &&& signal.avg_profit_bps == summary.avg_profit_bps
    &&& signal.best_level_index == level
    &&& signal.assumed_start_amount == execution.start
    &&& signal.executable_profit_bps@ == execution.executable
    &&& signal.adjusted_profit_bps == floats.adjusted_profit_bps
    &&& signal.latency_penalty_bps == execution.latency
    &&& signal.execution_filter_passed == execution.passed
    &&& signal.worthy == worthwhile(execution.passed, floats, min_profit_bps, min_hit_rate)
    &&& signal.min_profit_bps_threshold == min_profit_bps
    &&& signal.min_hit_rate_threshold == min_hit_rate
    &&& crate::text::texts(signal.rejection_reasons@) == execution.reasons
    &&& signal.fee_bps_by_leg@[0] == execution.fees.0
    &&& signal.fee_bps_by_leg@[1] == execution.fees.1
    &&& signal.fee_bps_by_leg@[2] == execution.fees.2
    &&& quotes(signal.best_level_quotes@[0], triangle.pairs@[0]@, data.0, level)
    &&& quotes(signal.best_level_quotes@[1], triangle.pairs@[1]@, data.1, level)
    &&& quotes(signal.best_level_quotes@[2], triangle.pairs@[2]@, data.2, level)
}

fn leg_quote(pair_name: &String, data: &DepthStreamWrapper, level: usize) -> (r: TriangleLegQuote)
    requires
        level < data.data.asks@.len(),
        level < data.data.bids@.len(),
    ensures
        quotes(r, pair_name@, *data, level as int),
{
    TriangleLegQuote {
        pair: pair_name.clone(),
        ask_price: data.data.asks[level].price,
        ask_size: data.data.asks[level].size,
        bid_price: data.data.bids[level].price,
        bid_size: data.data.bids[level].size,
    }
}

fn copy_of_three(names: &[String; 3]) -> (r: [String; 3])
    ensures
        same_three(r, *names),
{
    [names[0].clone(), names[1].clone(), names[2].clone()]
}

/// The signal that reports what an evaluation found.
pub fn build_opportunity_signal(
    triangle_config: &TriangleConfig,
    start_pair_data: &DepthStreamWrapper,
    mid_pair_data: &DepthStreamWrapper,
    end_pair_data: &DepthStreamWrapper,
    summary: ProfitSummary,
    execution_outcome: ExecutionFilterOutcome,
    floats: SignalFloats,
    min_profit_bps_threshold: FloatKey,
    min_hit_rate_threshold: FloatKey,
    timestamp_ms: u64,
) -> (r: TriangleOpportunitySignal)
    requires
        summary.best_level_index < start_pair_data.data.asks@.len(),
        summary.best_level_index < start_pair_data.data.bids@.len(),
        summary.best_level_index < mid_pair_data.data.asks@.len(),
        summary.best_level_index < mid_pair_data.data.bids@.len(),
        summary.best_level_index < end_pair_data.data.asks@.len(),
        summary.best_level_index < end_pair_data.data.bids@.len(),
    ensures
        reports(
            r,
            *triangle_config,
            (*start_pair_data, *mid_pair_data, *end_pair_data),
            summary,
            execution_outcome@,
            floats,
            min_profit_bps_threshold,
            min_hit_rate_threshold,
            timestamp_ms,
        ),
{
    let i: usize = summary.best_level_index;
    let worthy: bool = is_worthy(
        execution_outcome.execution_filter_passed,
        floats,
        min_profit_bps_threshold,
        min_hit_rate_threshold,
    );
    TriangleOpportunitySignal {
        timestamp_ms,
        exchange: "binance".to_owned(),
        triangle_parts: copy_of_three(&triangle_config.parts),
        triangle_pairs: copy_of_three(&triangle_config.pairs),
        depth_levels_considered: summary.depth_levels_considered,
        profitable_levels: summary.profitable_levels,
        hit_rate: floats.hit_rate,
        top_profit_bps: summary.top_profit_bps,
        best_profit_bps: summary.best_profit_bps,
        avg_profit_bps: summary.avg_profit_bps,
        best_level_index: i,
        assumed_start_amount: execution_outcome.assumed_start_amount,
        executable_profit_bps: execution_outcome.executable_profit_bps,
        adjusted_profit_bps: floats.adjusted_profit_bps,
        latency_penalty_bps: execution_outcome.latency_penalty_bps,
        execution_filter_passed: execution_outcome.execution_filter_passed,
        worthy,
        min_profit_bps_threshold,
        min_hit_rate_threshold,
        rejection_reasons: execution_outcome.rejection_reasons,
        fee_bps_by_leg: execution_outcome.fee_bps_by_leg,
        best_level_quotes: [
            leg_quote(&triangle_config.pairs[0], start_pair_data, i),
            leg_quote(&triangle_config.pairs[1], mid_pair_data, i),
            leg_quote(&triangle_config.pairs[2], end_pair_data, i),
        ],
    }
}

proof fn lemma_points_in_range(legs: LegsView, levels: nat)
    ensures
        profits_up_to(legs, levels) matches Some(points) ==> forall|x: int|
            0 <= x < points.len() ==> 0 <= (#[trigger] points[x]).0 < levels && tradable(
                legs,
                points[x].0,
            ) && profit_at(legs, points[x].0) == Some(points[x].1),
    decreases levels,
{
    if levels > 0 {
        lemma_points_in_range(legs, (levels - 1) as nat);
    }
}

/// What is sent to clients about a triangle.
#[derive(Debug)]
pub struct TriangleArbitragePayload<'a> {
    pub triangle: &'a [String; 3],
    pub profits: Vec<Decimal>,
    pub start_pair_data: &'a DepthStreamWrapper,
    pub mid_pair_data: &'a DepthStreamWrapper,
    pub end_pair_data: &'a DepthStreamWrapper,
}

/// What an evaluation of a triangle gives: what is sent to clients, and what the
/// signal that is logged reports.
#[derive(Debug)]
pub struct TriangleOutputs<'a> {
    pub payload: TriangleArbitragePayload<'a>,
    pub summary: ProfitSummary,
    pub execution: ExecutionFilterOutcome,
}

/// A number gets too large.
#[derive(Debug, Clone, Copy, PartialEq, Eq)]
pub struct OutOfRange;

/// Whether there is depth data for all pairs of a triangle.
pub open spec fn has_data(pairs_data: Map<Seq<char>, DepthStreamWrapper>, triangle: TriangleConfig) -> bool {
    &&& pairs_data.dom().contains(triangle.pairs@[0]@)
    &&& pairs_data.dom().contains(triangle.pairs@[1]@)
    &&& pairs_data.dom().contains(triangle.pairs@[2]@)
}

/// The depth data of the pairs of a triangle.
pub open spec fn data_of(
    pairs_data: Map<Seq<char>, DepthStreamWrapper>,
    triangle: TriangleConfig,
) -> (DepthStreamWrapper, DepthStreamWrapper, DepthStreamWrapper) {
    (
        pairs_data[triangle.pairs@[0]@],
        pairs_data[triangle.pairs@[1]@],
        pairs_data[triangle.pairs@[2]@],
    )
}

/// The profits of a triangle on depth data.
pub open spec fn triangle_profits(
    pairs_data: Map<Seq<char>, DepthStreamWrapper>,
    triangle: TriangleConfig,
    rules: ExchangeRulesConfig,
) -> Option<Seq<(int, Number)>> {
    let data = data_of(pairs_data, triangle);
    profits_of(legs_of(triangle, data.0, data.1, data.2, rules))
}

/// What an evaluation of a triangle on depth data finds.
pub open spec fn triangle_evaluation(
    pairs_data: Map<Seq<char>, DepthStreamWrapper>,
    triangle: TriangleConfig,
    rules: ExchangeRulesConfig,
) -> Option<Evaluation> {
    let data = data_of(pairs_data, triangle);
    match triangle_profits(pairs_data, triangle, rules) {
        None => None,
        Some(points) => evaluation(
            legs_of(triangle, data.0, data.1, data.2, rules),
            points,
            rules,
        ),
    }
}

/// Whether what is sent to clients shows a triangle, its profits and the depth
/// data of its pairs.
pub open spec fn payload_shows(
    payload: TriangleArbitragePayload<'_>,
    triangle: TriangleConfig,
    data: (DepthStreamWrapper, DepthStreamWrapper, DepthStreamWrapper),
    points: Seq<(int, Number)>,
) -> bool {
    &&& same_three(*payload.triangle, triangle.parts)
    &&& payload.profits@.len() == points.len()
    &&& forall|i: int| 0 <= i < points.len() ==> (#[trigger] payload.profits@[i])@ == points[i].1
    &&& *payload.start_pair_data == data.0
    &&& *payload.mid_pair_data == data.1
    &&& *payload.end_pair_data == data.2
}

/// The numbers that a signal shows of profits.
fn summarize(points: &Vec<ProfitPoint>) -> (r: Option<ProfitSummary>)
    requires
        points@.len() > 0,
    ensures
        ({
            let all = points_of(points@);
            match r {
                Some(summary) => {
                    &&& summary.depth_levels_considered == all.len()
                    &&& summary.profitable_levels == profitable_among(all)
                    &&& summary.best_level_index == all[best_of(all)].0
                    &&& summary.best_profit@ == all[best_of(all)].1
                    &&& bps_of(all) == Some(
                        (
                            summary.top_profit_bps@,
                            summary.best_profit_bps@,
                            summary.avg_profit_bps@,
                        ),
                    )
                },
                None => bps_of(all) is None,
            }
        }),
{
    let best: usize = best_point(points);
    let profitable_levels: usize = count_profitable(points);
    let count: Decimal = Decimal::from_usize(points.len());
    let average: Decimal = match sum_profits(points) {
        Some(sum) => match sum.checked_div(count) {
            Some(average) => average,
            None => {
                return None;
            },
        },
        None => {
            return None;
        },
    };
    match (
        profit_to_bps(points[0].profit),
        profit_to_bps(points[best].profit),
        profit_to_bps(average),
    ) {
        (Some(top_profit_bps), Some(best_profit_bps), Some(avg_profit_bps)) => Some(
            ProfitSummary {
                depth_levels_considered: points.len(),
                profitable_levels,
                best_level_index: points[best].level_index,
                best_profit: points[best].profit,
                top_profit_bps,
                best_profit_bps,
                avg_profit_bps,
            },
        ),
        _ => None,
    }
}

fn profits_alone(points: &Vec<ProfitPoint>) -> (r: Vec<Decimal>)
    ensures
        r@.len() == points@.len(),
        forall|i: int| 0 <= i < points@.len() ==> #[trigger] r@[i] == points@[i].profit,
{
    let mut out: Vec<Decimal> = Vec::new();
    for i in 0..points.len()
        invariant
            out@.len() == i,
            forall|j: int| 0 <= j < i ==> #[trigger] out@[j] == points@[j].profit,
    {
        out.push(points[i].profit);
    }
    out
}

/// Evaluates a triangle on depth data. There is nothing to tell
/// without depth data for all of its pairs, or without a level to trade at.
pub fn build_triangle_outputs<'a>(
    pairs_data: &'a TextMap<DepthStreamWrapper>,
    triangle_config: &'a TriangleConfig,
    config: &AppConfig,
) -> (r: Result<Option<TriangleOutputs<'a>>, OutOfRange>)
    ensures
        ({
            let data = data_of(pairs_data@, *triangle_config);
            let points = triangle_profits(pairs_data@, *triangle_config, config.exchange_rules);
            let found = triangle_evaluation(
                pairs_data@,
                *triangle_config,
                config.exchange_rules,
            );
            match r {
                Ok(None) => !has_data(pairs_data@, *triangle_config) || points == Some(
                    Seq::<(int, Number)>::empty(),
                ),
                Ok(Some(outputs)) => {
                    &&& has_data(pairs_data@, *triangle_config)
                    &&& points is Some
                    &&& points->0.len() > 0
                    &&& found is Some
                    &&& payload_shows(outputs.payload, *triangle_config, data, points->0)
                    &&& sums_up(outputs.summary, found->0)
                    &&& outputs.execution@ == found->0.execution
                    &&& outputs.summary.best_level_index < common_depth(
                        legs_of(
                            *triangle_config,
                            data.0,
                            data.1,
                            data.2,
                            config.exchange_rules,
                        ),
                    )
                },
                Err(_) => {
                    &&& has_data(pairs_data@, *triangle_config)
                    &&& points matches Some(list) ==> list.len() > 0
                    &&& found is None
                },
            }
        }),
{
    let start_pair: &str = triangle_config.pairs[0].as_str();
    let mid_pair: &str = triangle_config.pairs[1].as_str();
    let end_pair: &str = triangle_config.pairs[2].as_str();
    let start_pair_data: &'a DepthStreamWrapper = match pairs_data.get(start_pair) {
        Some(data) => data,
        None => {
            return Ok(None);
        },
    };
    let mid_pair_data: &'a DepthStreamWrapper = match pairs_data.get(mid_pair) {
        Some(data) => data,
        None => {
            return Ok(None);
        },
    };
    let end_pair_data: &'a DepthStreamWrapper = match pairs_data.get(end_pair) {
        Some(data) => data,
        None => {
            return Ok(None);
        },
    };
    let ghost legs = legs_of(
        *triangle_config,
        *start_pair_data,
        *mid_pair_data,
        *end_pair_data,
        config.exchange_rules,
    );
    let points: Vec<ProfitPoint> = match calculate_triangle_profits(
        start_pair_data,
        mid_pair_data,
        end_pair_data,
        start_pair,
        mid_pair,
        end_pair,
        [
            triangle_config.parts[0].as_str(),
            triangle_config.parts[1].as_str(),
            triangle_config.parts[2].as_str(),
        ],
        &config.exchange_rules,
    ) {
        Some(points) => points,
        None => {
            return Err(OutOfRange);
        },
    };
    let ghost all = points_of(points@);
    if points.len() == 0 {
        proof {
            assert(all =~= Seq::<(int, Number)>::empty());
        }
        return Ok(None);
    }
    proof {
        lemma_points_in_range(legs, common_depth(legs));
        lemma_best(all);
        assert(0 <= all[best_of(all)].0 < common_depth(legs));
    }
    let summary: ProfitSummary = match summarize(&points) {
        Some(summary) => summary,
        None => {
            return Err(OutOfRange);
        },
    };
    let execution: ExecutionFilterOutcome = match evaluate_execution_filters(
        triangle_config,
        start_pair_data,
        mid_pair_data,
        end_pair_data,
        summary.best_level_index,
        &config.exchange_rules,
    ) {
        Some(outcome) => outcome,
        None => {
            return Err(OutOfRange);
        },
    };
    let profits: Vec<Decimal> = profits_alone(&points);
    proof {
        assert forall|i: int| 0 <= i < all.len() implies (#[trigger] profits@[i])@ == all[i].1 by {
            assert(profits@[i] == points@[i].profit);
        }
    }
    Ok(
        Some(
            TriangleOutputs {
                payload: TriangleArbitragePayload {
                    triangle: &triangle_config.parts,
                    profits,
                    start_pair_data,
                    mid_pair_data,
                    end_pair_data,
                },
                summary,
                execution,
            },
        ),
    )
}

/// What the socket of the exchange gave.
#[derive(Debug)]
pub enum WorkerEvent {
    /// No more messages.
    End,
    /// A message could not be read.
    Failed,
    /// A text that holds depth data.
    Depth(DepthStreamWrapper),
    /// A text that holds none.
    Unreadable,
    Ping,
    Pong,
    Close,
    /// Any other message.
    Other,
}

/// What is to be done about it.
#[derive(Debug, Clone, Copy, PartialEq, Eq, Structural)]
pub enum WorkerAction {
    Stop,
    /// Answer the ping with what came with it.
    AnswerPing,
    /// Evaluate all triangles and send the results out.
    Publish,
    Wait,
}

/// Whether results are due: at least the interval has passed since the last
/// ones, and at least a millisecond.
pub open spec fn due(elapsed_nanos: u128, update_interval: u32) -> bool {
    elapsed_nanos >= 1_000_000 * if update_interval < 1 {
        1
    } else {
        update_interval as int
    }
}

/// What an event calls for.
pub open spec fn action_for(event: WorkerEvent, elapsed_nanos: u128, update_interval: u32) -> WorkerAction {
    match event {
        WorkerEvent::End | WorkerEvent::Failed | WorkerEvent::Close => WorkerAction::Stop,
        WorkerEvent::Ping => WorkerAction::AnswerPing,
        WorkerEvent::Unreadable | WorkerEvent::Pong | WorkerEvent::Other => WorkerAction::Wait,
        WorkerEvent::Depth(_) => if due(elapsed_nanos, update_interval) {
            WorkerAction::Publish
        } else {
            WorkerAction::Wait
        },
    }
}

/// The depth data after an event: data takes the place of earlier data of its
/// pair.
pub open spec fn data_after(
    pairs_data: Map<Seq<char>, DepthStreamWrapper>,
    event: WorkerEvent,
) -> Map<Seq<char>, DepthStreamWrapper> {
    match event {
        WorkerEvent::Depth(data) => pairs_data.insert(crate::text::before(data.stream@, '@'), data),
        _ => pairs_data,
    }
}

/// Takes in what the socket of the exchange gave, and says what is to be done
/// about it.
pub fn take_event(
    pairs_data: &mut TextMap<DepthStreamWrapper>,
    event: WorkerEvent,
    elapsed_nanos: u128,
    update_interval: u32,
) -> (r: WorkerAction)
    ensures
        r == action_for(event, elapsed_nanos, update_interval),
        final(pairs_data)@ == data_after(old(pairs_data)@, event),
{
    match event {
        WorkerEvent::End => WorkerAction::Stop,
        WorkerEvent::Failed => WorkerAction::Stop,
        WorkerEvent::Close => WorkerAction::Stop,
        WorkerEvent::Ping => WorkerAction::AnswerPing,
        WorkerEvent::Unreadable => WorkerAction::Wait,
        WorkerEvent::Pong => WorkerAction::Wait,
        WorkerEvent::Other => WorkerAction::Wait,
        WorkerEvent::Depth(data) => {
            let pair: String = pair_key_from_stream(data.stream.as_str());
            pairs_data.insert(pair, data);
            let interval: u32 = if update_interval < 1 {
                1
            } else {
                update_interval
            };
            if elapsed_nanos < interval as u128 * 1_000_000 {
                WorkerAction::Wait
            } else {
                WorkerAction::Publish
            }
        },
    }
}

/// Whether there is anyone to evaluate triangles for.
pub fn has_audience(recipients: usize, logs_signals: bool) -> (r: bool)
    ensures
        r == (recipients > 0 || logs_signals),
{
    recipients > 0 || logs_signals
}

/// What came of sending to a client.
#[derive(Debug, Clone, Copy, PartialEq, Eq, Structural)]
pub enum SendResult {
    Sent,
    /// The client takes no more.
    Closed,
    /// The client is too slow.
    Full,
}

/// The clients that take no more, once it is known what came of sending to one
/// more.
pub open spec fn stale_after(stale: Seq<Seq<char>>, client: Seq<char>, result: SendResult) -> Seq<Seq<char>> {
    if result == SendResult::Closed && !stale.contains(client) {
        stale.push(client)
    } else {
        stale
    }
}

/// Notes a client that takes no more, once.
pub fn note_send(stale_client_ids: &mut Vec<String>, client_id: &String, result: SendResult)
    ensures
        crate::text::texts(final(stale_client_ids)@) == stale_after(
            crate::text::texts(old(stale_client_ids)@),
            client_id@,
            result,
        ),
{
    if result != SendResult::Closed {
        return;
    }
    let ghost all = crate::text::texts(stale_client_ids@);
    let mut i: usize = 0;
    while i < stale_client_ids.len()
        invariant
            i <= stale_client_ids@.len(),
            stale_client_ids@ == old(stale_client_ids)@,
            all == crate::text::texts(stale_client_ids@),
            forall|j: int| 0 <= j < i ==> #[trigger] all[j] != client_id@,
        decreases stale_client_ids@.len() - i,
    {
        proof {
            assert(all[i as int] == stale_client_ids@[i as int]@);
        }
        if same_string(&stale_client_ids[i], client_id) {
            return;
        }
        i = i + 1;
    }
    stale_client_ids.push(client_id.clone());
    proof {
        assert(crate::text::texts(stale_client_ids@) =~= all.push(client_id@));
    }
}

/// A pair that is sold is traded at the bid alone; one that is bought, at the
/// ask alone.
pub proof fn law_sides_use_their_price(
    amount: Number,
    ask: Number,
    other_ask: Number,
    bid: Number,
    other_bid: Number,
    pair: Seq<char>,
    part: Seq<char>,
    fee: Number,
)
    ensures
        sells(pair, part) ==> after_step(amount, ask, bid, pair, part, fee) == after_step(
            amount,
            other_ask,
            bid,
            pair,
            part,
            fee,
        ),
        !sells(pair, part) ==> after_step(amount, ask, bid, pair, part, fee) == after_step(
            amount,
            ask,
            other_bid,
            pair,
            part,
            fee,
        ),
{
}

/// What is bought is what a fee leaves over the ask, without rounding where that
/// is a decimal number.
pub proof fn law_bought_is_exact(
    amount: Number,
    ask: Number,
    bid: Number,
    pair: Seq<char>,
    part: Seq<char>,
    fee: Number,
    left: Number,
)
    requires
        !sells(pair, part),
        after_fee(amount, fee) == Some(left),
        crate::decimal::in_range(left.0, left.1),
        crate::decimal::in_range(ask.0, ask.1),
        crate::decimal::quotient_fits(left, ask),
    ensures
        after_step(amount, ask, bid, pair, part, fee) matches Some(bought)
            && crate::decimal::is_quotient(bought, left, ask),
{
    crate::decimal::law_fitting_quotients_are_exact(left, ask);
}

/// Without a fee all of an amount is left, as it is written, as long as it is
/// not zero.
pub proof fn law_no_fee_takes_nothing(amount: Number)
    requires
        crate::decimal::is_number(amount),
        amount.0 != 0,
    ensures
        after_fee(amount, (0, 0, false)) == Some(amount),
{
    assert(amount.0 * 1 == amount.0);
}

/// The best profit is not below any other, and above all that come after it.
pub proof fn law_best_is_highest(points: Seq<(int, Number)>)
    requires
        points.len() > 0,
    ensures
        0 <= best_of(points) < points.len(),
        forall|i: int|
            0 <= i < points.len() ==> crate::decimal::place((#[trigger] points[i]).1)
                <= crate::decimal::place(points[best_of(points)].1),
        forall|i: int|
            best_of(points) < i < points.len() ==> crate::decimal::place((#[trigger] points[i]).1)
                < crate::decimal::place(points[best_of(points)].1),
    decreases points.len(),
{
    if points.len() > 1 {
        let rest = points.drop_last();
        law_best_is_highest(rest);
        assert forall|i: int| 0 <= i < points.len() implies crate::decimal::place(
            (#[trigger] points[i]).1,
        ) <= crate::decimal::place(points[best_of(points)].1) by {
            if i < rest.len() {
                assert(rest[i] == points[i]);
            }
        }
        assert forall|i: int| best_of(points) < i < points.len() implies crate::decimal::place(
            (#[trigger] points[i]).1,
        ) < crate::decimal::place(points[best_of(points)].1) by {
            if i < rest.len() {
                assert(rest[i] == points[i]);
            }
        }
    }
}

/// No more profits are above zero than there are.
pub proof fn law_profitable_are_counted(points: Seq<(int, Number)>)
    ensures
        profitable_among(points) <= points.len(),
        profitable_among(points) == 0 <==> forall|i: int|
            0 <= i < points.len() ==> crate::decimal::place((#[trigger] points[i]).1) <= 0,
    decreases points.len(),
{
    if points.len() > 0 {
        let rest = points.drop_last();
        law_profitable_are_counted(rest);
        assert forall|i: int| 0 <= i < rest.len() implies rest[i] == points[i] by {}
        if profitable_among(points) == 0 {
            assert forall|i: int| 0 <= i < points.len() implies crate::decimal::place(
                (#[trigger] points[i]).1,
            ) <= 0 by {
                if i < rest.len() {
                    assert(crate::decimal::place(rest[i].1) <= 0);
                }
            }
        }
        if forall|i: int|
            0 <= i < points.len() ==> crate::decimal::place((#[trigger] points[i]).1) <= 0 {
            assert forall|i: int| 0 <= i < rest.len() implies crate::decimal::place(
                (#[trigger] rest[i]).1,
            ) <= 0 by {
                assert(crate::decimal::place(points[i].1) <= 0);
            }
            assert(crate::decimal::place(points[points.len() - 1].1) <= 0);
        }
    }
}

/// Every profit belongs to a level that all legs have and whose asks are above
/// zero, and is the profit at that level.
pub proof fn law_profits_are_of_their_levels(legs: LegsView, points: Seq<(int, Number)>, i: int)
    requires
        profits_of(legs) == Some(points),
        0 <= i < points.len(),
    ensures
        0 <= points[i].0 < common_depth(legs),
        tradable(legs, points[i].0),
        profit_at(legs, points[i].0) == Some(points[i].1),
{
    lemma_points_in_range(legs, common_depth(legs));
}

/// A signal that is worthy passes the demands of the exchange, reaches both
/// thresholds, and has no reason against it.
pub proof fn law_worthy_means_it(
    signal: TriangleOpportunitySignal,
    triangle: TriangleConfig,
    data: (DepthStreamWrapper, DepthStreamWrapper, DepthStreamWrapper),
    summary: ProfitSummary,
    floats: SignalFloats,
    rules: ExchangeRulesConfig,
    min_profit_bps: FloatKey,
    min_hit_rate: FloatKey,
    timestamp_ms: u64,
)
    requires
        ({
            let legs = legs_of(triangle, data.0, data.1, data.2, rules);
            execution_at(legs, summary.best_level_index as int, rules) matches Some(execution)
                && reports(
                signal,
                triangle,
                data,
                summary,
                execution,
                floats,
                min_profit_bps,
                min_hit_rate,
                timestamp_ms,
            )
        }),
        signal.worthy,
    ensures
        signal.execution_filter_passed,
        signal.rejection_reasons@.len() == 0,
        signal.min_profit_bps_threshold.le(signal.adjusted_profit_bps),
        signal.min_hit_rate_threshold.le(signal.hit_rate),
{
    assert(crate::text::texts(signal.rejection_reasons@).len() == 0);
}

/// Where the demands of the exchange do not count, every triangle passes, and
/// nothing comes off its profit.
pub proof fn law_without_rules_all_pass(legs: LegsView, level: int, rules: ExchangeRulesConfig)
    requires
        !rules.enabled,
        execution_at(legs, level, rules) is Some,
    ensures
        execution_at(legs, level, rules)->0.passed,
        execution_at(legs, level, rules)->0.latency.key == 0,
        execution_at(legs, level, rules)->0.reasons.len() == 0,
{
}

/// A triangle passes the demands of the exchange exactly where no reason is
/// given against it; then the walk came to its end.
pub proof fn law_passing_means_walked(legs: LegsView, level: int, rules: ExchangeRulesConfig)
    requires
        rules.enabled,
        execution_at(legs, level, rules) is Some,
    ensures
        ({
            let found = execution_at(legs, level, rules)->0;
            let amount = walking_amount(start_amount(rules, legs.first.part).1);
            let walk = walked(amount, legs, level, true, rules);
            &&& found.passed <==> found.reasons.len() == 0
            &&& found.passed <==> walk is Ok
            &&& found.passed ==> gain_in_bps(amount, walk->Ok_0) == Some(found.executable)
        }),
{
}

/// What a rule demands of a quantity that was rounded from another: it is above
/// zero, in whole steps, and not below the smallest.
pub open spec fn keeps_to_rule(raw: Number, qty: Number, rule: Option<PairRuleConfig>) -> bool {
    &&& crate::decimal::place(qty) > 0
    &&& rule matches Some(r) ==> r.qty_step matches Some(step) ==> step.amount() > 0 ==> in_steps(
        raw,
        step@,
        qty,
    )
    &&& rule matches Some(r) ==> r.min_qty matches Some(m) ==> crate::decimal::place(qty)
        >= m.amount()
}

/// Whether the step of a rule is a decimal number.
pub open spec fn step_is_number(rule: Option<PairRuleConfig>) -> bool {
    rule matches Some(r) ==> r.qty_step matches Some(step) ==> crate::decimal::is_number(step@)
}

proof fn lemma_rounded_qty(raw: Number, rule: Option<PairRuleConfig>)
    requires
        crate::decimal::in_range(raw.0, raw.1),
        step_is_number(rule),
        rounded_qty(raw, rule) is Some,
    ensures
        rule matches Some(r) ==> r.qty_step matches Some(step) ==> step.amount() > 0 ==> in_steps(
            raw,
            step@,
            rounded_qty(raw, rule)->0,
        ),
{
    match rule {
        Some(r) => match r.qty_step {
            Some(step) => {
                if step.amount() > 0 {
                    law_rounded_to_steps(raw, step@, rounded_qty(raw, rule)->0);
                }
            },
            None => {},
        },
        None => {},
    }
}

/// What is sold by the rules keeps to them: the quantity is above zero, in whole
/// steps, not below the smallest and within what is offered, and its notional is
/// not below the smallest.
pub proof fn law_sold_by_the_rules(
    amount: Number,
    pair: Seq<char>,
    bid: OfferData,
    rule: Option<PairRuleConfig>,
)
    requires
        crate::decimal::is_number(amount),
        step_is_number(rule),
        sold(amount, pair, bid, true, rule) is Ok,
    ensures
        rounded_qty(amount, rule) matches Some(qty) && {
            &&& keeps_to_rule(amount, qty, rule)
            &&& crate::decimal::place(qty) <= bid.size.amount()
            &&& sold(amount, pair, bid, true, rule) == in_range_or_error(
                crate::decimal::product(qty, bid.price@),
            )
            &&& rule matches Some(r) ==> r.min_notional matches Some(m) ==> crate::decimal::place(
                sold(amount, pair, bid, true, rule)->Ok_0,
            ) >= m.amount()
        },
{
    lemma_rounded_qty(amount, rule);
}

/// What is bought by the rules keeps to them: the quantity is above zero, in
/// whole steps, not below the smallest and within what is offered, and neither
/// what is paid nor its notional is below the smallest.
pub proof fn law_bought_by_the_rules(
    amount: Number,
    pair: Seq<char>,
    ask: OfferData,
    rule: Option<PairRuleConfig>,
)
    requires
        crate::decimal::is_number(amount),
        crate::decimal::is_number(ask.price@),
        step_is_number(rule),
        bought(amount, pair, ask, true, rule) is Ok,
    ensures
        crate::decimal::quotient(amount, ask.price@) matches Some(raw) && {
            let qty = bought(amount, pair, ask, true, rule)->Ok_0;
            &&& rounded_qty(raw, rule) == Some(qty)
            &&& keeps_to_rule(raw, qty, rule)
            &&& crate::decimal::place(qty) <= ask.size.amount()
            &&& rule matches Some(r) ==> r.min_notional matches Some(m) ==> {
                &&& crate::decimal::place(amount) >= m.amount()
                &&& crate::decimal::product(qty, ask.price@) matches Some(n)
                    && crate::decimal::place(n) >= m.amount()
            }
        },
{
    crate::decimal::law_quotients_are_near(amount, ask.price@);
    lemma_rounded_qty(crate::decimal::quotient(amount, ask.price@)->0, rule);
}

} // verus!
