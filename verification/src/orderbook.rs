//! A local order book that is kept in step with an exchange by snapshots and
//! numbered updates.

use vstd::prelude::*;

use crate::decimal::Decimal;

verus! {

/// A quantity on offer at a price.
#[derive(Debug, Clone, Copy, PartialEq, Eq)]
pub struct PriceLevel {
    pub price: Decimal,
    pub qty: Decimal,
}

/// The whole book as the exchange had it at an update.
#[derive(Debug, Clone, PartialEq, Eq)]
pub struct OrderBookSnapshot {
    pub last_update_id: u64,
    pub bids: Vec<PriceLevel>,
    pub asks: Vec<PriceLevel>,
    pub snapshot_time_ms: Option<u64>,
}

/// The changes that a range of updates made to the book.
#[derive(Debug, Clone, PartialEq, Eq)]
pub struct OrderBookDiff {
    pub first_update_id: u64,
    pub final_update_id: u64,
    pub prev_final_update_id: Option<u64>,
    pub bids: Vec<PriceLevel>,
    pub asks: Vec<PriceLevel>,
    pub event_time_ms: Option<u64>,
    pub receive_time_ms: Option<u64>,
}

/// What a snapshot says.
pub struct SnapshotView {
    pub last_update_id: u64,
    pub bids: Seq<PriceLevel>,
    pub asks: Seq<PriceLevel>,
    pub snapshot_time_ms: Option<u64>,
}

impl View for OrderBookSnapshot {
    type V = SnapshotView;

    open spec fn view(&self) -> SnapshotView {
        SnapshotView {
            last_update_id: self.last_update_id,
            bids: self.bids@,
            asks: self.asks@,
            snapshot_time_ms: self.snapshot_time_ms,
        }
    }
}

/// What changes say.
pub struct DiffView {
    pub first_update_id: u64,
    pub final_update_id: u64,
    pub prev_final_update_id: Option<u64>,
    pub bids: Seq<PriceLevel>,
    pub asks: Seq<PriceLevel>,
    pub event_time_ms: Option<u64>,
    pub receive_time_ms: Option<u64>,
}

impl View for OrderBookDiff {
    type V = DiffView;

    open spec fn view(&self) -> DiffView {
        DiffView {
            first_update_id: self.first_update_id,
            final_update_id: self.final_update_id,
            prev_final_update_id: self.prev_final_update_id,
            bids: self.bids@,
            asks: self.asks@,
            event_time_ms: self.event_time_ms,
            receive_time_ms: self.receive_time_ms,
        }
    }
}

/// What became of changes that were no error.
#[derive(Debug, Clone, Copy, PartialEq, Eq, Structural)]
pub enum ApplyOutcome {
    Applied,
    IgnoredStale,
}

/// Why changes could not be applied.
#[derive(Debug, Clone, Copy, PartialEq, Eq)]
pub enum OrderBookError {
    NotSynced,
    InvalidUpdateRange { first_update_id: u64, final_update_id: u64 },
    SequenceGap {
        expected_next: u64,
        got_first: u64,
        got_final: u64,
        got_prev_final: Option<u64>,
    },
}

/// The best level of each side.
#[derive(Debug, Clone, Copy, PartialEq, Eq)]
pub struct TopOfBook {
    pub bid: Option<PriceLevel>,
    pub ask: Option<PriceLevel>,
}

/// One side of a book: the level at each price, by the amount of the price.
pub type Side = Map<int, PriceLevel>;

/// A side after the quantity at a price was set: gone where the quantity is
/// not above zero. A price that is there already stays as it is written.
pub open spec fn with_level(side: Side, level: PriceLevel) -> Side {
    let key = level.price.amount();
    if level.qty.amount() <= 0 {
        side.remove(key)
    } else if side.dom().contains(key) {
        side.insert(key, PriceLevel { price: side[key].price, qty: level.qty })
    } else {
        side.insert(key, level)
    }
}

/// A side after a list of quantities was set, one after the other.
pub open spec fn with_levels(side: Side, levels: Seq<PriceLevel>) -> Side
    decreases levels.len(),
{
    if levels.len() == 0 {
        side
    } else {
        with_level(with_levels(side, levels.drop_last()), levels.last())
    }
}

/// Whether every level of a side stands under its own price and offers
/// something.
pub open spec fn side_is_sound(side: Side) -> bool {
    forall|key: int| #[trigger]
        side.dom().contains(key) ==> side[key].price.amount() == key && side[key].qty.amount() > 0
}

/// Whether a list holds the levels of a side with the lowest prices, from the
/// lowest on: as many as there are, up to a limit.
pub open spec fn lists_lowest(side: Side, limit: nat, list: Seq<PriceLevel>) -> bool {
    &&& side.dom().finite()
    &&& list.len() == if limit <= side.dom().len() {
        limit
    } else {
        side.dom().len()
    }
    &&& forall|i: int|
        0 <= i < list.len() ==> side.dom().contains((#[trigger] list[i]).price.amount())
            && side[list[i].price.amount()] == list[i]
    &&& forall|i: int, j: int|
        0 <= i < j < list.len() ==> (#[trigger] list[i]).price.amount() < (
        #[trigger] list[j]).price.amount()
    &&& forall|key: int, i: int|
        #![trigger side.dom().contains(key), list[i]]
        side.dom().contains(key) && 0 <= i < list.len() && key < list[i].price.amount() ==> exists|j: int|
            0 <= j < i && (#[trigger] list[j]).price.amount() == key
}

/// Whether a list holds the levels of a side with the highest prices, from the
/// highest on: as many as there are, up to a limit.
pub open spec fn lists_highest(side: Side, limit: nat, list: Seq<PriceLevel>) -> bool {
    &&& side.dom().finite()
    &&& list.len() == if limit <= side.dom().len() {
        limit
    } else {
        side.dom().len()
    }
    &&& forall|i: int|
        0 <= i < list.len() ==> side.dom().contains((#[trigger] list[i]).price.amount())
            && side[list[i].price.amount()] == list[i]
    &&& forall|i: int, j: int|
        0 <= i < j < list.len() ==> (#[trigger] list[i]).price.amount() > (
        #[trigger] list[j]).price.amount()
    &&& forall|key: int, i: int|
        #![trigger side.dom().contains(key), list[i]]
        side.dom().contains(key) && 0 <= i < list.len() && key > list[i].price.amount() ==> exists|j: int|
            0 <= j < i && (#[trigger] list[j]).price.amount() == key
}

spec fn ascending(levels: Seq<PriceLevel>) -> bool {
    forall|i: int, j: int|
        0 <= i < j < levels.len() ==> (#[trigger] levels[i]).price.amount() < (
        #[trigger] levels[j]).price.amount()
}

spec fn offering(levels: Seq<PriceLevel>) -> bool {
    forall|i: int| 0 <= i < levels.len() ==> (#[trigger] levels[i]).qty.amount() > 0
}

spec fn has_price(levels: Seq<PriceLevel>, key: int) -> bool {
    exists|i: int| 0 <= i < levels.len() && (#[trigger] levels[i]).price.amount() == key
}

spec fn place_of_price(levels: Seq<PriceLevel>, key: int) -> int {
    choose|i: int| 0 <= i < levels.len() && (#[trigger] levels[i]).price.amount() == key
}

spec fn side_of(levels: Seq<PriceLevel>) -> Side {
    Map::new(|key: int| has_price(levels, key), |key: int| levels[place_of_price(levels, key)])
}

proof fn lemma_level(levels: Seq<PriceLevel>, i: int)
    requires
        ascending(levels),
        0 <= i < levels.len(),
    ensures
        side_of(levels).dom().contains(levels[i].price.amount()),
        side_of(levels)[levels[i].price.amount()] == levels[i],
{
    let key = levels[i].price.amount();
    let j = place_of_price(levels, key);
    assert(0 <= j < levels.len() && levels[j].price.amount() == key);
    if j < i {
        assert(levels[j].price.amount() < levels[i].price.amount());
    } else if i < j {
        assert(levels[i].price.amount() < levels[j].price.amount());
    }
}

/// A side has as many levels as there are in its list.
proof fn lemma_side_size(levels: Seq<PriceLevel>)
    requires
        ascending(levels),
    ensures
        side_of(levels).dom().finite(),
        side_of(levels).dom().len() == levels.len(),
{
    let prices = levels.map_values(|l: PriceLevel| l.price.amount());
    assert(prices.no_duplicates()) by {
        assert forall|i: int, j: int|
            0 <= i < prices.len() && 0 <= j < prices.len() && i != j implies prices[i] != prices[j] by {
            if i < j {
                assert(levels[i].price.amount() < levels[j].price.amount());
            } else {
                assert(levels[j].price.amount() < levels[i].price.amount());
            }
        }
    }
    prices.unique_seq_to_set();
    assert(prices.to_set() =~= side_of(levels).dom()) by {
        assert forall|key: int| prices.to_set().contains(key) <==> side_of(levels).dom().contains(key) by {
            if prices.contains(key) {
                let i = choose|i: int| 0 <= i < prices.len() && prices[i] == key;
                assert(levels[i].price.amount() == key);
            }
            if has_price(levels, key) {
                let i = place_of_price(levels, key);
                assert(prices[i] == key);
            }
        }
    }
}

/// One side of a book, in the order of prices.
#[derive(Debug)]
pub struct BookSide {
    levels: Vec<PriceLevel>,
}

impl View for BookSide {
    type V = Side;

    closed spec fn view(&self) -> Side {
        side_of(self.levels@)
    }
}

impl BookSide {
    #[verifier::type_invariant]
    spec fn well_formed(self) -> bool {
        ascending(self.levels@) && offering(self.levels@)
    }

    /// A side without levels.
    pub fn new() -> (r: BookSide)
        ensures
            r@ == Side::empty(),
    {
        let r = BookSide { levels: Vec::new() };
        proof {
            assert(r@ =~= Side::empty());
        }
        r
    }

    /// The first place whose price is not below a price.
    fn seek(&self, price: Decimal) -> (r: usize)
        ensures
            r <= self.levels@.len(),
            forall|i: int| 0 <= i < r ==> (#[trigger] self.levels@[i]).price.amount() < price.amount(),
            forall|i: int|
                r <= i < self.levels@.len() ==> (#[trigger] self.levels@[i]).price.amount()
                    >= price.amount(),
    {
        proof {
            use_type_invariant(self);
        }
        let mut low: usize = 0;
        let mut high: usize = self.levels.len();
        while low < high
            invariant
                low <= high <= self.levels@.len(),
                ascending(self.levels@),
                forall|i: int|
                    0 <= i < low ==> (#[trigger] self.levels@[i]).price.amount() < price.amount(),
                forall|i: int|
                    high <= i < self.levels@.len() ==> (#[trigger] self.levels@[i]).price.amount()
                        >= price.amount(),
            decreases high - low,
        {
            let mid: usize = low + (high - low) / 2;
            if self.levels[mid].price.below(price) {
                low = mid + 1;
            } else {
                high = mid;
            }
        }
        low
    }

    /// Sets the quantity at a price.
    pub fn set(&mut self, level: PriceLevel)
        ensures
            final(self)@ == with_level(old(self)@, level),
    {
        proof {
            use_type_invariant(&*self);
        }
        let ghost before = self.levels@;
        let at: usize = self.seek(level.price);
        let mut levels: Vec<PriceLevel> = Vec::new();
        std::mem::swap(&mut levels, &mut self.levels);
        let listed: bool = at < levels.len() && !level.price.below(levels[at].price);
        let ghost key = level.price.amount();
        proof {
            if listed {
                lemma_level(before, at as int);
            } else {
                assert(!has_price(before, key)) by {
                    if has_price(before, key) {
                        let i = place_of_price(before, key);
                        assert(i >= at);
                        if i > at {
                            assert(before[at as int].price.amount() < before[i].price.amount());
                        }
                    }
                }
            }
        }
        if level.qty.is_positive() {
            if listed {
                let kept: PriceLevel = PriceLevel { price: levels[at].price, qty: level.qty };
                levels.set(at, kept);
                proof {
                    lemma_replaced(before, at as int, kept);
                }
            } else {
                levels.insert(at, level);
                proof {
                    lemma_inserted(before, at as int, level);
                }
            }
        } else if listed {
            levels.remove(at);
            proof {
                lemma_removed(before, at as int);
            }
        } else {
            proof {
                assert(side_of(before).remove(key) =~= side_of(before));
            }
        }
        self.levels = levels;
    }

    /// The number of levels.
    pub fn len(&self) -> (r: usize)
        ensures
            self@.dom().finite(),
            r == self@.dom().len(),
    {
        proof {
            use_type_invariant(self);
            lemma_side_size(self.levels@);
        }
        self.levels.len()
    }

    /// The level with the lowest price.
    pub fn lowest(&self) -> (r: Option<PriceLevel>)
        ensures
            side_is_sound(self@),
            is_lowest(self@, r),
    {
        proof {
            use_type_invariant(self);
            lemma_sound(self.levels@);
        }
        if self.levels.len() == 0 {
            proof {
                assert(self@ =~= Side::empty());
            }
            return None;
        }
        proof {
            lemma_level(self.levels@, 0);
            assert forall|key: int| #[trigger] self@.dom().contains(key) implies self.levels@[0].price.amount()
                <= key by {
                let i = place_of_price(self.levels@, key);
                if i > 0 {
                    assert(self.levels@[0].price.amount() < self.levels@[i].price.amount());
                }
            }
        }
        Some(self.levels[0])
    }

    /// The level with the highest price.
    pub fn highest(&self) -> (r: Option<PriceLevel>)
        ensures
            side_is_sound(self@),
            is_highest(self@, r),
    {
        proof {
            use_type_invariant(self);
            lemma_sound(self.levels@);
        }
        let n: usize = self.levels.len();
        if n == 0 {
            proof {
                assert(self@ =~= Side::empty());
            }
            return None;
        }
        proof {
            lemma_level(self.levels@, n - 1);
            assert forall|key: int| #[trigger] self@.dom().contains(key) implies key <= self.levels@[n
                - 1].price.amount() by {
                let i = place_of_price(self.levels@, key);
                if i < n - 1 {
                    assert(self.levels@[i].price.amount() < self.levels@[n - 1].price.amount());
                }
            }
        }
        Some(self.levels[n - 1])
    }

    /// The levels with the lowest prices, from the lowest on.
    pub fn lowest_first(&self, limit: usize) -> (r: Vec<PriceLevel>)
        ensures
            side_is_sound(self@),
            lists_lowest(self@, limit as nat, r@),
    {
        proof {
            use_type_invariant(self);
            lemma_sound(self.levels@);
            lemma_side_size(self.levels@);
        }
        let n: usize = if limit <= self.levels.len() {
            limit
        } else {
            self.levels.len()
        };
        let mut out: Vec<PriceLevel> = Vec::new();
        let mut i: usize = 0;
        while i < n
            invariant
                i <= n <= self.levels@.len(),
                out@ == self.levels@.take(i as int),
            decreases n - i,
        {
            out.push(self.levels[i]);
            proof {
                assert(self.levels@.take(i as int).push(self.levels@[i as int]) =~= self.levels@.take(
                    i + 1,
                ));
            }
            i = i + 1;
        }
        proof {
            let levels = self.levels@;
            assert forall|i: int| 0 <= i < out@.len() implies self@.dom().contains(
                (#[trigger] out@[i]).price.amount(),
            ) && self@[out@[i].price.amount()] == out@[i] by {
                lemma_level(levels, i);
            }
            assert forall|key: int, i: int|
                #![trigger self@.dom().contains(key), out@[i]]
                self@.dom().contains(key) && 0 <= i < out@.len() && key < out@[i].price.amount() implies exists|
                j: int,
            | 0 <= j < i && (#[trigger] out@[j]).price.amount() == key by {
                let j = place_of_price(levels, key);
                if j > i {
                    assert(levels[i].price.amount() < levels[j].price.amount());
                }
                assert(out@[j].price.amount() == key);
            }
        }
        out
    }

    /// The levels with the highest prices, from the highest on.
    pub fn highest_first(&self, limit: usize) -> (r: Vec<PriceLevel>)
        ensures
            side_is_sound(self@),
            lists_highest(self@, limit as nat, r@),
    {
        proof {
            use_type_invariant(self);
            lemma_sound(self.levels@);
            lemma_side_size(self.levels@);
        }
        let m: usize = self.levels.len();
        let n: usize = if limit <= m {
            limit
        } else {
            m
        };
        let mut out: Vec<PriceLevel> = Vec::new();
        let mut i: usize = 0;
        while i < n
            invariant
                i <= n <= m == self.levels@.len(),
                out@.len() == i,
                forall|j: int| 0 <= j < i ==> out@[j] == self.levels@[m - 1 - j],
            decreases n - i,
        {
            out.push(self.levels[m - 1 - i]);
            i = i + 1;
        }
        proof {
            let levels = self.levels@;
            assert forall|i: int| 0 <= i < out@.len() implies self@.dom().contains(
                (#[trigger] out@[i]).price.amount(),
            ) && self@[out@[i].price.amount()] == out@[i] by {
                lemma_level(levels, m - 1 - i);
            }
            assert forall|i: int, j: int| 0 <= i < j < out@.len() implies (#[trigger] out@[i]).price.amount()
                > (#[trigger] out@[j]).price.amount() by {
                assert(levels[m - 1 - j].price.amount() < levels[m - 1 - i].price.amount());
            }
            assert forall|key: int, i: int|
                #![trigger self@.dom().contains(key), out@[i]]
                self@.dom().contains(key) && 0 <= i < out@.len() && key > out@[i].price.amount() implies exists|
                j: int,
            | 0 <= j < i && (#[trigger] out@[j]).price.amount() == key by {
                let p = place_of_price(levels, key);
                let j = m - 1 - p;
                if j > i {
                    assert(levels[p].price.amount() < levels[m - 1 - i].price.amount());
                }
                assert(out@[j].price.amount() == key);
            }
        }
        out
    }
}

/// Whether a level is the one of a side with the lowest price; none where the
/// side is empty.
pub open spec fn is_lowest(side: Side, level: Option<PriceLevel>) -> bool {
    match level {
        Some(l) => {
            &&& side.dom().contains(l.price.amount())
            &&& side[l.price.amount()] == l
            &&& forall|key: int| #[trigger] side.dom().contains(key) ==> l.price.amount() <= key
        },
        None => side == Side::empty(),
    }
}

/// Whether a level is the one of a side with the highest price; none where the
/// side is empty.
pub open spec fn is_highest(side: Side, level: Option<PriceLevel>) -> bool {
    match level {
        Some(l) => {
            &&& side.dom().contains(l.price.amount())
            &&& side[l.price.amount()] == l
            &&& forall|key: int| #[trigger] side.dom().contains(key) ==> key <= l.price.amount()
        },
        None => side == Side::empty(),
    }
}

proof fn lemma_sound(levels: Seq<PriceLevel>)
    requires
        ascending(levels),
        offering(levels),
    ensures
        side_is_sound(side_of(levels)),
{
    assert forall|key: int| #[trigger] side_of(levels).dom().contains(key) implies side_of(
        levels,
    )[key].price.amount() == key && side_of(levels)[key].qty.amount() > 0 by {
        let i = place_of_price(levels, key);
        assert(levels[i].price.amount() == key);
    }
}

proof fn lemma_replaced(levels: Seq<PriceLevel>, at: int, level: PriceLevel)
    requires
        ascending(levels),
        offering(levels),
        0 <= at < levels.len(),
        level.price == levels[at].price,
        level.qty.amount() > 0,
    ensures
        ascending(levels.update(at, level)),
        offering(levels.update(at, level)),
        side_of(levels.update(at, level)) == side_of(levels).insert(level.price.amount(), level),
{
    let after = levels.update(at, level);
    assert(ascending(after)) by {
        assert forall|i: int, j: int| 0 <= i < j < after.len() implies (
        #[trigger] after[i]).price.amount() < (#[trigger] after[j]).price.amount() by {
            assert(levels[i].price.amount() < levels[j].price.amount());
        }
    }
    assert forall|key: int| side_of(after).dom().contains(key) <==> side_of(levels).insert(
        level.price.amount(),
        level,
    ).dom().contains(key) by {
        if has_price(after, key) {
            let i = place_of_price(after, key);
            assert(levels[i].price.amount() == key);
        }
        if has_price(levels, key) {
            let i = place_of_price(levels, key);
            assert(after[i].price.amount() == key);
        }
        assert(after[at].price.amount() == level.price.amount());
    }
    assert forall|key: int| side_of(after).dom().contains(key) implies side_of(after)[key] == side_of(
        levels,
    ).insert(level.price.amount(), level)[key] by {
        let i = place_of_price(after, key);
        lemma_level(after, i);
        lemma_level(levels, i);
        if i < at {
            assert(after[i].price.amount() < after[at].price.amount());
        } else if i > at {
            assert(after[at].price.amount() < after[i].price.amount());
        }
    }
    assert(side_of(after) =~= side_of(levels).insert(level.price.amount(), level));
}

proof fn lemma_inserted(levels: Seq<PriceLevel>, at: int, level: PriceLevel)
    requires
        ascending(levels),
        offering(levels),
        0 <= at <= levels.len(),
        level.qty.amount() > 0,
        forall|i: int| 0 <= i < at ==> (#[trigger] levels[i]).price.amount() < level.price.amount(),
        forall|i: int|
            at <= i < levels.len() ==> (#[trigger] levels[i]).price.amount() > level.price.amount(),
    ensures
        ascending(levels.insert(at, level)),
        offering(levels.insert(at, level)),
        side_of(levels.insert(at, level)) == side_of(levels).insert(level.price.amount(), level),
{
    let after = levels.insert(at, level);
    assert forall|i: int| 0 <= i < after.len() implies #[trigger] after[i] == (if i < at {
        levels[i]
    } else if i == at {
        level
    } else {
        levels[i - 1]
    }) by {}
    assert(ascending(after));
    assert forall|key: int| side_of(after).dom().contains(key) <==> side_of(levels).insert(
        level.price.amount(),
        level,
    ).dom().contains(key) by {
        if has_price(after, key) {
            let i = place_of_price(after, key);
            if i < at {
                assert(levels[i].price.amount() == key);
            } else if i > at {
                assert(levels[i - 1].price.amount() == key);
            }
        }
        if has_price(levels, key) {
            let i = place_of_price(levels, key);
            assert(after[if i < at {
                i
            } else {
                i + 1
            }].price.amount() == key);
        }
        assert(after[at].price.amount() == level.price.amount());
    }
    assert forall|key: int| side_of(after).dom().contains(key) implies side_of(after)[key] == side_of(
        levels,
    ).insert(level.price.amount(), level)[key] by {
        let i = place_of_price(after, key);
        lemma_level(after, i);
        if i < at {
            lemma_level(levels, i);
        } else if i > at {
            lemma_level(levels, i - 1);
        }
    }
    assert(side_of(after) =~= side_of(levels).insert(level.price.amount(), level));
}

proof fn lemma_removed(levels: Seq<PriceLevel>, at: int)
    requires
        ascending(levels),
        offering(levels),
        0 <= at < levels.len(),
    ensures
        ascending(levels.remove(at)),
        offering(levels.remove(at)),
        side_of(levels.remove(at)) == side_of(levels).remove(levels[at].price.amount()),
{
    let after = levels.remove(at);
    let gone = levels[at].price.amount();
    assert forall|i: int| 0 <= i < after.len() implies #[trigger] after[i] == levels[if i < at {
        i
    } else {
        i + 1
    }] by {}
    assert(ascending(after));
    assert forall|key: int| side_of(after).dom().contains(key) <==> side_of(levels).remove(
        gone,
    ).dom().contains(key) by {
        if has_price(after, key) {
            let i = place_of_price(after, key);
            let b = if i < at {
                i
            } else {
                i + 1
            };
            assert(levels[b].price.amount() == key);
            if b < at {
                assert(levels[b].price.amount() < levels[at].price.amount());
            } else {
                assert(levels[at].price.amount() < levels[b].price.amount());
            }
        }
        if has_price(levels, key) && key != gone {
            let i = place_of_price(levels, key);
            assert(after[if i < at {
                i
            } else {
                i - 1
            }].price.amount() == key);
        }
    }
    assert forall|key: int| side_of(after).dom().contains(key) implies side_of(after)[key] == side_of(
        levels,
    ).remove(gone)[key] by {
        let i = place_of_price(after, key);
        lemma_level(after, i);
        lemma_level(levels, if i < at {
            i
        } else {
            i + 1
        });
    }
    assert(side_of(after) =~= side_of(levels).remove(gone));
}

/// Sets a list of quantities, one after the other.
pub fn apply_side_updates(side: &mut BookSide, levels: Vec<PriceLevel>)
    ensures
        final(side)@ == with_levels(old(side)@, levels@),
{
    let ghost start = side@;
    let mut i: usize = 0;
    proof {
        assert(levels@.take(0) =~= Seq::<PriceLevel>::empty());
    }
    while i < levels.len()
        invariant
            i <= levels@.len(),
            side@ == with_levels(start, levels@.take(i as int)),
        decreases levels@.len() - i,
    {
        proof {
            assert(levels@.take(i + 1).drop_last() =~= levels@.take(i as int));
        }
        side.set(levels[i]);
        i = i + 1;
    }
    proof {
        assert(levels@.take(i as int) =~= levels@);
    }
}

/// What an order book holds.
pub struct BookView {
    pub symbol: Seq<char>,
    pub bids: Side,
    pub asks: Side,
    pub synced: bool,
    pub last_update_id: Option<u64>,
    pub last_snapshot_time_ms: Option<u64>,
    pub last_event_time_ms: Option<u64>,
    pub last_receive_time_ms: Option<u64>,
}

/// A book that has not seen a snapshot.
pub open spec fn fresh_book(symbol: Seq<char>) -> BookView {
    BookView {
        symbol,
        bids: Side::empty(),
        asks: Side::empty(),
        synced: false,
        last_update_id: None,
        last_snapshot_time_ms: None,
        last_event_time_ms: None,
        last_receive_time_ms: None,
    }
}

/// A book after its levels were dropped.
pub open spec fn unsynced(book: BookView) -> BookView {
    BookView {
        bids: Side::empty(),
        asks: Side::empty(),
        synced: false,
        last_update_id: None,
        ..book
    }
}

/// A book after a snapshot took the place of its levels.
pub open spec fn after_snapshot(book: BookView, snapshot: SnapshotView) -> BookView {
    BookView {
        bids: with_levels(Side::empty(), snapshot.bids),
        asks: with_levels(Side::empty(), snapshot.asks),
        synced: true,
        last_update_id: Some(snapshot.last_update_id),
        last_snapshot_time_ms: snapshot.snapshot_time_ms,
        last_receive_time_ms: snapshot.snapshot_time_ms,
        ..book
    }
}

/// The number of the update that has to follow.
pub open spec fn next_id(id: u64) -> u64 {
    if id < u64::MAX {
        (id + 1) as u64
    } else {
        id
    }
}

/// Whether a range of updates is one: numbered from one on, first to last.
pub open spec fn valid_range(diff: DiffView) -> bool {
    0 < diff.first_update_id <= diff.final_update_id
}

/// Whether changes carry on from an update: by the number of the update
/// before them where they give one, otherwise by holding the next number.
pub open spec fn carries_on(diff: DiffView, last_update_id: u64) -> bool {
    match diff.prev_final_update_id {
        Some(prev) => prev == last_update_id,
        None => diff.first_update_id <= next_id(last_update_id) <= diff.final_update_id,
    }
}

/// What comes of applying changes to a book.
pub open spec fn diff_result(book: BookView, diff: DiffView) -> Result<ApplyOutcome, OrderBookError> {
    if !book.synced || (valid_range(diff) && book.last_update_id is None) {
        Err(OrderBookError::NotSynced)
    } else if !valid_range(diff) {
        Err(
            OrderBookError::InvalidUpdateRange {
                first_update_id: diff.first_update_id,
                final_update_id: diff.final_update_id,
            },
        )
    } else if diff.final_update_id <= book.last_update_id->0 {
        Ok(ApplyOutcome::IgnoredStale)
    } else if carries_on(diff, book.last_update_id->0) {
        Ok(ApplyOutcome::Applied)
    } else {
        Err(
            OrderBookError::SequenceGap {
                expected_next: next_id(book.last_update_id->0),
                got_first: diff.first_update_id,
                got_final: diff.final_update_id,
                got_prev_final: diff.prev_final_update_id,
            },
        )
    }
}

/// A book after changes: changed where they were applied, out of step where
/// there is a gap before them, and as it was otherwise.
pub open spec fn after_diff(book: BookView, diff: DiffView) -> BookView {
    match diff_result(book, diff) {
        Ok(ApplyOutcome::Applied) => BookView {
            bids: with_levels(book.bids, diff.bids),
            asks: with_levels(book.asks, diff.asks),
            last_update_id: Some(diff.final_update_id),
            last_event_time_ms: diff.event_time_ms,
            last_receive_time_ms: diff.receive_time_ms,
            ..book
        },
        Err(OrderBookError::SequenceGap { .. }) => BookView { synced: false, ..book },
        _ => book,
    }
}

impl Clone for BookSide {
    fn clone(&self) -> (r: BookSide)
        ensures
            r@ == self@,
    {
        proof {
            use_type_invariant(self);
        }
        let mut levels: Vec<PriceLevel> = Vec::new();
        for i in 0..self.levels.len()
            invariant
                levels@ == self.levels@.take(i as int),
        {
            proof {
                assert(self.levels@.take(i as int).push(self.levels@[i as int])
                    =~= self.levels@.take(i + 1));
            }
            levels.push(self.levels[i]);
        }
        proof {
            assert(self.levels@.take(self.levels@.len() as int) =~= self.levels@);
        }
        BookSide { levels }
    }
}

/// A local order book.
#[derive(Debug)]
pub struct OrderBook {
    symbol: String,
    bids: BookSide,
    asks: BookSide,
    synced: bool,
    last_update_id: Option<u64>,
    last_snapshot_time_ms: Option<u64>,
    last_event_time_ms: Option<u64>,
    last_receive_time_ms: Option<u64>,
}

impl View for OrderBook {
    type V = BookView;

    closed spec fn view(&self) -> BookView {
        BookView {
            symbol: self.symbol@,
            bids: self.bids@,
            asks: self.asks@,
            synced: self.synced,
            last_update_id: self.last_update_id,
            last_snapshot_time_ms: self.last_snapshot_time_ms,
            last_event_time_ms: self.last_event_time_ms,
            last_receive_time_ms: self.last_receive_time_ms,
        }
    }
}

impl Clone for OrderBook {
    fn clone(&self) -> (r: OrderBook)
        ensures
            r@ == self@,
    {
        OrderBook {
            symbol: self.symbol.clone(),
            bids: self.bids.clone(),
            asks: self.asks.clone(),
            synced: self.synced,
            last_update_id: self.last_update_id,
            last_snapshot_time_ms: self.last_snapshot_time_ms,
            last_event_time_ms: self.last_event_time_ms,
            last_receive_time_ms: self.last_receive_time_ms,
        }
    }
}

impl OrderBook {
    /// A book that has not seen a snapshot.
    pub fn new(symbol: String) -> (r: OrderBook)
        ensures
            r@ == fresh_book(symbol@),
    {
        OrderBook {
            symbol,
            bids: BookSide::new(),
            asks: BookSide::new(),
            synced: false,
            last_update_id: None,
            last_snapshot_time_ms: None,
            last_event_time_ms: None,
            last_receive_time_ms: None,
        }
    }

    pub fn symbol(&self) -> (r: &str)
        ensures
            r@ == self@.symbol,
    {
        self.symbol.as_str()
    }

    pub fn is_synced(&self) -> (r: bool)
        ensures
            r == self@.synced,
    {
        self.synced
    }

    pub fn last_update_id(&self) -> (r: Option<u64>)
        ensures
            r == self@.last_update_id,
    {
        self.last_update_id
    }

    pub fn last_snapshot_time_ms(&self) -> (r: Option<u64>)
        ensures
            r == self@.last_snapshot_time_ms,
    {
        self.last_snapshot_time_ms
    }

    pub fn last_event_time_ms(&self) -> (r: Option<u64>)
        ensures
            r == self@.last_event_time_ms,
    {
        self.last_event_time_ms
    }

    pub fn last_receive_time_ms(&self) -> (r: Option<u64>)
        ensures
            r == self@.last_receive_time_ms,
    {
        self.last_receive_time_ms
    }

    /// Drops the levels, so that a snapshot is needed before changes count.
    pub fn clear_and_mark_unsynced(&mut self)
        ensures
            final(self)@ == unsynced(old(self)@),
    {
        self.bids = BookSide::new();
        self.asks = BookSide::new();
        self.synced = false;
        self.last_update_id = None;
    }

    /// Puts a snapshot in the place of the levels.
    pub fn apply_snapshot(&mut self, snapshot: OrderBookSnapshot)
        ensures
            final(self)@ == after_snapshot(old(self)@, snapshot@),
    {
        let mut bids: BookSide = BookSide::new();
        let mut asks: BookSide = BookSide::new();
        apply_side_updates(&mut bids, snapshot.bids);
        apply_side_updates(&mut asks, snapshot.asks);
        self.bids = bids;
        self.asks = asks;
        self.synced = true;
        self.last_update_id = Some(snapshot.last_update_id);
        self.last_snapshot_time_ms = snapshot.snapshot_time_ms;
        self.last_receive_time_ms = snapshot.snapshot_time_ms;
    }

    /// Applies changes where they carry on from the last update. A gap before
    /// them puts the book out of step.
    pub fn apply_diff(&mut self, diff: OrderBookDiff) -> (r: Result<ApplyOutcome, OrderBookError>)
        ensures
            r == diff_result(old(self)@, diff@),
            final(self)@ == after_diff(old(self)@, diff@),
    {
        if !self.synced {
            return Err(OrderBookError::NotSynced);
        }
        if diff.first_update_id == 0 || diff.final_update_id == 0 || diff.first_update_id
            > diff.final_update_id {
            return Err(
                OrderBookError::InvalidUpdateRange {
                    first_update_id: diff.first_update_id,
                    final_update_id: diff.final_update_id,
                },
            );
        }
        let last_update_id: u64 = match self.last_update_id {
            Some(id) => id,
            None => {
                return Err(OrderBookError::NotSynced);
            },
        };
        if diff.final_update_id <= last_update_id {
            return Ok(ApplyOutcome::IgnoredStale);
        }
        let expected_next: u64 = last_update_id.saturating_add(1);
        let gap: bool = match diff.prev_final_update_id {
            Some(prev_final) => prev_final != last_update_id,
            None => diff.first_update_id > expected_next || diff.final_update_id < expected_next,
        };
        if gap {
            self.synced = false;
            return Err(
                OrderBookError::SequenceGap {
                    expected_next,
                    got_first: diff.first_update_id,
                    got_final: diff.final_update_id,
                    got_prev_final: diff.prev_final_update_id,
                },
            );
        }
        apply_side_updates(&mut self.bids, diff.bids);
        apply_side_updates(&mut self.asks, diff.asks);
        self.last_update_id = Some(diff.final_update_id);
        self.last_event_time_ms = diff.event_time_ms;
        self.last_receive_time_ms = diff.receive_time_ms;
        Ok(ApplyOutcome::Applied)
    }

    /// The bid with the highest price.
    pub fn best_bid(&self) -> (r: Option<PriceLevel>)
        ensures
            is_highest(self@.bids, r),
            side_is_sound(self@.bids),
    {
        self.bids.highest()
    }

    /// The ask with the lowest price.
    pub fn best_ask(&self) -> (r: Option<PriceLevel>)
        ensures
            is_lowest(self@.asks, r),
            side_is_sound(self@.asks),
    {
        self.asks.lowest()
    }

    /// The best level of each side.
    pub fn top_of_book(&self) -> (r: TopOfBook)
        ensures
            is_highest(self@.bids, r.bid),
            is_lowest(self@.asks, r.ask),
            side_is_sound(self@.bids),
            side_is_sound(self@.asks),
    {
        TopOfBook { bid: self.best_bid(), ask: self.best_ask() }
    }

    /// The number of bids.
    pub fn bid_depth_len(&self) -> (r: usize)
        ensures
            self@.bids.dom().finite(),
            r == self@.bids.dom().len(),
    {
        self.bids.len()
    }

    /// The number of asks.
    pub fn ask_depth_len(&self) -> (r: usize)
        ensures
            self@.asks.dom().finite(),
            r == self@.asks.dom().len(),
    {
        self.asks.len()
    }

    /// The best bids, from the highest price on.
    pub fn top_bids(&self, limit: usize) -> (r: Vec<PriceLevel>)
        ensures
            lists_highest(self@.bids, limit as nat, r@),
            side_is_sound(self@.bids),
    {
        self.bids.highest_first(limit)
    }

    /// The best asks, from the lowest price on.
    pub fn top_asks(&self, limit: usize) -> (r: Vec<PriceLevel>)
        ensures
            lists_lowest(self@.asks, limit as nat, r@),
            side_is_sound(self@.asks),
    {
        self.asks.lowest_first(limit)
    }

    /// Whether the best bid is not below the best ask.
    pub fn is_crossed(&self) -> (r: bool)
        ensures
            r == crossed(self@),
    {
        match (self.best_bid(), self.best_ask()) {
            (Some(bid), Some(ask)) => {
                let r: bool = !bid.price.below(ask.price);
                proof {
                    if r {
                        assert(self@.bids.dom().contains(bid.price.amount()));
                        assert(self@.asks.dom().contains(ask.price.amount()));
                    }
                }
                r
            },
            _ => false,
        }
    }
}

/// Whether some bid is not below some ask.
pub open spec fn crossed(book: BookView) -> bool {
    exists|bid: int, ask: int| #[trigger]
        book.bids.dom().contains(bid) && #[trigger] book.asks.dom().contains(ask) && bid >= ask
}

/// Setting quantities keeps a side sound: every level stands under its own
/// price and offers something.
pub proof fn law_sides_stay_sound(side: Side, levels: Seq<PriceLevel>)
    requires
        side_is_sound(side),
    ensures
        side_is_sound(with_levels(side, levels)),
    decreases levels.len(),
{
    if levels.len() > 0 {
        law_sides_stay_sound(side, levels.drop_last());
    }
}

/// After a list of quantities was set, a price holds what the last entry for
/// it says: nothing where that quantity is not above zero, and otherwise that
/// quantity.
pub proof fn law_last_entry_counts(side: Side, levels: Seq<PriceLevel>, i: int)
    requires
        0 <= i < levels.len(),
        forall|j: int|
            i < j < levels.len() ==> (#[trigger] levels[j]).price.amount() != levels[i].price.amount(),
    ensures
        ({
            let key = levels[i].price.amount();
            let after = with_levels(side, levels);
            &&& after.dom().contains(key) <==> levels[i].qty.amount() > 0
            &&& levels[i].qty.amount() > 0 ==> after[key].qty == levels[i].qty
        }),
    decreases levels.len(),
{
    if i < levels.len() - 1 {
        let rest = levels.drop_last();
        assert forall|j: int| i < j < rest.len() implies (#[trigger] rest[j]).price.amount()
            != rest[i].price.amount() by {
            assert(levels[j].price.amount() != levels[i].price.amount());
        }
        law_last_entry_counts(side, rest, i);
        assert(levels.last() == levels[levels.len() - 1]);
    }
}

/// A price that no entry names keeps its level.
pub proof fn law_other_prices_stay(side: Side, levels: Seq<PriceLevel>, key: int)
    requires
        forall|j: int| 0 <= j < levels.len() ==> (#[trigger] levels[j]).price.amount() != key,
    ensures
        with_levels(side, levels).dom().contains(key) == side.dom().contains(key),
        side.dom().contains(key) ==> with_levels(side, levels)[key] == side[key],
    decreases levels.len(),
{
    if levels.len() > 0 {
        assert(levels.last() == levels[levels.len() - 1]);
        assert forall|j: int| 0 <= j < levels.drop_last().len() implies (
        #[trigger] levels.drop_last()[j]).price.amount() != key by {
            assert(levels[j].price.amount() != key);
        }
        law_other_prices_stay(side, levels.drop_last(), key);
    }
}

/// A snapshot forgets what the book held: after the same snapshot two books agree
/// on their levels, the number of their last update, the times of the snapshot
/// and of its coming, and their being in step. Their symbols and the times of
/// their last events stay.
pub proof fn law_snapshot_replaces(a: BookView, b: BookView, snapshot: SnapshotView)
    ensures
        after_snapshot(a, snapshot).bids == after_snapshot(b, snapshot).bids,
        after_snapshot(a, snapshot).asks == after_snapshot(b, snapshot).asks,
        after_snapshot(a, snapshot).last_update_id == after_snapshot(b, snapshot).last_update_id,
        after_snapshot(a, snapshot).last_update_id == Some(snapshot.last_update_id),
        after_snapshot(a, snapshot).last_snapshot_time_ms == snapshot.snapshot_time_ms,
        after_snapshot(a, snapshot).last_receive_time_ms == snapshot.snapshot_time_ms,
        after_snapshot(b, snapshot).last_snapshot_time_ms == snapshot.snapshot_time_ms,
        after_snapshot(b, snapshot).last_receive_time_ms == snapshot.snapshot_time_ms,
        after_snapshot(a, snapshot).synced && after_snapshot(b, snapshot).synced,
        after_snapshot(a, snapshot).symbol == a.symbol,
        after_snapshot(a, snapshot).last_event_time_ms == a.last_event_time_ms,
{
}

/// Changes that do not go beyond the last update leave the book as it is.
pub proof fn law_stale_changes_nothing(book: BookView, diff: DiffView)
    requires
        diff_result(book, diff) == Ok::<ApplyOutcome, OrderBookError>(ApplyOutcome::IgnoredStale),
    ensures
        after_diff(book, diff) == book,
{
}

/// The number of the last update only grows while changes are applied.
pub proof fn law_updates_only_grow(book: BookView, diff: DiffView)
    requires
        diff_result(book, diff) == Ok::<ApplyOutcome, OrderBookError>(ApplyOutcome::Applied),
    ensures
        after_diff(book, diff).last_update_id->0 > book.last_update_id->0,
        after_diff(book, diff).last_update_id == Some(diff.final_update_id),
        after_diff(book, diff).synced,
{
}

/// Changes that were applied are stale the second time.
pub proof fn law_second_time_is_stale(book: BookView, diff: DiffView)
    requires
        diff_result(book, diff) == Ok::<ApplyOutcome, OrderBookError>(ApplyOutcome::Applied),
    ensures
        diff_result(after_diff(book, diff), diff) == Ok::<ApplyOutcome, OrderBookError>(
            ApplyOutcome::IgnoredStale,
        ),
{
}

/// After a gap the levels are as before, and all changes are refused until
/// there is a snapshot.
pub proof fn law_gap_needs_snapshot(
    book: BookView,
    gap: DiffView,
    later: DiffView,
    snapshot: SnapshotView,
)
    requires
        diff_result(book, gap) matches Err(OrderBookError::SequenceGap { .. }),
    ensures
        after_diff(book, gap).bids == book.bids,
        after_diff(book, gap).asks == book.asks,
        diff_result(after_diff(book, gap), later) == Err::<ApplyOutcome, OrderBookError>(
            OrderBookError::NotSynced,
        ),
        after_diff(after_diff(book, gap), later) == after_diff(book, gap),
        after_snapshot(after_diff(book, gap), snapshot).synced,
{
}

/// When changes are applied to a book: it is in step, they are numbered from
/// one on and first to last, they go beyond its last update, and they follow
/// it. A named update before them is its last one, neither older nor newer;
/// where none is named, their first number is at most one beyond the last.
pub proof fn law_applied_in_sequence(book: BookView, diff: DiffView)
    ensures
        diff_result(book, diff) == Ok::<ApplyOutcome, OrderBookError>(ApplyOutcome::Applied) <==> {
            &&& book.synced
            &&& book.last_update_id is Some
            &&& 0 < diff.first_update_id
            &&& diff.first_update_id <= diff.final_update_id
            &&& book.last_update_id->0 < diff.final_update_id
            &&& diff.prev_final_update_id is Some ==> diff.prev_final_update_id->0
                == book.last_update_id->0
            &&& diff.prev_final_update_id is None ==> diff.first_update_id
                <= book.last_update_id->0 + 1
        },
{
}

/// When there is a gap before changes: the book is in step, they are numbered
/// from one on and go beyond its last update, but the update that they name
/// before them is another one, older or newer, or none is named and their
/// first number is more than one beyond the last. The gap tells the number
/// that was due and the numbers that came, the book is out of step from there
/// on, and all else of it stays.
pub proof fn law_gap_is_told(book: BookView, diff: DiffView)
    ensures
        diff_result(book, diff) matches Err(OrderBookError::SequenceGap { .. }) <==> {
            &&& book.synced
            &&& book.last_update_id is Some
            &&& 0 < diff.first_update_id
            &&& diff.first_update_id <= diff.final_update_id
            &&& book.last_update_id->0 < diff.final_update_id
            &&& diff.prev_final_update_id is Some ==> diff.prev_final_update_id->0
                != book.last_update_id->0
            &&& diff.prev_final_update_id is None ==> diff.first_update_id
                > book.last_update_id->0 + 1
        },
        diff_result(book, diff) matches Err(
            OrderBookError::SequenceGap { expected_next, got_first, got_final, got_prev_final },
        ) ==> {
            &&& expected_next == book.last_update_id->0 + 1
            &&& got_first == diff.first_update_id
            &&& got_final == diff.final_update_id
            &&& got_prev_final == diff.prev_final_update_id
            &&& !after_diff(book, diff).synced
            &&& after_diff(book, diff).symbol == book.symbol
            &&& after_diff(book, diff).bids == book.bids
            &&& after_diff(book, diff).asks == book.asks
            &&& after_diff(book, diff).last_update_id == book.last_update_id
            &&& after_diff(book, diff).last_snapshot_time_ms == book.last_snapshot_time_ms
            &&& after_diff(book, diff).last_event_time_ms == book.last_event_time_ms
            &&& after_diff(book, diff).last_receive_time_ms == book.last_receive_time_ms
        },
{
}

/// When changes are neither applied nor behind a gap: the book is out of step
/// or has no last update, their numbers do not run from one on and first to
/// last, or they do not go beyond the last update. The book stays as it is.
pub proof fn law_refused_or_stale(book: BookView, diff: DiffView)
    ensures
        !book.synced ==> diff_result(book, diff) == Err::<ApplyOutcome, OrderBookError>(
            OrderBookError::NotSynced,
        ),
        book.synced && (diff.first_update_id == 0 || diff.final_update_id < diff.first_update_id)
            ==> diff_result(book, diff) == Err::<ApplyOutcome, OrderBookError>(
            OrderBookError::InvalidUpdateRange {
                first_update_id: diff.first_update_id,
                final_update_id: diff.final_update_id,
            },
        ),
        book.synced && 0 < diff.first_update_id && diff.first_update_id <= diff.final_update_id
            && book.last_update_id is None ==> diff_result(book, diff) == Err::<
            ApplyOutcome,
            OrderBookError,
        >(OrderBookError::NotSynced),
        book.synced && 0 < diff.first_update_id && diff.first_update_id <= diff.final_update_id
            && book.last_update_id is Some && diff.final_update_id <= book.last_update_id->0
            ==> diff_result(book, diff) == Ok::<ApplyOutcome, OrderBookError>(
            ApplyOutcome::IgnoredStale,
        ),
        !book.synced || diff.first_update_id == 0 || diff.final_update_id < diff.first_update_id
            || book.last_update_id is None || diff.final_update_id <= book.last_update_id->0
            ==> after_diff(book, diff) == book,
{
}

/// What changes that are applied do to a book: it stays in step, its last
/// update is their final one and their times are its times. On either side a
/// price holds what the last entry for it in the list of that side says, and
/// a price that the list does not name keeps its level.
pub proof fn law_applied_changes(book: BookView, diff: DiffView)
    requires
        diff_result(book, diff) == Ok::<ApplyOutcome, OrderBookError>(ApplyOutcome::Applied),
    ensures
        ({
            let after = after_diff(book, diff);
            &&& after.synced
            &&& after.symbol == book.symbol
            &&& after.last_update_id == Some(diff.final_update_id)
            &&& after.last_snapshot_time_ms == book.last_snapshot_time_ms
            &&& after.last_event_time_ms == diff.event_time_ms
            &&& after.last_receive_time_ms == diff.receive_time_ms
            &&& holds_the_entries(book.bids, diff.bids, after.bids)
            &&& holds_the_entries(book.asks, diff.asks, after.asks)
        }),
{
    lemma_holds_the_entries(book.bids, diff.bids);
    lemma_holds_the_entries(book.asks, diff.asks);
}

/// What a snapshot does to a book: on either side there are the prices of the
/// list of that side whose last quantity is above zero, with that quantity,
/// and no others.
pub proof fn law_snapshot_levels(book: BookView, snapshot: SnapshotView)
    ensures
        holds_the_entries(Map::empty(), snapshot.bids, after_snapshot(book, snapshot).bids),
        holds_the_entries(Map::empty(), snapshot.asks, after_snapshot(book, snapshot).asks),
{
    lemma_holds_the_entries(Map::empty(), snapshot.bids);
    lemma_holds_the_entries(Map::empty(), snapshot.asks);
}

/// Whether a side is what another becomes under a list of entries: a price in
/// the list has the quantity of its last entry, and no level where that is not
/// above zero; a price that is not in the list has the level it had.
pub open spec fn holds_the_entries(
    before: Map<int, PriceLevel>,
    entries: Seq<PriceLevel>,
    after: Map<int, PriceLevel>,
) -> bool {
    &&& forall|i: int|
        0 <= i < entries.len() && (forall|j: int|
            i < j < entries.len() ==> (#[trigger] entries[j]).price.amount()
                != entries[i].price.amount()) ==> {
            let key = (#[trigger] entries[i]).price.amount();
            &&& after.dom().contains(key) <==> entries[i].qty.amount() > 0
            &&& after.dom().contains(key) ==> after[key].qty == entries[i].qty
        }
    &&& forall|key: int|
        (forall|j: int| 0 <= j < entries.len() ==> (#[trigger] entries[j]).price.amount() != key)
            ==> (#[trigger] after.dom().contains(key) <==> before.dom().contains(key)) && (
        after.dom().contains(key) ==> after[key] == before[key])
}

proof fn lemma_holds_the_entries(side: Side, levels: Seq<PriceLevel>)
    ensures
        holds_the_entries(side, levels, with_levels(side, levels)),
{
    let after = with_levels(side, levels);
    assert forall|i: int|
        0 <= i < levels.len() && (forall|j: int|
            i < j < levels.len() ==> (#[trigger] levels[j]).price.amount()
                != levels[i].price.amount()) implies {
        let key = (#[trigger] levels[i]).price.amount();
        &&& after.dom().contains(key) <==> levels[i].qty.amount() > 0
        &&& after.dom().contains(key) ==> after[key].qty == levels[i].qty
    } by {
        law_last_entry_counts(side, levels, i);
    }
    assert forall|key: int|
        (forall|j: int| 0 <= j < levels.len() ==> (#[trigger] levels[j]).price.amount() != key) implies (
    #[trigger] after.dom().contains(key) <==> side.dom().contains(key)) && (after.dom().contains(key)
        ==> after[key] == side[key]) by {
        law_other_prices_stay(side, levels, key);
    }
}

/// A price that is there and that no entry takes away stays as it was written
/// first, whatever the way in which the entries write it.
pub proof fn law_price_stays_as_written(side: Side, levels: Seq<PriceLevel>, key: int)
    requires
        side.dom().contains(key),
        forall|j: int|
            0 <= j < levels.len() && (#[trigger] levels[j]).price.amount() == key
                ==> levels[j].qty.amount() > 0,
    ensures
        with_levels(side, levels).dom().contains(key),
        with_levels(side, levels)[key].price == side[key].price,
    decreases levels.len(),
{
    if levels.len() > 0 {
        let rest = levels.drop_last();
        assert(levels.last() == levels[levels.len() - 1]);
        assert forall|j: int|
            0 <= j < rest.len() && (#[trigger] rest[j]).price.amount() == key implies rest[j].qty.amount()
            > 0 by {
            assert(rest[j] == levels[j]);
        }
        law_price_stays_as_written(side, rest, key);
    }
}

/// A price that is new stays as the entry that brought it wrote it.
pub proof fn law_new_price_is_as_written(side: Side, level: PriceLevel)
    requires
        !side.dom().contains(level.price.amount()),
        level.qty.amount() > 0,
    ensures
        with_levels(side, seq![level]).dom().contains(level.price.amount()),
        with_levels(side, seq![level])[level.price.amount()] == level,
{
    assert(seq![level].drop_last() =~= Seq::<PriceLevel>::empty());
    assert(seq![level].last() == level);
    assert(with_levels(side, seq![level].drop_last()) == side);
}

/// Two lists of entries, one after the other, do what the list of both does.
pub proof fn law_entries_add_up(side: Side, first: Seq<PriceLevel>, second: Seq<PriceLevel>)
    ensures
        with_levels(with_levels(side, first), second) == with_levels(side, first + second),
    decreases second.len(),
{
    if second.len() == 0 {
        assert(first + second =~= first);
    } else {
        law_entries_add_up(side, first, second.drop_last());
        assert((first + second).drop_last() =~= first + second.drop_last());
        assert((first + second).last() == second.last());
    }
}

/// A book that is new or was dropped has no levels and no last update and is
/// out of step, so that changes are refused; a dropped one keeps its symbol
/// and its times.
pub proof fn law_no_book_without_snapshot(symbol: Seq<char>, book: BookView, diff: DiffView)
    ensures
        fresh_book(symbol).symbol == symbol,
        fresh_book(symbol).bids.dom() == Set::<int>::empty(),
        fresh_book(symbol).asks.dom() == Set::<int>::empty(),
        fresh_book(symbol).last_update_id is None,
        fresh_book(symbol).last_snapshot_time_ms is None,
        fresh_book(symbol).last_event_time_ms is None,
        fresh_book(symbol).last_receive_time_ms is None,
        !fresh_book(symbol).synced,
        unsynced(book).symbol == book.symbol,
        unsynced(book).bids.dom() == Set::<int>::empty(),
        unsynced(book).asks.dom() == Set::<int>::empty(),
        unsynced(book).last_update_id is None,
        unsynced(book).last_snapshot_time_ms == book.last_snapshot_time_ms,
        unsynced(book).last_event_time_ms == book.last_event_time_ms,
        unsynced(book).last_receive_time_ms == book.last_receive_time_ms,
        !unsynced(book).synced,
        diff_result(fresh_book(symbol), diff) == Err::<ApplyOutcome, OrderBookError>(
            OrderBookError::NotSynced,
        ),
        diff_result(unsynced(book), diff) == Err::<ApplyOutcome, OrderBookError>(
            OrderBookError::NotSynced,
        ),
{
    assert(fresh_book(symbol).bids.dom() =~= Set::<int>::empty());
    assert(fresh_book(symbol).asks.dom() =~= Set::<int>::empty());
    assert(unsynced(book).bids.dom() =~= Set::<int>::empty());
    assert(unsynced(book).asks.dom() =~= Set::<int>::empty());
}

/// The best bid is a level of the bids that no other is above, and the best
/// ask one of the asks that no other is below; there is none only where the
/// side is empty.
pub proof fn law_best_levels(side: Side, highest: Option<PriceLevel>, lowest: Option<PriceLevel>, key: int)
    requires
        side.dom().contains(key),
        is_highest(side, highest),
        is_lowest(side, lowest),
    ensures
        highest is Some && side.dom().contains(highest->0.price.amount()),
        side[highest->0.price.amount()] == highest->0,
        key <= highest->0.price.amount(),
        lowest is Some && side.dom().contains(lowest->0.price.amount()),
        side[lowest->0.price.amount()] == lowest->0,
        lowest->0.price.amount() <= key,
{
}

/// A list of the best levels holds levels of the side, the better ones first,
/// and every level that it leaves out is worse than all that it holds.
pub proof fn law_listed_are_the_best(
    side: Side,
    limit: nat,
    bids: Seq<PriceLevel>,
    asks: Seq<PriceLevel>,
    key: int,
)
    requires
        side.dom().contains(key),
        lists_highest(side, limit, bids),
        lists_lowest(side, limit, asks),
    ensures
        bids.len() == asks.len(),
        bids.len() <= limit,
        bids.len() == limit || bids.len() == side.dom().len(),
        forall|i: int|
            0 <= i < bids.len() ==> side.dom().contains((#[trigger] bids[i]).price.amount())
                && side[bids[i].price.amount()] == bids[i],
        forall|i: int|
            0 <= i < asks.len() ==> side.dom().contains((#[trigger] asks[i]).price.amount())
                && side[asks[i].price.amount()] == asks[i],
        forall|i: int, j: int|
            0 <= i < j < bids.len() ==> (#[trigger] bids[j]).price.amount() < (
            #[trigger] bids[i]).price.amount(),
        forall|i: int, j: int|
            0 <= i < j < asks.len() ==> (#[trigger] asks[i]).price.amount() < (
            #[trigger] asks[j]).price.amount(),
        (exists|i: int| 0 <= i < bids.len() && (#[trigger] bids[i]).price.amount() == key) || (forall|
            i: int,
        |
            0 <= i < bids.len() ==> key < (#[trigger] bids[i]).price.amount()),
        (exists|i: int| 0 <= i < asks.len() && (#[trigger] asks[i]).price.amount() == key) || (forall|
            i: int,
        |
            0 <= i < asks.len() ==> (#[trigger] asks[i]).price.amount() < key),
{
    if !(exists|i: int| 0 <= i < bids.len() && (#[trigger] bids[i]).price.amount() == key) {
        assert forall|i: int| 0 <= i < bids.len() implies key < (
        #[trigger] bids[i]).price.amount() by {
            if key > bids[i].price.amount() {
                assert(exists|j: int| 0 <= j < i && (#[trigger] bids[j]).price.amount() == key);
            }
        }
    }
    if !(exists|i: int| 0 <= i < asks.len() && (#[trigger] asks[i]).price.amount() == key) {
        assert forall|i: int| 0 <= i < asks.len() implies (#[trigger] asks[i]).price.amount()
            < key by {
            if key < asks[i].price.amount() {
                assert(exists|j: int| 0 <= j < i && (#[trigger] asks[j]).price.amount() == key);
            }
        }
    }
}

/// A book is crossed exactly where its best bid is not below its best ask.
pub proof fn law_crossed_books(book: BookView, bid: Option<PriceLevel>, ask: Option<PriceLevel>)
    requires
        is_highest(book.bids, bid),
        is_lowest(book.asks, ask),
    ensures
        crossed(book) <==> bid is Some && ask is Some && bid->0.price.amount()
            >= ask->0.price.amount(),
{
    if bid is Some && ask is Some && bid->0.price.amount() >= ask->0.price.amount() {
        assert(book.bids.dom().contains(bid->0.price.amount()));
        assert(book.asks.dom().contains(ask->0.price.amount()));
    }
}

} // verus!
