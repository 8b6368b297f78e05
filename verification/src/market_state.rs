//! The order books of all pairs.

use vstd::prelude::*;

use crate::models::{DepthStreamData, DepthStreamWrapper, OfferData};
use crate::orderbook::{
    ApplyOutcome, BookView, DiffView, OrderBook, OrderBookDiff, OrderBookError, OrderBookSnapshot,
    PriceLevel, SnapshotView,
};
use crate::text::text_before;
use crate::text_map::TextMap;

verus! {

/// The pair that a stream is about: its name up to the first `@`.
pub fn pair_key_from_stream(stream: &str) -> (r: String)
    ensures
        r@ == crate::text::before(stream@, '@'),
{
    text_before(stream, '@')
}

/// A level with the price and the quantity of an offer.
pub open spec fn level_of(offer: OfferData) -> PriceLevel {
    PriceLevel { price: offer.price, qty: offer.size }
}

/// The levels of a list of offers.
pub open spec fn levels_of(offers: Seq<OfferData>) -> Seq<PriceLevel> {
    offers.map_values(|o: OfferData| level_of(o))
}

pub fn offer_to_price_level(offer: OfferData) -> (r: PriceLevel)
    ensures
        r == level_of(offer),
{
    PriceLevel { price: offer.price, qty: offer.size }
}

pub fn price_level_to_offer(level: PriceLevel) -> (r: OfferData)
    ensures
        level_of(r) == level,
{
    OfferData { price: level.price, size: level.qty }
}

/// The levels of a list of offers.
pub fn offers_to_levels(offers: &Vec<OfferData>) -> (r: Vec<PriceLevel>)
    ensures
        r@ == levels_of(offers@),
{
    let mut out: Vec<PriceLevel> = Vec::new();
    let mut i: usize = 0;
    while i < offers.len()
        invariant
            i <= offers@.len(),
            out@ == levels_of(offers@.take(i as int)),
        decreases offers@.len() - i,
    {
        proof {
            assert(levels_of(offers@.take(i as int)).push(level_of(offers@[i as int])) =~= levels_of(
                offers@.take(i + 1),
            ));
        }
        out.push(offer_to_price_level(offers[i]));
        i = i + 1;
    }
    proof {
        assert(offers@.take(i as int) =~= offers@);
    }
    out
}

/// The offers of a list of levels.
pub fn levels_to_offers(levels: &Vec<PriceLevel>) -> (r: Vec<OfferData>)
    ensures
        levels_of(r@) == levels@,
{
    let mut out: Vec<OfferData> = Vec::new();
    let mut i: usize = 0;
    while i < levels.len()
        invariant
            i <= levels@.len(),
            levels_of(out@) =~= levels@.take(i as int),
        decreases levels@.len() - i,
    {
        let offer: OfferData = price_level_to_offer(levels[i]);
        proof {
            assert(levels_of(out@.push(offer)) =~= levels_of(out@).push(levels@[i as int]));
            assert(levels@.take(i as int).push(levels@[i as int]) =~= levels@.take(i + 1));
        }
        out.push(offer);
        i = i + 1;
    }
    proof {
        assert(levels@.take(i as int) =~= levels@);
    }
    out
}

/// A book and the name of the stream that last touched it.
#[derive(Debug)]
pub struct BookEntry {
    book: OrderBook,
    last_stream: String,
}

/// What an entry holds.
pub struct EntryView {
    pub book: BookView,
    pub last_stream: Seq<char>,
}

impl View for BookEntry {
    type V = EntryView;

    closed spec fn view(&self) -> EntryView {
        EntryView { book: self.book@, last_stream: self.last_stream@ }
    }
}

/// Depth data with the time at which it came.
#[derive(Debug, Clone)]
pub struct MarketDepthView {
    pub depth: DepthStreamWrapper,
    pub last_receive_time_ms: u64,
}

/// The entries of all pairs.
pub type Market = Map<Seq<char>, EntryView>;

/// Whether a pair has a book that is in step.
pub open spec fn pair_synced(market: Market, pair: Seq<char>) -> bool {
    market.dom().contains(pair) && market[pair].book.synced
}

/// The book of a pair; a fresh one where there is none.
pub open spec fn book_of(market: Market, pair: Seq<char>) -> BookView {
    if market.dom().contains(pair) {
        market[pair].book
    } else {
        crate::orderbook::fresh_book(pair)
    }
}

/// A market after a snapshot of a pair.
pub open spec fn market_after_snapshot(
    market: Market,
    pair: Seq<char>,
    stream: Seq<char>,
    snapshot: SnapshotView,
) -> Market {
    market.insert(
        pair,
        EntryView { book: crate::orderbook::after_snapshot(book_of(market, pair), snapshot), last_stream: stream },
    )
}

/// A market after changes to a pair.
pub open spec fn market_after_diff(
    market: Market,
    pair: Seq<char>,
    stream: Seq<char>,
    diff: DiffView,
) -> Market {
    market.insert(
        pair,
        EntryView { book: crate::orderbook::after_diff(book_of(market, pair), diff), last_stream: stream },
    )
}

/// A market after the levels of a pair were dropped.
pub open spec fn market_after_unsync(market: Market, pair: Seq<char>) -> Market {
    if market.dom().contains(pair) {
        market.insert(
            pair,
            EntryView {
                book: crate::orderbook::unsynced(market[pair].book),
                last_stream: market[pair].last_stream,
            },
        )
    } else {
        market
    }
}

/// The time that a book gives for its levels: when the last changes came, or
/// else the snapshot, or else zero.
pub open spec fn book_time(book: BookView) -> u64 {
    match (book.last_receive_time_ms, book.last_snapshot_time_ms) {
        (Some(t), _) => t,
        (None, Some(t)) => t,
        (None, None) => 0,
    }
}

/// Whether depth data show the best offers of an entry, up to a limit.
pub open spec fn depth_shows(entry: EntryView, limit: nat, depth: DepthStreamWrapper) -> bool {
    &&& depth.stream@ == entry.last_stream
    &&& depth.data.last_update_id == match entry.book.last_update_id {
        Some(id) => id,
        None => 0,
    }
    &&& crate::orderbook::lists_highest(entry.book.bids, limit, levels_of(depth.data.bids@))
    &&& crate::orderbook::lists_lowest(entry.book.asks, limit, levels_of(depth.data.asks@))
}

/// Whether all levels of an entry stand under their own price and offer
/// something.
pub open spec fn entry_is_sound(entry: EntryView) -> bool {
    &&& crate::orderbook::side_is_sound(entry.book.bids)
    &&& crate::orderbook::side_is_sound(entry.book.asks)
}

/// Whether depth data are well made: bids from the highest price down, asks from
/// the lowest price up, no price twice, and every size above zero.
pub open spec fn depth_is_sound(depth: DepthStreamWrapper) -> bool {
    &&& forall|i: int, j: int|
        0 <= i < j < depth.data.bids@.len() ==> (#[trigger] depth.data.bids@[i]).price.amount() > (
        #[trigger] depth.data.bids@[j]).price.amount()
    &&& forall|i: int, j: int|
        0 <= i < j < depth.data.asks@.len() ==> (#[trigger] depth.data.asks@[i]).price.amount() < (
        #[trigger] depth.data.asks@[j]).price.amount()
    &&& forall|i: int|
        0 <= i < depth.data.bids@.len() ==> (#[trigger] depth.data.bids@[i]).size.amount() > 0
    &&& forall|i: int|
        0 <= i < depth.data.asks@.len() ==> (#[trigger] depth.data.asks@[i]).size.amount() > 0
}

/// The order books of all pairs.
#[derive(Debug)]
pub struct MarketState {
    books: TextMap<BookEntry>,
}

spec fn entries_of(books: Map<Seq<char>, BookEntry>) -> Market {
    books.map_values(|e: BookEntry| e@)
}

impl View for MarketState {
    type V = Market;

    closed spec fn view(&self) -> Market {
        entries_of(self.books@)
    }
}

impl MarketState {
    /// A market without books, for about a number of pairs.
    pub fn with_capacity(capacity: usize) -> (r: MarketState)
        ensures
            r@ == Market::empty(),
    {
        let r = MarketState { books: TextMap::new() };
        proof {
            assert(r@ =~= Market::empty());
        }
        r
    }

    /// Takes depth data for a snapshot of the pair that its stream is about.
    pub fn apply_depth_snapshot(&mut self, payload: DepthStreamWrapper, receive_time_ms: u64)
        ensures
            final(self)@ == market_after_snapshot(
                old(self)@,
                crate::text::before(payload.stream@, '@'),
                payload.stream@,
                SnapshotView {
                    last_update_id: payload.data.last_update_id,
                    bids: levels_of(payload.data.bids@),
                    asks: levels_of(payload.data.asks@),
                    snapshot_time_ms: Some(receive_time_ms),
                },
            ),
    {
        let pair: String = pair_key_from_stream(payload.stream.as_str());
        let bids: Vec<PriceLevel> = offers_to_levels(&payload.data.bids);
        let asks: Vec<PriceLevel> = offers_to_levels(&payload.data.asks);
        self.apply_orderbook_snapshot(
            pair.as_str(),
            payload.stream,
            payload.data.last_update_id,
            bids,
            asks,
            receive_time_ms,
        );
    }

    /// Whether a pair has a book that is in step.
    pub fn is_pair_synced(&self, pair: &str) -> (r: bool)
        ensures
            r == pair_synced(self@, pair@),
    {
        match self.books.get(pair) {
            Some(entry) => entry.book.is_synced(),
            None => false,
        }
    }

    /// Drops the levels of a pair.
    pub fn mark_pair_unsynced(&mut self, pair: &str)
        ensures
            final(self)@ == market_after_unsync(old(self)@, pair@),
    {
        let ghost start = self.books@;
        match self.books.remove(pair) {
            Some(taken) => {
                let mut entry: BookEntry = taken;
                entry.book.clear_and_mark_unsynced();
                self.books.insert(pair.to_owned(), entry);
                proof {
                    assert(self@ =~= market_after_unsync(entries_of(start), pair@));
                }
            },
            None => {
                proof {
                    assert(self@ =~= entries_of(start));
                }
            },
        }
    }

    /// The entry of a pair, taken out; a fresh one where there is none.
    fn take_entry(&mut self, pair: &str, stream_name: &str) -> (r: BookEntry)
        ensures
            final(self)@ == old(self)@.remove(pair@),
            r@.book == book_of(old(self)@, pair@),
    {
        let ghost start = self.books@;
        let taken: Option<BookEntry> = self.books.remove(pair);
        proof {
            assert(self@ =~= entries_of(start).remove(pair@));
        }
        match taken {
            Some(entry) => entry,
            None => BookEntry {
                book: OrderBook::new(pair.to_owned()),
                last_stream: stream_name.to_owned(),
            },
        }
    }

    fn put_entry(&mut self, pair: &str, entry: BookEntry)
        ensures
            final(self)@ == old(self)@.insert(pair@, entry@),
    {
        let ghost start = self.books@;
        self.books.insert(pair.to_owned(), entry);
        proof {
            assert(self@ =~= entries_of(start).insert(pair@, entry@));
        }
    }

    /// Puts a snapshot in the place of the levels of a pair.
    pub fn apply_orderbook_snapshot(
        &mut self,
        pair: &str,
        stream_name: String,
        last_update_id: u64,
        bids: Vec<PriceLevel>,
        asks: Vec<PriceLevel>,
        snapshot_time_ms: u64,
    )
        ensures
            final(self)@ == market_after_snapshot(
                old(self)@,
                pair@,
                stream_name@,
                SnapshotView {
                    last_update_id,
                    bids: bids@,
                    asks: asks@,
                    snapshot_time_ms: Some(snapshot_time_ms),
                },
            ),
    {
        let ghost start = self@;
        let mut entry: BookEntry = self.take_entry(pair, stream_name.as_str());
        entry.last_stream = stream_name;
        entry.book.apply_snapshot(
            OrderBookSnapshot {
                last_update_id,
                bids,
                asks,
                snapshot_time_ms: Some(snapshot_time_ms),
            },
        );
        self.put_entry(pair, entry);
        proof {
            assert(self@ =~= start.insert(pair@, entry@));
        }
    }

    /// Applies changes to a pair. A pair without a book gets a fresh one.
    pub fn apply_orderbook_diff(
        &mut self,
        pair: &str,
        stream_name: &str,
        diff: OrderBookDiff,
    ) -> (r: Result<ApplyOutcome, OrderBookError>)
        ensures
            r == crate::orderbook::diff_result(book_of(old(self)@, pair@), diff@),
            final(self)@ == market_after_diff(old(self)@, pair@, stream_name@, diff@),
    {
        let ghost start = self@;
        let mut entry: BookEntry = self.take_entry(pair, stream_name);
        entry.last_stream = stream_name.to_owned();
        let outcome: Result<ApplyOutcome, OrderBookError> = entry.book.apply_diff(diff);
        self.put_entry(pair, entry);
        proof {
            assert(self@ =~= start.insert(pair@, entry@));
        }
        outcome
    }

    /// The best offers of a pair, where its book is in step.
    pub fn export_depth_wrapper(&self, pair: &str, depth_limit: usize) -> (r: Option<DepthStreamWrapper>)
        ensures
            r is Some <==> pair_synced(self@, pair@),
            r matches Some(depth) ==> {
                &&& entry_is_sound(self@[pair@])
                &&& depth_shows(self@[pair@], depth_limit as nat, depth)
                &&& depth_is_sound(depth)
            },
    {
        match self.export_depth_view(pair, depth_limit) {
            Some(view) => Some(view.depth),
            None => None,
        }
    }

    /// The best offers of a pair with their time, where its book is in step.
    pub fn export_depth_view(&self, pair: &str, depth_limit: usize) -> (r: Option<MarketDepthView>)
        ensures
            r is Some <==> pair_synced(self@, pair@),
            r matches Some(view) ==> {
                &&& entry_is_sound(self@[pair@])
                &&& depth_shows(self@[pair@], depth_limit as nat, view.depth)
                &&& depth_is_sound(view.depth)
                &&& view.last_receive_time_ms == book_time(self@[pair@].book)
            },
    {
        let entry: &BookEntry = match self.books.get(pair) {
            Some(entry) => entry,
            None => {
                return None;
            },
        };
        if !entry.book.is_synced() {
            return None;
        }
        let bids: Vec<OfferData> = levels_to_offers(&entry.book.top_bids(depth_limit));
        let asks: Vec<OfferData> = levels_to_offers(&entry.book.top_asks(depth_limit));
        let last_update_id: u64 = match entry.book.last_update_id() {
            Some(id) => id,
            None => 0,
        };
        let last_receive_time_ms: u64 = match entry.book.last_receive_time_ms() {
            Some(t) => t,
            None => match entry.book.last_snapshot_time_ms() {
                Some(t) => t,
                None => 0,
            },
        };
        let view: MarketDepthView = MarketDepthView {
            depth: DepthStreamWrapper {
                stream: entry.last_stream.clone(),
                data: DepthStreamData { last_update_id, bids, asks },
            },
            last_receive_time_ms,
        };
        proof {
            law_exported_depth_is_sound(entry@, depth_limit as nat, view.depth);
        }
        Some(view)
    }
}

impl Default for MarketState {
    fn default() -> (r: MarketState)
        ensures
            r@ == Market::empty(),
    {
        MarketState::with_capacity(0)
    }
}

impl Clone for MarketState {
    fn clone(&self) -> (r: MarketState)
        ensures
            r@ == self@,
    {
        let count: usize = self.books.len();
        let ghost order = self.books.order();
        let ghost all = self.books@;
        let mut r: MarketState = MarketState::with_capacity(count);
        let mut i: usize = 0;
        while i < count
            invariant
                i <= count,
                count == order.len(),
                order == self.books.order(),
                all == self.books@,
                forall|k: Seq<char>| #[trigger]
                    r@.dom().contains(k) <==> order.take(i as int).contains(k),
                forall|k: Seq<char>| #[trigger] r@.dom().contains(k) ==> r@[k] == entries_of(all)[k],
                order.to_set() == all.dom(),
            decreases count - i,
        {
            let pair: &String = self.books.key_at(i);
            let entry: &BookEntry = self.books.value_at(i);
            proof {
                assert(order.take(i + 1) =~= order.take(i as int).push(order[i as int]));
                assert forall|k: Seq<char>| #[trigger]
                    order.take(i + 1).contains(k) <==> order.take(i as int).contains(k) || k
                        == order[i as int] by {
                    crate::names::lemma_pushed(order.take(i as int), order[i as int], k);
                }
                assert(entries_of(all)[order[i as int]] == entry@);
            }
            r.put_entry(
                pair.as_str(),
                BookEntry { book: entry.book.clone(), last_stream: entry.last_stream.clone() },
            );
            i = i + 1;
        }
        proof {
            assert(order.take(i as int) =~= order);
            assert forall|k: Seq<char>| r@.dom().contains(k) <==> self@.dom().contains(k) by {
                assert(order.to_set().contains(k) <==> order.contains(k));
            }
            assert(r@ =~= self@);
        }
        r
    }
}

/// What is done to one pair leaves the others as they are.
pub proof fn law_pairs_are_separate(
    market: Market,
    pair: Seq<char>,
    other: Seq<char>,
    stream: Seq<char>,
    diff: DiffView,
    snapshot: SnapshotView,
)
    requires
        pair != other,
    ensures
        ({
            let changed = market_after_diff(market, pair, stream, diff);
            let replaced = market_after_snapshot(market, pair, stream, snapshot);
            let dropped = market_after_unsync(market, pair);
            &&& book_of(changed, other) == book_of(market, other)
            &&& book_of(replaced, other) == book_of(market, other)
            &&& book_of(dropped, other) == book_of(market, other)
            &&& pair_synced(changed, other) == pair_synced(market, other)
            &&& pair_synced(replaced, other) == pair_synced(market, other)
            &&& pair_synced(dropped, other) == pair_synced(market, other)
        }),
{
}

/// Depth data that show the best offers of a sound entry are well made.
pub proof fn law_exported_depth_is_sound(entry: EntryView, limit: nat, depth: DepthStreamWrapper)
    requires
        entry_is_sound(entry),
        depth_shows(entry, limit, depth),
    ensures
        depth_is_sound(depth),
        depth.data.bids@.len() == if limit <= entry.book.bids.dom().len() {
            limit
        } else {
            entry.book.bids.dom().len()
        },
        depth.data.asks@.len() == if limit <= entry.book.asks.dom().len() {
            limit
        } else {
            entry.book.asks.dom().len()
        },
{
    let bids = levels_of(depth.data.bids@);
    let asks = levels_of(depth.data.asks@);
    assert forall|i: int, j: int| 0 <= i < j < depth.data.bids@.len() implies (
    #[trigger] depth.data.bids@[i]).price.amount() > (#[trigger] depth.data.bids@[j]).price.amount() by {
        assert(bids[i].price.amount() > bids[j].price.amount());
    }
    assert forall|i: int, j: int| 0 <= i < j < depth.data.asks@.len() implies (
    #[trigger] depth.data.asks@[i]).price.amount() < (#[trigger] depth.data.asks@[j]).price.amount() by {
        assert(asks[i].price.amount() < asks[j].price.amount());
    }
    assert forall|i: int| 0 <= i < depth.data.bids@.len() implies (
    #[trigger] depth.data.bids@[i]).size.amount() > 0 by {
        assert(entry.book.bids.dom().contains(bids[i].price.amount()));
    }
    assert forall|i: int| 0 <= i < depth.data.asks@.len() implies (
    #[trigger] depth.data.asks@[i]).size.amount() > 0 by {
        assert(entry.book.asks.dom().contains(asks[i].price.amount()));
    }
}

/// Whatever is done to a market keeps its entries sound.
pub proof fn law_entries_stay_sound(
    market: Market,
    pair: Seq<char>,
    stream: Seq<char>,
    diff: DiffView,
    snapshot: SnapshotView,
    other: Seq<char>,
)
    requires
        forall|p: Seq<char>| #[trigger] market.dom().contains(p) ==> entry_is_sound(market[p]),
    ensures
        ({
            let changed = market_after_diff(market, pair, stream, diff);
            let replaced = market_after_snapshot(market, pair, stream, snapshot);
            let dropped = market_after_unsync(market, pair);
            &&& changed.dom().contains(other) ==> entry_is_sound(changed[other])
            &&& replaced.dom().contains(other) ==> entry_is_sound(replaced[other])
            &&& dropped.dom().contains(other) ==> entry_is_sound(dropped[other])
        }),
{
    let book = book_of(market, pair);
    crate::orderbook::law_sides_stay_sound(book.bids, diff.bids);
    crate::orderbook::law_sides_stay_sound(book.asks, diff.asks);
    crate::orderbook::law_sides_stay_sound(Map::empty(), snapshot.bids);
    crate::orderbook::law_sides_stay_sound(Map::empty(), snapshot.asks);
}

/// An entry names the stream that last touched it, be it by changes that are
/// stale. Its time is that at which the last applied changes came; where they
/// tell none, that of the last snapshot.
pub proof fn law_entries_tell_stream_and_time(
    market: Market,
    pair: Seq<char>,
    stream: Seq<char>,
    diff: DiffView,
    snapshot: SnapshotView,
)
    ensures
        ({
            let book = book_of(market, pair);
            let changed = market_after_diff(market, pair, stream, diff);
            let replaced = market_after_snapshot(market, pair, stream, snapshot);
            &&& changed[pair].last_stream == stream
            &&& replaced[pair].last_stream == stream
            &&& match crate::orderbook::diff_result(book, diff) {
                Ok(ApplyOutcome::Applied) => book_time(changed[pair].book) == match (
                    diff.receive_time_ms,
                    book.last_snapshot_time_ms,
                ) {
                    (Some(t), _) => t,
                    (None, Some(t)) => t,
                    (None, None) => 0,
                },
                _ => book_time(changed[pair].book) == book_time(book),
            }
        }),
{
}

/// A pair is in step right after a snapshot, and shows the time of it; it is
/// out of step right after its levels were dropped.
pub proof fn law_snapshot_syncs(
    market: Market,
    pair: Seq<char>,
    stream: Seq<char>,
    snapshot: SnapshotView,
)
    ensures
        ({
            let after = market_after_snapshot(market, pair, stream, snapshot);
            &&& pair_synced(after, pair)
            &&& snapshot.snapshot_time_ms matches Some(t) ==> book_time(after[pair].book) == t
            &&& after[pair].book.last_update_id == Some(snapshot.last_update_id)
            &&& !pair_synced(market_after_unsync(after, pair), pair)
        }),
{
}

/// What a market does with a pair: a snapshot and changes go to its own book,
/// or to a fresh one where it has none, and note their stream; dropping its
/// levels does nothing where there is no book. No other pair comes or goes.
pub proof fn law_market_keeps_a_book_per_pair(
    market: Market,
    pair: Seq<char>,
    stream: Seq<char>,
    diff: DiffView,
    snapshot: SnapshotView,
)
    ensures
        ({
            let changed = market_after_diff(market, pair, stream, diff);
            let replaced = market_after_snapshot(market, pair, stream, snapshot);
            let dropped = market_after_unsync(market, pair);
            &&& changed.dom() == market.dom().insert(pair)
            &&& replaced.dom() == market.dom().insert(pair)
            &&& dropped.dom() == market.dom()
            &&& changed[pair].last_stream == stream
            &&& replaced[pair].last_stream == stream
            &&& market.dom().contains(pair) ==> {
                let book = market[pair].book;
                &&& changed[pair].book == crate::orderbook::after_diff(book, diff)
                &&& replaced[pair].book == crate::orderbook::after_snapshot(book, snapshot)
                &&& dropped[pair].book == crate::orderbook::unsynced(book)
                &&& dropped[pair].last_stream == market[pair].last_stream
                &&& pair_synced(market, pair) == book.synced
                &&& book_of(market, pair) == book
            }
            &&& !market.dom().contains(pair) ==> {
                &&& !pair_synced(market, pair)
                &&& book_of(market, pair) == crate::orderbook::fresh_book(pair)
                &&& !changed[pair].book.synced
                &&& changed[pair].book.bids.dom() == Set::<int>::empty()
                &&& changed[pair].book.asks.dom() == Set::<int>::empty()
                &&& replaced[pair].book == crate::orderbook::after_snapshot(
                    crate::orderbook::fresh_book(pair),
                    snapshot,
                )
                &&& dropped == market
            }
        }),
{
    let changed = market_after_diff(market, pair, stream, diff);
    assert(changed.dom() =~= market.dom().insert(pair));
    assert(market_after_snapshot(market, pair, stream, snapshot).dom() =~= market.dom().insert(
        pair,
    ));
    assert(market_after_unsync(market, pair).dom() =~= market.dom());
    crate::orderbook::law_no_book_without_snapshot(
        pair,
        crate::orderbook::fresh_book(pair),
        diff,
    );
}

/// Exported depth data tell the stream that last touched the pair and the number
/// of its last update, and offer levels of the pair's own book: bids of its bids
/// and asks of its asks, each with the price and the quantity of its level. An
/// offer that is left out is worse than all that are shown.
pub proof fn law_exported_offers_are_the_best(
    entry: EntryView,
    limit: nat,
    depth: DepthStreamWrapper,
    key: int,
)
    requires
        depth_shows(entry, limit, depth),
    ensures
        depth.stream@ == entry.last_stream,
        entry.book.last_update_id is Some ==> depth.data.last_update_id
            == entry.book.last_update_id->0,
        entry.book.last_update_id is None ==> depth.data.last_update_id == 0,
        depth.data.bids@.len() <= limit && depth.data.asks@.len() <= limit,
        forall|i: int|
            0 <= i < depth.data.bids@.len() ==> {
                let offer = #[trigger] depth.data.bids@[i];
                let bids = entry.book.bids;
                bids.dom().contains(offer.price.amount()) && bids[offer.price.amount()].price
                    == offer.price && bids[offer.price.amount()].qty == offer.size
            },
        forall|i: int|
            0 <= i < depth.data.asks@.len() ==> {
                let offer = #[trigger] depth.data.asks@[i];
                let asks = entry.book.asks;
                asks.dom().contains(offer.price.amount()) && asks[offer.price.amount()].price
                    == offer.price && asks[offer.price.amount()].qty == offer.size
            },
        entry.book.bids.dom().contains(key) && (forall|i: int|
            0 <= i < depth.data.bids@.len() ==> (#[trigger] depth.data.bids@[i]).price.amount() != key)
            ==> depth.data.bids@.len() == limit && forall|i: int|
            0 <= i < depth.data.bids@.len() ==> key < (
            #[trigger] depth.data.bids@[i]).price.amount(),
        entry.book.asks.dom().contains(key) && (forall|i: int|
            0 <= i < depth.data.asks@.len() ==> (#[trigger] depth.data.asks@[i]).price.amount() != key)
            ==> depth.data.asks@.len() == limit && forall|i: int|
            0 <= i < depth.data.asks@.len() ==> (#[trigger] depth.data.asks@[i]).price.amount()
                < key,
{
    let bids = levels_of(depth.data.bids@);
    let asks = levels_of(depth.data.asks@);
    assert forall|i: int| 0 <= i < depth.data.bids@.len() implies {
        let offer = #[trigger] depth.data.bids@[i];
        entry.book.bids.dom().contains(offer.price.amount())
            && entry.book.bids[offer.price.amount()].price == offer.price
            && entry.book.bids[offer.price.amount()].qty == offer.size
    } by {
        assert(bids[i] == level_of(depth.data.bids@[i]));
    }
    assert forall|i: int| 0 <= i < depth.data.asks@.len() implies {
        let offer = #[trigger] depth.data.asks@[i];
        entry.book.asks.dom().contains(offer.price.amount())
            && entry.book.asks[offer.price.amount()].price == offer.price
            && entry.book.asks[offer.price.amount()].qty == offer.size
    } by {
        assert(asks[i] == level_of(depth.data.asks@[i]));
    }
    if entry.book.bids.dom().contains(key) && (forall|i: int|
        0 <= i < depth.data.bids@.len() ==> (#[trigger] depth.data.bids@[i]).price.amount() != key) {
        assert forall|i: int| 0 <= i < bids.len() implies (#[trigger] bids[i]).price.amount()
            != key by {
            assert(depth.data.bids@[i].price.amount() != key);
        }
        lemma_left_out(entry.book.bids, limit, bids, key);
        assert forall|i: int| 0 <= i < depth.data.bids@.len() implies key < (
        #[trigger] depth.data.bids@[i]).price.amount() by {
            if key > bids[i].price.amount() {
                assert(exists|j: int| 0 <= j < i && (#[trigger] bids[j]).price.amount() == key);
            }
            assert(bids[i].price.amount() != key);
        }
    }
    if entry.book.asks.dom().contains(key) && (forall|i: int|
        0 <= i < depth.data.asks@.len() ==> (#[trigger] depth.data.asks@[i]).price.amount() != key) {
        assert forall|i: int| 0 <= i < asks.len() implies (#[trigger] asks[i]).price.amount()
            != key by {
            assert(depth.data.asks@[i].price.amount() != key);
        }
        lemma_left_out(entry.book.asks, limit, asks, key);
        assert forall|i: int| 0 <= i < depth.data.asks@.len() implies (
        #[trigger] depth.data.asks@[i]).price.amount() < key by {
            if key < asks[i].price.amount() {
                assert(exists|j: int| 0 <= j < i && (#[trigger] asks[j]).price.amount() == key);
            }
            assert(asks[i].price.amount() != key);
        }
    }
}

proof fn lemma_left_out(side: Map<int, PriceLevel>, limit: nat, list: Seq<PriceLevel>, key: int)
    requires
        side.dom().finite(),
        side.dom().contains(key),
        list.len() == if limit <= side.dom().len() {
            limit
        } else {
            side.dom().len()
        },
        forall|i: int|
            0 <= i < list.len() ==> side.dom().contains((#[trigger] list[i]).price.amount()),
        forall|i: int| 0 <= i < list.len() ==> (#[trigger] list[i]).price.amount() != key,
        forall|i: int, j: int|
            0 <= i < j < list.len() ==> (#[trigger] list[i]).price.amount() != (
            #[trigger] list[j]).price.amount(),
    ensures
        list.len() == limit,
{
    let prices = list.map_values(|l: PriceLevel| l.price.amount());
    assert(prices.no_duplicates()) by {
        assert forall|i: int, j: int|
            0 <= i < prices.len() && 0 <= j < prices.len() && i != j implies prices[i] != prices[j] by {
            assert(prices[i] == list[i].price.amount());
            assert(prices[j] == list[j].price.amount());
        }
    }
    prices.unique_seq_to_set();
    let listed = prices.to_set();
    assert(listed.subset_of(side.dom().remove(key))) by {
        assert forall|p: int| listed.contains(p) implies side.dom().remove(key).contains(p) by {
            let i = choose|i: int| 0 <= i < prices.len() && prices[i] == p;
            assert(list[i].price.amount() == p);
        }
    }
    vstd::set_lib::lemma_len_subset(listed, side.dom().remove(key));
}

/// The time that a book gives is that at which its last changes came, where they
/// told one; else that of its snapshot; else zero.
pub proof fn law_book_time(book: BookView)
    ensures
        book.last_receive_time_ms is Some ==> book_time(book) == book.last_receive_time_ms->0,
        book.last_receive_time_ms is None && book.last_snapshot_time_ms is Some ==> book_time(book)
            == book.last_snapshot_time_ms->0,
        book.last_receive_time_ms is None && book.last_snapshot_time_ms is None ==> book_time(book)
            == 0,
{
}

/// Depth data that are taken for a snapshot keep each offer as it is: its price as
/// the price of a level, and its size as the quantity.
pub proof fn law_offers_become_levels(offers: Seq<OfferData>, i: int)
    requires
        0 <= i < offers.len(),
    ensures
        levels_of(offers).len() == offers.len(),
        levels_of(offers)[i].price == offers[i].price,
        levels_of(offers)[i].qty == offers[i].size,
{
}

} // verus!
