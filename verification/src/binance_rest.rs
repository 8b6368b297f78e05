//! Requests to the exchange: what is asked, what is cached, and how the answer
//! is read.

use vstd::prelude::*;

use crate::decimal::Decimal;
use crate::text::{lowercase, number_text, uppercase};

verus! {

/// A file that keeps the last answer to a request, and how long the answer
/// stays fresh.
#[derive(Debug, Clone)]
pub struct JsonFileCache {
    pub path: String,
    pub ttl_nanos: u128,
}

impl JsonFileCache {
    pub fn new(path: String, ttl_nanos: u128) -> (r: JsonFileCache)
        ensures
            r.path@ == path@,
            r.ttl_nanos == ttl_nanos,
    {
        JsonFileCache { path, ttl_nanos }
    }
}

/// Whether a file is fresh. A file without an age was changed in the future,
/// and is.
pub fn is_within_ttl(age_nanos: Option<u128>, ttl_nanos: u128) -> (r: bool)
    ensures
        r == match age_nanos {
            Some(age) => age <= ttl_nanos,
            None => true,
        },
{
    match age_nanos {
        Some(age) => age <= ttl_nanos,
        None => true,
    }
}

/// What was found of a cache file.
#[derive(Debug, Clone, Copy, PartialEq, Eq)]
pub enum CacheFile {
    /// There is no such file.
    Missing,
    /// Looking for the file failed.
    Failed,
    /// The system does not say when the file was changed.
    Undated,
    /// The file was changed so long ago; without an age it was changed in the
    /// future.
    Dated { age_nanos: Option<u128> },
}

/// What to do with a cache file.
#[derive(Debug, Clone, Copy, PartialEq, Eq, Structural)]
pub enum CacheStep {
    /// Ask the exchange.
    Skip,
    /// Report the failure.
    Fail,
    /// Read the file.
    Read,
}

/// Whether a cache is looked at: not where nothing stays fresh.
pub fn wants_cache(ttl_nanos: u128) -> (r: bool)
    ensures
        r == (ttl_nanos > 0),
{
    ttl_nanos > 0
}

/// What to do with a cache file.
pub fn cache_step(ttl_nanos: u128, file: CacheFile) -> (r: CacheStep)
    ensures
        r == CacheStep::Fail <==> ttl_nanos > 0 && file is Failed,
        r == CacheStep::Read <==> ttl_nanos > 0 && match file {
            CacheFile::Dated { age_nanos: Some(age) } => age <= ttl_nanos,
            CacheFile::Dated { age_nanos: None } => true,
            _ => false,
        },
{
    if !wants_cache(ttl_nanos) {
        return CacheStep::Skip;
    }
    match file {
        CacheFile::Missing => CacheStep::Skip,
        CacheFile::Failed => CacheStep::Fail,
        CacheFile::Undated => CacheStep::Skip,
        CacheFile::Dated { age_nanos } => {
            if is_within_ttl(age_nanos, ttl_nanos) {
                CacheStep::Read
            } else {
                CacheStep::Skip
            }
        },
    }
}

/// A price level of a snapshot.
#[derive(Debug, Clone, Copy, PartialEq, Eq)]
pub struct DepthSnapshotLevel {
    pub price: Decimal,
    pub qty: Decimal,
}

/// A snapshot of the offers of a pair.
#[derive(Debug, Clone, PartialEq, Eq)]
pub struct BinanceDepthSnapshot {
    pub symbol: String,
    pub last_update_id: u64,
    pub bids: Vec<DepthSnapshotLevel>,
    pub asks: Vec<DepthSnapshotLevel>,
    pub fetched_at_ms: u64,
}

/// Which text of a level could not be read.
#[derive(Debug, Clone, Copy, PartialEq, Eq)]
pub enum DepthLevelError {
    Price { level: usize },
    Qty { level: usize },
}

/// The number in a text of a level.
pub open spec fn number_at(raw: Seq<[String; 2]>, level: int, field: int) -> Option<crate::decimal::Number> {
    crate::decimal::number_in_text(raw[level]@[field]@)
}

/// Whether both texts of a level are numbers.
pub open spec fn level_reads(raw: Seq<[String; 2]>, level: int) -> bool {
    number_at(raw, level, 0) is Some && number_at(raw, level, 1) is Some
}

/// Whether the levels are those that a list of texts writes.
pub open spec fn levels_read(raw: Seq<[String; 2]>, levels: Seq<DepthSnapshotLevel>) -> bool {
    &&& levels.len() == raw.len()
    &&& forall|i: int|
        0 <= i < raw.len() ==> number_at(raw, i, 0) == Some((#[trigger] levels[i]).price@)
            && number_at(raw, i, 1) == Some(levels[i].qty@)
}

/// Whether an error names the first text that is not a number.
pub open spec fn first_unread(raw: Seq<[String; 2]>, error: DepthLevelError) -> bool {
    let level = match error {
        DepthLevelError::Price { level } => level,
        DepthLevelError::Qty { level } => level,
    };
    &&& level < raw.len()
    &&& forall|i: int| 0 <= i < level ==> #[trigger] level_reads(raw, i)
    &&& match error {
        DepthLevelError::Price { .. } => number_at(raw, level as int, 0) is None,
        DepthLevelError::Qty { .. } => number_at(raw, level as int, 0) is Some && number_at(
            raw,
            level as int,
            1,
        ) is None,
    }
}

/// Reads price levels from pairs of texts: a price and a quantity each.
pub fn parse_depth_levels(raw: Vec<[String; 2]>) -> (r: Result<Vec<DepthSnapshotLevel>, DepthLevelError>)
    ensures
        r is Ok <==> forall|i: int| 0 <= i < raw@.len() ==> #[trigger] level_reads(raw@, i),
        match r {
            Ok(levels) => levels_read(raw@, levels@),
            Err(error) => first_unread(raw@, error),
        },
{
    let mut out: Vec<DepthSnapshotLevel> = Vec::new();
    let mut i: usize = 0;
    while i < raw.len()
        invariant
            i <= raw@.len(),
            out@.len() == i,
            forall|j: int| 0 <= j < i ==> #[trigger] level_reads(raw@, j),
            forall|j: int|
                0 <= j < i ==> number_at(raw@, j, 0) == Some((#[trigger] out@[j]).price@) && number_at(
                    raw@,
                    j,
                    1,
                ) == Some(out@[j].qty@),
        decreases raw@.len() - i,
    {
        let texts: &[String; 2] = &raw[i];
        let price: Decimal = match Decimal::parse(texts[0].as_str()) {
            Some(price) => price,
            None => {
                proof {
                    assert(!level_reads(raw@, i as int));
                }
                return Err(DepthLevelError::Price { level: i });
            },
        };
        let qty: Decimal = match Decimal::parse(texts[1].as_str()) {
            Some(qty) => qty,
            None => {
                proof {
                    assert(!level_reads(raw@, i as int));
                }
                return Err(DepthLevelError::Qty { level: i });
            },
        };
        out.push(DepthSnapshotLevel { price, qty });
        i = i + 1;
    }
    Ok(out)
}

/// A level as a pair of texts: the price and the quantity.
pub fn level_texts(price: &Decimal, qty: &Decimal) -> (r: [String; 2])
    ensures
        r@[0]@ == crate::decimal::text_of_number(price@),
        r@[1]@ == crate::decimal::text_of_number(qty@),
        crate::decimal::number_in_text(r@[0]@) == Some(crate::decimal::unsigned_zero(price@)),
        crate::decimal::number_in_text(r@[1]@) == Some(crate::decimal::unsigned_zero(qty@)),
{
    [price.to_text(), qty.to_text()]
}

/// Reading the texts of levels gives the levels back as they are written.
pub proof fn law_levels_survive_texts(
    levels: Seq<DepthSnapshotLevel>,
    raw: Seq<[String; 2]>,
    again: Seq<DepthSnapshotLevel>,
)
    requires
        raw.len() == levels.len(),
        forall|i: int|
            0 <= i < raw.len() ==> number_at(raw, i, 0) == Some((#[trigger] levels[i]).price@)
                && number_at(raw, i, 1) == Some(levels[i].qty@),
        levels_read(raw, again),
    ensures
        again == levels,
{
    assert forall|i: int| 0 <= i < levels.len() implies again[i] == levels[i] by {
        crate::decimal::lemma_written_alike(again[i].price, levels[i].price);
        crate::decimal::lemma_written_alike(again[i].qty, levels[i].qty);
    }
    assert(again =~= levels);
}

/// A limit that the exchange accepts: from 1 to 5000.
pub open spec fn limit_in_bounds(limit: int) -> int {
    if limit < 1 {
        1
    } else if limit > 5000 {
        5000
    } else {
        limit
    }
}

/// The address under which the exchange gives a snapshot of a pair.
pub fn depth_snapshot_url(symbol: &str, limit: u16) -> (r: String)
    ensures
        r@ == "https://api.binance.com/api/v3/depth?symbol="@ + crate::text::raised(symbol@) + "&limit="@
            + crate::text::digits(limit_in_bounds(limit as int) as nat),
{
    let bounded: u16 = if limit < 1 {
        1
    } else if limit > 5000 {
        5000
    } else {
        limit
    };
    let mut url: String = "https://api.binance.com/api/v3/depth?symbol=".to_owned();
    url.append(uppercase(symbol).as_str());
    url.append("&limit=");
    url.append(number_text(bounded as u64).as_str());
    url
}

/// Which side of a snapshot could not be read.
#[derive(Debug, Clone, Copy, PartialEq, Eq)]
pub enum SnapshotError {
    Bids(DepthLevelError),
    Asks(DepthLevelError),
}

/// Reads the answer to a request for a snapshot.
pub fn read_depth_snapshot(
    symbol: &str,
    last_update_id: u64,
    bids: Vec<[String; 2]>,
    asks: Vec<[String; 2]>,
    fetched_at_ms: u64,
) -> (r: Result<BinanceDepthSnapshot, SnapshotError>)
    ensures
        r is Ok <==> (forall|i: int| 0 <= i < bids@.len() ==> #[trigger] level_reads(bids@, i)) && (
        forall|i: int| 0 <= i < asks@.len() ==> #[trigger] level_reads(asks@, i)),
        match r {
            Ok(snapshot) => {
                &&& snapshot.symbol@ == crate::text::lowered(symbol@)
                &&& snapshot.last_update_id == last_update_id
                &&& levels_read(bids@, snapshot.bids@)
                &&& levels_read(asks@, snapshot.asks@)
                &&& snapshot.fetched_at_ms == fetched_at_ms
            },
            Err(SnapshotError::Bids(error)) => first_unread(bids@, error),
            Err(SnapshotError::Asks(error)) => first_unread(asks@, error) && forall|i: int|
                0 <= i < bids@.len() ==> #[trigger] level_reads(bids@, i),
        },
{
    let ghost raw_bids = bids@;
    let ghost raw_asks = asks@;
    let bid_levels: Vec<DepthSnapshotLevel> = match parse_depth_levels(bids) {
        Ok(levels) => levels,
        Err(error) => {
            return Err(SnapshotError::Bids(error));
        },
    };
    let ask_levels: Vec<DepthSnapshotLevel> = match parse_depth_levels(asks) {
        Ok(levels) => levels,
        Err(error) => {
            return Err(SnapshotError::Asks(error));
        },
    };
    Ok(
        BinanceDepthSnapshot {
            symbol: lowercase(symbol),
            last_update_id,
            bids: bid_levels,
            asks: ask_levels,
            fetched_at_ms,
        },
    )
}

/// A limit that the exchange accepts is the nearest one to what is asked for.
pub proof fn law_limit_is_the_nearest(limit: int)
    ensures
        1 <= limit_in_bounds(limit) <= 5000,
        1 <= limit <= 5000 ==> limit_in_bounds(limit) == limit,
        limit < 1 ==> limit_in_bounds(limit) == 1,
        limit > 5000 ==> limit_in_bounds(limit) == 5000,
{
}

/// Levels that were read have the price of the first text and the quantity of the
/// second, level by level.
pub proof fn law_read_levels_are_the_texts(
    raw: Seq<[String; 2]>,
    levels: Seq<DepthSnapshotLevel>,
    i: int,
)
    requires
        levels_read(raw, levels),
        0 <= i < raw.len(),
    ensures
        levels.len() == raw.len(),
        crate::decimal::number_in_text(raw[i]@[0]@) == Some(levels[i].price@),
        crate::decimal::number_in_text(raw[i]@[1]@) == Some(levels[i].qty@),
{
    assert(levels[i] == levels[i]);
}

/// A level that cannot be read is named by its place: the first of which a text is
/// not a number, its price before its quantity.
pub proof fn law_first_unread_text_is_named(raw: Seq<[String; 2]>, error: DepthLevelError, i: int)
    requires
        first_unread(raw, error),
    ensures
        error matches DepthLevelError::Price { level } ==> {
            &&& level < raw.len()
            &&& crate::decimal::number_in_text(raw[level as int]@[0]@) is None
            &&& 0 <= i < level ==> crate::decimal::number_in_text(raw[i]@[0]@) is Some
                && crate::decimal::number_in_text(raw[i]@[1]@) is Some
        },
        error matches DepthLevelError::Qty { level } ==> {
            &&& level < raw.len()
            &&& crate::decimal::number_in_text(raw[level as int]@[0]@) is Some
            &&& crate::decimal::number_in_text(raw[level as int]@[1]@) is None
            &&& 0 <= i < level ==> crate::decimal::number_in_text(raw[i]@[0]@) is Some
                && crate::decimal::number_in_text(raw[i]@[1]@) is Some
        },
{
    assert(level_reads(raw, i) == (number_at(raw, i, 0) is Some && number_at(raw, i, 1) is Some));
}

} // verus!
