//! Checking a recording: do its snapshots and changes keep every book in step?

use vstd::prelude::*;

use crate::binance_rest::{DepthSnapshotLevel, parse_depth_levels};
use crate::cli::{
    CliRequest, is_command, is_option, unexpected_argument_message, unknown_option_message,
};
use crate::market_state::{Market, MarketState, pair_key_from_stream};
use crate::orderbook::{
    ApplyOutcome, DiffView, OrderBookDiff, OrderBookError, PriceLevel, SnapshotView,
};
use crate::text::{concat2, lowercase, same_text};
use crate::text_map::TextMap;

verus! {

/// What the subcommand is asked to do.
#[derive(Debug, Clone)]
pub struct ReplayCheckConfig {
    pub path: String,
    pub strict: bool,
}

impl Default for ReplayCheckConfig {
    fn default() -> (r: ReplayCheckConfig)
        ensures
            r@ == default_config(),
    {
        ReplayCheckConfig { path: "data/replay_market.jsonl".to_owned(), strict: false }
    }
}

/// The texts and choices of [`ReplayCheckConfig`].
pub struct ReplayCheckConfigView {
    pub path: Seq<char>,
    pub strict: bool,
}

impl View for ReplayCheckConfig {
    type V = ReplayCheckConfigView;

    open spec fn view(&self) -> ReplayCheckConfigView {
        ReplayCheckConfigView { path: self.path@, strict: self.strict }
    }
}

pub open spec fn default_config() -> ReplayCheckConfigView {
    ReplayCheckConfigView { path: "data/replay_market.jsonl"@, strict: false }
}

/// What arguments come to, read one after the other on top of what was read
/// before them.
pub open spec fn args_read(
    args: Seq<Seq<char>>,
    so_far: ReplayCheckConfigView,
    path_set: bool,
) -> Result<ReplayCheckConfigView, Seq<char>>
    decreases args.len(),
{
    if args.len() == 0 {
        Ok(so_far)
    } else if args[0] == "--strict"@ {
        args_read(args.drop_first(), ReplayCheckConfigView { strict: true, ..so_far }, path_set)
    } else if crate::cli::option_like(args[0]) {
        Err(crate::cli::unknown_option(args[0]))
    } else if path_set {
        Err(crate::cli::unexpected_argument(args[0]))
    } else {
        args_read(args.drop_first(), ReplayCheckConfigView { path: args[0], ..so_far }, true)
    }
}

/// Reads the arguments of the subcommand.
pub fn parse_args(args: &Vec<String>) -> (r: Result<ReplayCheckConfig, String>)
    ensures
        match r {
            Ok(config) => args_read(crate::text::texts(args@), default_config(), false) == Ok::<
                ReplayCheckConfigView,
                Seq<char>,
            >(config@),
            Err(message) => args_read(crate::text::texts(args@), default_config(), false) == Err::<
                ReplayCheckConfigView,
                Seq<char>,
            >(message@),
        },
{
    let ghost all = crate::text::texts(args@);
    let mut config: ReplayCheckConfig = ReplayCheckConfig::default();
    let mut path_set: bool = false;
    let mut i: usize = 0;
    proof {
        assert(all.skip(0) =~= all);
    }
    while i < args.len()
        invariant
            i <= args@.len(),
            all == crate::text::texts(args@),
            args_read(all, default_config(), false) == args_read(all.skip(i as int), config@, path_set),
        decreases args@.len() - i,
    {
        let arg: &str = args[i].as_str();
        proof {
            assert(all.skip(i as int)[0] == arg@);
            assert(all.skip(i as int).drop_first() =~= all.skip(i + 1));
        }
        if same_text(arg, "--strict") {
            config.strict = true;
        } else if is_option(arg) {
            return Err(unknown_option_message(arg));
        } else if path_set {
            return Err(unexpected_argument_message(arg));
        } else {
            config.path = arg.to_owned();
            path_set = true;
        }
        i = i + 1;
    }
    Ok(config)
}

/// Whether a request is the one that the arguments of the program make.
pub open spec fn requested(args: Seq<Seq<char>>, request: CliRequest<ReplayCheckConfig>) -> bool {
    let outcome = args_read(args.drop_first(), default_config(), false);
    match request {
        CliRequest::Other => !crate::cli::names_command(args, "replay-check"@),
        CliRequest::Refused(message) => crate::cli::names_command(args, "replay-check"@) && outcome
            == Err::<ReplayCheckConfigView, Seq<char>>(message@),
        CliRequest::Run(config) => crate::cli::names_command(args, "replay-check"@) && outcome == Ok::<
            ReplayCheckConfigView,
            Seq<char>,
        >(config@),
    }
}

/// What the arguments of the program ask of this subcommand.
pub fn request_from_cli_args(args: Vec<String>) -> (r: CliRequest<ReplayCheckConfig>)
    ensures
        requested(crate::text::texts(args@), r),
{
    if !is_command(&args, "replay-check") {
        return CliRequest::Other;
    }
    let mut rest: Vec<String> = args;
    let ghost all = crate::text::texts(rest@);
    let _ = rest.remove(0);
    proof {
        assert(crate::text::texts(rest@) =~= all.drop_first());
    }
    match parse_args(&rest) {
        Ok(config) => CliRequest::Run(config),
        Err(message) => CliRequest::Refused(message),
    }
}

/// A recorded snapshot.
#[derive(Debug)]
pub struct ReplaySnapshotRecord {
    pub pair: String,
    pub stream: Option<String>,
    pub last_update_id: u64,
    pub timestamp_ms: u64,
    pub bids: Vec<PriceLevel>,
    pub asks: Vec<PriceLevel>,
}

/// Recorded changes.
#[derive(Debug)]
pub struct ReplayDiffRecord {
    pub stream: String,
    pub first_update_id: u64,
    pub final_update_id: u64,
    pub prev_final_update_id: Option<u64>,
    pub event_time_ms: Option<u64>,
    pub receive_time_ms: Option<u64>,
    pub bids: Vec<PriceLevel>,
    pub asks: Vec<PriceLevel>,
}

/// What a line of a recording holds.
#[derive(Debug)]
pub enum ReplayRecord {
    Snapshot(ReplaySnapshotRecord),
    Diff(ReplayDiffRecord),
}

/// A line of a recording.
#[derive(Debug)]
pub enum ReplayLine {
    /// Nothing but white space.
    Blank,
    /// Not a record.
    Unreadable,
    Record(ReplayRecord),
}

/// Whether all pairs of texts are levels.
pub open spec fn all_read(raw: Seq<[String; 2]>) -> bool {
    forall|i: int| 0 <= i < raw.len() ==> #[trigger] crate::binance_rest::level_reads(raw, i)
}

/// Whether the levels are those that a list of texts writes.
pub open spec fn price_levels_read(raw: Seq<[String; 2]>, levels: Seq<PriceLevel>) -> bool {
    &&& levels.len() == raw.len()
    &&& forall|i: int|
        0 <= i < raw.len() ==> crate::binance_rest::number_at(raw, i, 0) == Some(
            (#[trigger] levels[i]).price@,
        ) && crate::binance_rest::number_at(raw, i, 1) == Some(levels[i].qty@)
}

/// Reads price levels from pairs of texts.
pub fn price_levels_from_pairs(raw: Vec<[String; 2]>) -> (r: Option<Vec<PriceLevel>>)
    ensures
        r is Some <==> all_read(raw@),
        r matches Some(levels) ==> price_levels_read(raw@, levels@),
{
    let read: Vec<DepthSnapshotLevel> = match parse_depth_levels(raw) {
        Ok(read) => read,
        Err(_) => {
            return None;
        },
    };
    let mut out: Vec<PriceLevel> = Vec::new();
    for i in 0..read.len()
        invariant
            out@.len() == i,
            forall|j: int|
                0 <= j < i ==> (#[trigger] out@[j]).price == read@[j].price && out@[j].qty
                    == read@[j].qty,
    {
        out.push(PriceLevel { price: read[i].price, qty: read[i].qty });
    }
    Some(out)
}

/// A recorded snapshot whose levels are still texts, as a line.
pub fn snapshot_line(
    pair: String,
    stream: Option<String>,
    last_update_id: u64,
    timestamp_ms: u64,
    bids: Vec<[String; 2]>,
    asks: Vec<[String; 2]>,
) -> (r: ReplayLine)
    ensures
        match r {
            ReplayLine::Blank => false,
            ReplayLine::Unreadable => !(all_read(bids@) && all_read(asks@)),
            ReplayLine::Record(ReplayRecord::Snapshot(record)) => {
                &&& record.pair == pair
                &&& record.stream == stream
                &&& record.last_update_id == last_update_id
                &&& record.timestamp_ms == timestamp_ms
                &&& price_levels_read(bids@, record.bids@)
                &&& price_levels_read(asks@, record.asks@)
                &&& all_read(bids@) && all_read(asks@)
            },
            ReplayLine::Record(ReplayRecord::Diff(_)) => false,
        },
{
    match (price_levels_from_pairs(bids), price_levels_from_pairs(asks)) {
        (Some(bid_levels), Some(ask_levels)) => ReplayLine::Record(
            ReplayRecord::Snapshot(
                ReplaySnapshotRecord {
                    pair,
                    stream,
                    last_update_id,
                    timestamp_ms,
                    bids: bid_levels,
                    asks: ask_levels,
                },
            ),
        ),
        _ => ReplayLine::Unreadable,
    }
}

/// The numbers of recorded changes.
#[derive(Debug, Clone, Copy)]
pub struct DiffNumbers {
    pub first_update_id: u64,
    pub final_update_id: u64,
    pub prev_final_update_id: Option<u64>,
    pub event_time_ms: Option<u64>,
    pub receive_time_ms: Option<u64>,
}

/// Recorded changes whose levels are still texts, as a line.
pub fn diff_line(
    stream: String,
    numbers: DiffNumbers,
    bids: Vec<[String; 2]>,
    asks: Vec<[String; 2]>,
) -> (r: ReplayLine)
    ensures
        match r {
            ReplayLine::Blank => false,
            ReplayLine::Unreadable => !(all_read(bids@) && all_read(asks@)),
            ReplayLine::Record(ReplayRecord::Snapshot(_)) => false,
            ReplayLine::Record(ReplayRecord::Diff(record)) => {
                &&& record.stream == stream
                &&& record.first_update_id == numbers.first_update_id
                &&& record.final_update_id == numbers.final_update_id
                &&& record.prev_final_update_id == numbers.prev_final_update_id
                &&& record.event_time_ms == numbers.event_time_ms
                &&& record.receive_time_ms == numbers.receive_time_ms
                &&& price_levels_read(bids@, record.bids@)
                &&& price_levels_read(asks@, record.asks@)
                &&& all_read(bids@) && all_read(asks@)
            },
        },
{
    match (price_levels_from_pairs(bids), price_levels_from_pairs(asks)) {
        (Some(bid_levels), Some(ask_levels)) => ReplayLine::Record(
            ReplayRecord::Diff(
                ReplayDiffRecord {
                    stream,
                    first_update_id: numbers.first_update_id,
                    final_update_id: numbers.final_update_id,
                    prev_final_update_id: numbers.prev_final_update_id,
                    event_time_ms: numbers.event_time_ms,
                    receive_time_ms: numbers.receive_time_ms,
                    bids: bid_levels,
                    asks: ask_levels,
                },
            ),
        ),
        _ => ReplayLine::Unreadable,
    }
}

/// Changes that wait for a snapshot, with the stream that they came on.
#[derive(Debug)]
pub struct BufferedReplayDiff {
    pub stream_name: String,
    pub diff: OrderBookDiff,
}

/// What waiting changes say.
pub struct BufferedView {
    pub stream: Seq<char>,
    pub diff: DiffView,
}

impl View for BufferedReplayDiff {
    type V = BufferedView;

    open spec fn view(&self) -> BufferedView {
        BufferedView { stream: self.stream_name@, diff: self.diff@ }
    }
}

/// What a list of waiting changes says.
pub open spec fn buffered(list: Seq<BufferedReplayDiff>) -> Seq<BufferedView> {
    list.map_values(|b: BufferedReplayDiff| b@)
}

/// The market after waiting changes were applied in order, up to the first
/// that is refused.
pub open spec fn replayed_market(market: Market, pair: Seq<char>, list: Seq<BufferedView>) -> Market
    decreases list.len(),
{
    if list.len() == 0 {
        market
    } else {
        let next = crate::market_state::market_after_diff(market, pair, list[0].stream, list[0].diff);
        match crate::orderbook::diff_result(
            crate::market_state::book_of(market, pair),
            list[0].diff,
        ) {
            Ok(_) => replayed_market(next, pair, list.drop_first()),
            Err(_) => next,
        }
    }
}

/// The first refusal in applying waiting changes in order, if there is one.
pub open spec fn replay_refusal(market: Market, pair: Seq<char>, list: Seq<BufferedView>) -> Option<
    OrderBookError,
>
    decreases list.len(),
{
    if list.len() == 0 {
        None
    } else {
        let next = crate::market_state::market_after_diff(market, pair, list[0].stream, list[0].diff);
        match crate::orderbook::diff_result(
            crate::market_state::book_of(market, pair),
            list[0].diff,
        ) {
            Ok(_) => replay_refusal(next, pair, list.drop_first()),
            Err(error) => Some(error),
        }
    }
}

/// The number of the last update of a pair; zero where there is none.
pub open spec fn last_id(market: Market, pair: Seq<char>) -> u64 {
    match crate::market_state::book_of(market, pair).last_update_id {
        Some(id) => id,
        None => 0,
    }
}

/// Whether no waiting changes can be tried yet: the book is out of step, or
/// the first of them leaves a gap behind the last update.
pub open spec fn must_wait(market: Market, pair: Seq<char>, list: Seq<BufferedView>) -> bool {
    ||| !crate::market_state::pair_synced(market, pair)
    ||| list.len() > 0 && list[0].diff.first_update_id > crate::orderbook::next_id(last_id(market, pair))
}

/// The waiting changes that go beyond an update.
pub open spec fn still_new(list: Seq<BufferedView>, id: u64) -> Seq<BufferedView> {
    list.filter(|b: BufferedView| b.diff.final_update_id > id)
}

/// Whether some of the waiting changes carry on from an update.
pub open spec fn has_bridge(list: Seq<BufferedView>, id: u64) -> bool {
    exists|i: int| 0 <= i < list.len() && crate::orderbook::carries_on(#[trigger] list[i].diff, id)
}

/// The waiting changes from the first on that carries on from an update.
pub open spec fn from_bridge(list: Seq<BufferedView>, id: u64) -> Seq<BufferedView>
    decreases list.len(),
{
    if list.len() == 0 || crate::orderbook::carries_on(list[0].diff, id) {
        list
    } else {
        from_bridge(list.drop_first(), id)
    }
}

/// What comes of trying waiting changes on a market.
pub struct CatchUp {
    pub result: Result<bool, OrderBookError>,
    pub market: Market,
    pub waiting: Seq<BufferedView>,
}

/// What comes of trying waiting changes right after a snapshot. Changes that
/// the snapshot covers are dropped. From the first on that carries on from the
/// snapshot, the rest is applied; without such a one all go on waiting.
pub open spec fn catch_up(market: Market, pair: Seq<char>, list: Seq<BufferedView>) -> CatchUp {
    let id = last_id(market, pair);
    let fresh = still_new(list, id);
    let replay = from_bridge(fresh, id);
    if must_wait(market, pair, list) {
        CatchUp { result: Ok(false), market, waiting: list }
    } else if !has_bridge(fresh, id) {
        CatchUp { result: Ok(false), market, waiting: fresh }
    } else {
        CatchUp {
            result: match replay_refusal(market, pair, replay) {
                Some(error) => Err(error),
                None => Ok(true),
            },
            market: replayed_market(market, pair, replay),
            waiting: Seq::empty(),
        }
    }
}

proof fn lemma_from_bridge(list: Seq<BufferedView>, id: u64, at: int)
    requires
        0 <= at < list.len(),
        crate::orderbook::carries_on(list[at].diff, id),
        forall|i: int| 0 <= i < at ==> !crate::orderbook::carries_on(#[trigger] list[i].diff, id),
    ensures
        from_bridge(list, id) == list.skip(at),
    decreases list.len(),
{
    if at == 0 {
        assert(list.skip(0) =~= list);
    } else {
        let rest = list.drop_first();
        assert forall|i: int| 0 <= i < at - 1 implies !crate::orderbook::carries_on(
            #[trigger] rest[i].diff,
            id,
        ) by {
            assert(rest[i] == list[i + 1]);
        }
        assert(!crate::orderbook::carries_on(list[0].diff, id));
        lemma_from_bridge(rest, id, at - 1);
        assert(rest.skip(at - 1) =~= list.skip(at));
    }
}

/// Whether changes carry on from an update.
fn bridges(diff: &OrderBookDiff, last_update_id: u64) -> (r: bool)
    ensures
        r == crate::orderbook::carries_on(diff@, last_update_id),
{
    match diff.prev_final_update_id {
        Some(prev_final) => prev_final == last_update_id,
        None => {
            let next: u64 = last_update_id.saturating_add(1);
            diff.first_update_id <= next && diff.final_update_id >= next
        },
    }
}

/// The waiting changes that go beyond an update.
fn retain_new(list: Vec<BufferedReplayDiff>, last_update_id: u64) -> (r: Vec<BufferedReplayDiff>)
    ensures
        buffered(r@) == still_new(buffered(list@), last_update_id),
{
    let ghost all = list@;
    let ghost pred = |b: BufferedView| b.diff.final_update_id > last_update_id;
    let mut out: Vec<BufferedReplayDiff> = Vec::new();
    for update in it: list
        invariant
            it.seq() == all,
            buffered(out@) =~= buffered(all).take(it.index() as int).filter(pred),
            pred == (|b: BufferedView| b.diff.final_update_id > last_update_id),
    {
        let ghost i = it.index() as int;
        let ghost before = out@;
        proof {
            reveal_with_fuel(Seq::filter, 2);
            assert(buffered(all).take(i + 1).drop_last() =~= buffered(all).take(i));
            assert(buffered(all).take(i + 1).last() == update@);
            assert(buffered(before.push(update)) =~= buffered(before).push(update@));
        }
        if update.diff.final_update_id > last_update_id {
            out.push(update);
        }
    }
    proof {
        assert(buffered(all).take(all.len() as int) =~= buffered(all));
    }
    out
}

/// Tries waiting changes right after a snapshot: `true` where they were
/// applied, `false` where they go on waiting.
pub fn apply_buffered_diffs_after_snapshot_local(
    market_state: &mut MarketState,
    pair_key: &str,
    buffer: &mut Vec<BufferedReplayDiff>,
) -> (r: Result<bool, OrderBookError>)
    ensures
        r == catch_up(old(market_state)@, pair_key@, buffered(old(buffer)@)).result,
        final(market_state)@ == catch_up(
            old(market_state)@,
            pair_key@,
            buffered(old(buffer)@),
        ).market,
        buffered(final(buffer)@) == catch_up(
            old(market_state)@,
            pair_key@,
            buffered(old(buffer)@),
        ).waiting,
{
    let ghost start = market_state@;
    let ghost list = buffered(buffer@);
    let last_update_id: u64 = match market_state.export_depth_view(pair_key, 1) {
        Some(view) => view.depth.data.last_update_id,
        None => {
            return Ok(false);
        },
    };
    if buffer.len() > 0 && buffer[0].diff.first_update_id > last_update_id.saturating_add(1) {
        return Ok(false);
    }
    let mut taken: Vec<BufferedReplayDiff> = Vec::new();
    std::mem::swap(&mut taken, buffer);
    let mut fresh: Vec<BufferedReplayDiff> = retain_new(taken, last_update_id);
    let ghost kept = buffered(fresh@);
    let mut at: usize = 0;
    while at < fresh.len() && !bridges(&fresh[at].diff, last_update_id)
        invariant
            at <= fresh@.len(),
            kept == buffered(fresh@),
            forall|i: int|
                0 <= i < at ==> !crate::orderbook::carries_on(#[trigger] kept[i].diff, last_update_id),
        decreases fresh@.len() - at,
    {
        proof {
            assert(kept[at as int] == fresh@[at as int]@);
        }
        at = at + 1;
    }
    if at == fresh.len() {
        *buffer = fresh;
        return Ok(false);
    }
    proof {
        assert(kept[at as int] == fresh@[at as int]@);
        assert(crate::orderbook::carries_on(kept[at as int].diff, last_update_id));
        lemma_from_bridge(kept, last_update_id, at as int);
    }
    let replay: Vec<BufferedReplayDiff> = fresh.split_off(at);
    proof {
        assert(buffered(replay@) =~= kept.skip(at as int));
        assert(buffered(buffer@) =~= Seq::<BufferedView>::empty());
    }
    let ghost todo = buffered(replay@);
    let ghost all = replay@;
    proof {
        assert(todo.skip(0) =~= todo);
    }
    for update in it: replay
        invariant
            it.seq() == all,
            todo == buffered(all),
            start == old(market_state)@,
            list == buffered(old(buffer)@),
            replayed_market(start, pair_key@, todo) == replayed_market(
                market_state@,
                pair_key@,
                todo.skip(it.index() as int),
            ),
            replay_refusal(start, pair_key@, todo) == replay_refusal(
                market_state@,
                pair_key@,
                todo.skip(it.index() as int),
            ),
            buffered(buffer@) == Seq::<BufferedView>::empty(),
            catch_up(start, pair_key@, list).waiting == Seq::<BufferedView>::empty(),
            catch_up(start, pair_key@, list).market == replayed_market(start, pair_key@, todo),
            catch_up(start, pair_key@, list).result == match replay_refusal(start, pair_key@, todo) {
                Some(error) => Err::<bool, OrderBookError>(error),
                None => Ok::<bool, OrderBookError>(true),
            },
    {
        let ghost i = it.index() as int;
        proof {
            assert(todo.skip(i)[0] == update@);
            assert(todo.skip(i).drop_first() =~= todo.skip(i + 1));
        }
        match market_state.apply_orderbook_diff(pair_key, update.stream_name.as_str(), update.diff) {
            Ok(_) => {},
            Err(error) => {
                return Err(error);
            },
        }
    }
    Ok(true)
}

/// Counts of what a recording held and of what became of it.
#[derive(Debug, Clone, Copy)]
pub struct ReplayStats {
    pub total_lines: usize,
    pub parsed_lines: usize,
    pub ignored_lines: usize,
    pub snapshot_lines: usize,
    pub diff_lines: usize,
    pub diffs_applied: usize,
    pub diffs_ignored_stale: usize,
    pub diff_apply_errors: usize,
    pub buffered_diff_lines: usize,
    pub buffered_replay_successes: usize,
    pub buffered_replay_failures: usize,
    pub buffered_replay_waiting_snapshot: usize,
}

/// The counts before the first line.
pub open spec fn no_counts() -> ReplayStats {
    ReplayStats {
        total_lines: 0,
        parsed_lines: 0,
        ignored_lines: 0,
        snapshot_lines: 0,
        diff_lines: 0,
        diffs_applied: 0,
        diffs_ignored_stale: 0,
        diff_apply_errors: 0,
        buffered_diff_lines: 0,
        buffered_replay_successes: 0,
        buffered_replay_failures: 0,
        buffered_replay_waiting_snapshot: 0,
    }
}

impl Default for ReplayStats {
    fn default() -> (r: ReplayStats)
        ensures
            r == no_counts(),
    {
        ReplayStats {
            total_lines: 0,
            parsed_lines: 0,
            ignored_lines: 0,
            snapshot_lines: 0,
            diff_lines: 0,
            diffs_applied: 0,
            diffs_ignored_stale: 0,
            diff_apply_errors: 0,
            buffered_diff_lines: 0,
            buffered_replay_successes: 0,
            buffered_replay_failures: 0,
            buffered_replay_waiting_snapshot: 0,
        }
    }
}

/// Whether counts can be those of a recording: each line counts once as blank,
/// unreadable, snapshot or changes, and changes end in one place each.
pub open spec fn counts_fit(stats: ReplayStats) -> bool {
    &&& stats.parsed_lines + stats.ignored_lines <= stats.total_lines
    &&& stats.snapshot_lines + stats.diff_lines == stats.parsed_lines
    &&& stats.diffs_applied + stats.diffs_ignored_stale + stats.buffered_diff_lines
        == stats.diff_lines
    &&& stats.diff_apply_errors <= stats.buffered_diff_lines
    &&& stats.buffered_replay_successes + stats.buffered_replay_failures
        + stats.buffered_replay_waiting_snapshot <= stats.snapshot_lines
}

/// The number after a count.
pub open spec fn bumped(count: usize) -> usize {
    (count + 1) as usize
}

/// What a check of a recording has come to.
pub struct ReplayView {
    pub market: Market,
    pub pending: Map<Seq<char>, Seq<BufferedView>>,
    pub stats: ReplayStats,
}

/// The changes of a pair that wait.
pub open spec fn waiting_of(pending: Map<Seq<char>, Seq<BufferedView>>, pair: Seq<char>) -> Seq<
    BufferedView,
> {
    if pending.dom().contains(pair) {
        pending[pair]
    } else {
        Seq::empty()
    }
}

/// The stream that a recorded snapshot names, or that its pair has by default.
pub open spec fn stream_of(record: ReplaySnapshotRecord) -> Seq<char> {
    match record.stream {
        Some(stream) => stream@,
        None => crate::text::lowered(record.pair@) + "@depth@100ms"@,
    }
}

/// What a recorded snapshot says.
pub open spec fn snapshot_of(record: ReplaySnapshotRecord) -> SnapshotView {
    SnapshotView {
        last_update_id: record.last_update_id,
        bids: record.bids@,
        asks: record.asks@,
        snapshot_time_ms: Some(record.timestamp_ms),
    }
}

/// What recorded changes say.
pub open spec fn diff_of(record: ReplayDiffRecord) -> DiffView {
    DiffView {
        first_update_id: record.first_update_id,
        final_update_id: record.final_update_id,
        prev_final_update_id: record.prev_final_update_id,
        bids: record.bids@,
        asks: record.asks@,
        event_time_ms: record.event_time_ms,
        receive_time_ms: record.receive_time_ms,
    }
}

/// What a check has come to after a recorded snapshot: the book of the pair is
/// replaced, and the changes of the pair that wait are tried.
pub open spec fn after_snapshot_record(
    state: ReplayView,
    record: ReplaySnapshotRecord,
) -> ReplayView {
    let pair = crate::text::lowered(record.pair@);
    let replaced = crate::market_state::market_after_snapshot(
        state.market,
        pair,
        stream_of(record),
        snapshot_of(record),
    );
    let stats = ReplayStats { snapshot_lines: bumped(state.stats.snapshot_lines), ..state.stats };
    let waiting = waiting_of(state.pending, pair);
    let tried = catch_up(replaced, pair, waiting);
    if waiting.len() == 0 {
        ReplayView { market: replaced, stats, ..state }
    } else {
        ReplayView {
            market: match tried.result {
                Ok(_) => tried.market,
                Err(_) => crate::market_state::market_after_unsync(tried.market, pair),
            },
            pending: state.pending.insert(pair, tried.waiting),
            stats: match tried.result {
                Ok(true) => ReplayStats {
                    buffered_replay_successes: bumped(stats.buffered_replay_successes),
                    ..stats
                },
                Ok(false) => ReplayStats {
                    buffered_replay_waiting_snapshot: bumped(stats.buffered_replay_waiting_snapshot),
                    ..stats
                },
                Err(_) => ReplayStats {
                    buffered_replay_failures: bumped(stats.buffered_replay_failures),
                    ..stats
                },
            },
        }
    }
}

/// What a check has come to after recorded changes. A book in step takes them;
/// where it cannot, its levels are dropped and only these changes wait. For a
/// book out of step they join those that wait.
pub open spec fn after_diff_record(state: ReplayView, record: ReplayDiffRecord) -> ReplayView {
    let pair = crate::text::before(record.stream@, '@');
    let diff = diff_of(record);
    let this = BufferedView { stream: record.stream@, diff };
    let stats = ReplayStats { diff_lines: bumped(state.stats.diff_lines), ..state.stats };
    let kept = ReplayStats { buffered_diff_lines: bumped(stats.buffered_diff_lines), ..stats };
    let changed = crate::market_state::market_after_diff(state.market, pair, record.stream@, diff);
    if !crate::market_state::pair_synced(state.market, pair) {
        ReplayView {
            pending: state.pending.insert(pair, waiting_of(state.pending, pair).push(this)),
            stats: kept,
            ..state
        }
    } else {
        match crate::orderbook::diff_result(
            crate::market_state::book_of(state.market, pair),
            diff,
        ) {
            Ok(ApplyOutcome::Applied) => ReplayView {
                market: changed,
                stats: ReplayStats { diffs_applied: bumped(stats.diffs_applied), ..stats },
                ..state
            },
            Ok(ApplyOutcome::IgnoredStale) => ReplayView {
                market: changed,
                stats: ReplayStats {
                    diffs_ignored_stale: bumped(stats.diffs_ignored_stale),
                    ..stats
                },
                ..state
            },
            Err(_) => ReplayView {
                market: crate::market_state::market_after_unsync(changed, pair),
                pending: state.pending.insert(pair, seq![this]),
                stats: ReplayStats { diff_apply_errors: bumped(kept.diff_apply_errors), ..kept },
            },
        }
    }
}

/// What a check has come to after one more line.
pub open spec fn after_line(state: ReplayView, line: ReplayLine) -> ReplayView {
    let stats = ReplayStats { total_lines: bumped(state.stats.total_lines), ..state.stats };
    let parsed = ReplayView {
        stats: ReplayStats { parsed_lines: bumped(stats.parsed_lines), ..stats },
        ..state
    };
    match line {
        ReplayLine::Blank => ReplayView { stats, ..state },
        ReplayLine::Unreadable => ReplayView {
            stats: ReplayStats { ignored_lines: bumped(stats.ignored_lines), ..stats },
            ..state
        },
        ReplayLine::Record(ReplayRecord::Snapshot(record)) => after_snapshot_record(parsed, record),
        ReplayLine::Record(ReplayRecord::Diff(record)) => after_diff_record(parsed, record),
    }
}

/// A copy of changes.
fn copy_of_diff(diff: &OrderBookDiff) -> (r: OrderBookDiff)
    ensures
        r@ == diff@,
{
    OrderBookDiff {
        first_update_id: diff.first_update_id,
        final_update_id: diff.final_update_id,
        prev_final_update_id: diff.prev_final_update_id,
        bids: copy_of_levels(&diff.bids),
        asks: copy_of_levels(&diff.asks),
        event_time_ms: diff.event_time_ms,
        receive_time_ms: diff.receive_time_ms,
    }
}

fn copy_of_levels(levels: &Vec<PriceLevel>) -> (r: Vec<PriceLevel>)
    ensures
        r@ == levels@,
{
    let mut out: Vec<PriceLevel> = Vec::new();
    for i in 0..levels.len()
        invariant
            out@ == levels@.take(i as int),
    {
        proof {
            assert(levels@.take(i as int).push(levels@[i as int]) =~= levels@.take(i + 1));
        }
        out.push(levels[i]);
    }
    proof {
        assert(levels@.take(levels@.len() as int) =~= levels@);
    }
    out
}

/// A check of a recording, line by line.
#[derive(Debug)]
pub struct ReplayState {
    replay: Replay,
}

#[derive(Debug)]
struct Replay {
    market: MarketState,
    pending: TextMap<Vec<BufferedReplayDiff>>,
    stats: ReplayStats,
}

spec fn pending_of(pending: Map<Seq<char>, Vec<BufferedReplayDiff>>) -> Map<
    Seq<char>,
    Seq<BufferedView>,
> {
    pending.map_values(|list: Vec<BufferedReplayDiff>| buffered(list@))
}

impl View for ReplayState {
    type V = ReplayView;

    closed spec fn view(&self) -> ReplayView {
        self.replay@
    }
}

impl View for Replay {
    type V = ReplayView;

    closed spec fn view(&self) -> ReplayView {
        ReplayView {
            market: self.market@,
            pending: pending_of(self.pending@),
            stats: self.stats,
        }
    }
}

/// How many of the pairs have a book in step.
pub open spec fn synced_among(pairs: Seq<Seq<char>>, market: Market) -> nat
    decreases pairs.len(),
{
    if pairs.len() == 0 {
        0
    } else {
        synced_among(pairs.drop_last(), market) + if crate::market_state::pair_synced(
            market,
            pairs.last(),
        ) {
            1nat
        } else {
            0nat
        }
    }
}

/// How many of the pairs have changes that wait.
pub open spec fn waiting_among(
    pairs: Seq<Seq<char>>,
    pending: Map<Seq<char>, Seq<BufferedView>>,
) -> nat
    decreases pairs.len(),
{
    if pairs.len() == 0 {
        0
    } else {
        waiting_among(pairs.drop_last(), pending) + if pending[pairs.last()].len() > 0 {
            1nat
        } else {
            0nat
        }
    }
}

/// How many changes of the pairs wait.
pub open spec fn updates_among(
    pairs: Seq<Seq<char>>,
    pending: Map<Seq<char>, Seq<BufferedView>>,
) -> nat
    decreases pairs.len(),
{
    if pairs.len() == 0 {
        0
    } else {
        updates_among(pairs.drop_last(), pending) + pending[pairs.last()].len()
    }
}

/// What a check came to in the end.
#[derive(Debug, Clone, Copy)]
pub struct ReplaySummary {
    pub stats: ReplayStats,
    pub final_synced_pairs: usize,
    pub pending_pairs: usize,
    pub pending_updates: u128,
}

/// Whether a strict check fails: changes were refused, or still wait.
pub open spec fn fails_strictly(summary: ReplaySummary) -> bool {
    ||| summary.stats.diff_apply_errors > 0
    ||| summary.stats.buffered_replay_failures > 0
    ||| summary.pending_pairs > 0
}

impl ReplaySummary {
    /// Whether a strict check fails.
    pub fn strict_fail(&self) -> (r: bool)
        ensures
            r == fails_strictly(*self),
    {
        self.stats.diff_apply_errors > 0 || self.stats.buffered_replay_failures > 0
            || self.pending_pairs > 0
    }

    /// The message that a check ends with where it fails.
    pub fn verdict(&self, config: &ReplayCheckConfig) -> (r: Result<(), String>)
        ensures
            r is Err <==> config.strict && fails_strictly(*self),
            r matches Err(message) ==> message@
                == "strict replay-check failed (errors or pending buffered diffs remain)"@,
    {
        if config.strict && self.strict_fail() {
            return Err(
                "strict replay-check failed (errors or pending buffered diffs remain)".to_owned(),
            );
        }
        Ok(())
    }
}

impl ReplayState {
    #[verifier::type_invariant]
    spec fn well_formed(self) -> bool {
        counts_fit(self.replay@.stats)
    }

    /// A check before the first line.
    pub fn new() -> (r: ReplayState)
        ensures
            r@.market == Market::empty(),
            r@.pending == Map::<Seq<char>, Seq<BufferedView>>::empty(),
            r@.stats == no_counts(),
            r.pairs() == Seq::<Seq<char>>::empty(),
    {
        ReplayState { replay: Replay::new() }
    }

    /// The pairs that changes waited for at some time, each once.
    pub closed spec fn pairs(&self) -> Seq<Seq<char>> {
        self.replay.pairs()
    }

    /// Takes in one more line.
    pub fn step(&mut self, line: ReplayLine)
        requires
            old(self)@.stats.total_lines < usize::MAX,
        ensures
            final(self)@ == after_line(old(self)@, line),
    {
        proof {
            use_type_invariant(&*self);
        }
        let mut replay: Replay = Replay::new();
        std::mem::swap(&mut replay, &mut self.replay);
        replay.step(line);
        self.replay = replay;
    }

    /// What the check has come to.
    pub fn summary(&self) -> (r: ReplaySummary)
        ensures
            self.pairs().no_duplicates(),
            self.pairs().to_set() == self@.pending.dom(),
            counts_fit(r.stats),
            r.stats == self@.stats,
            r.final_synced_pairs == synced_among(self.pairs(), self@.market),
            r.pending_pairs == waiting_among(self.pairs(), self@.pending),
            r.pending_updates == updates_among(self.pairs(), self@.pending),
    {
        proof {
            use_type_invariant(self);
        }
        self.replay.summary()
    }
}

impl Replay {
    fn new() -> (r: Replay)
        ensures
            r@.market == Market::empty(),
            r@.pending == Map::<Seq<char>, Seq<BufferedView>>::empty(),
            r@.stats == no_counts(),
            r.pairs() == Seq::<Seq<char>>::empty(),
    {
        let r = Replay {
            market: MarketState::with_capacity(128),
            pending: TextMap::new(),
            stats: ReplayStats::default(),
        };
        proof {
            assert(r@.pending =~= Map::<Seq<char>, Seq<BufferedView>>::empty());
        }
        r
    }

    spec fn pairs(&self) -> Seq<Seq<char>> {
        self.pending.order()
    }

    fn step(&mut self, line: ReplayLine)
        requires
            counts_fit(old(self)@.stats),
            old(self)@.stats.total_lines < usize::MAX,
        ensures
            final(self)@ == after_line(old(self)@, line),
            counts_fit(final(self)@.stats),
    {
        self.stats.total_lines = self.stats.total_lines + 1;
        match line {
            ReplayLine::Blank => {},
            ReplayLine::Unreadable => {
                self.stats.ignored_lines = self.stats.ignored_lines + 1;
            },
            ReplayLine::Record(ReplayRecord::Snapshot(record)) => {
                self.stats.parsed_lines = self.stats.parsed_lines + 1;
                self.take_snapshot(record);
            },
            ReplayLine::Record(ReplayRecord::Diff(record)) => {
                self.stats.parsed_lines = self.stats.parsed_lines + 1;
                self.take_diff(record);
            },
        }
    }

    fn take_snapshot(&mut self, record: ReplaySnapshotRecord)
        requires
            old(self).stats.snapshot_lines < old(self).stats.parsed_lines,
            old(self).stats.buffered_replay_successes + old(self).stats.buffered_replay_failures
                + old(self).stats.buffered_replay_waiting_snapshot <= old(self).stats.snapshot_lines,
        ensures
            final(self)@ == after_snapshot_record(old(self)@, record),
    {
        let ghost start = self@;
        self.stats.snapshot_lines = self.stats.snapshot_lines + 1;
        let pair: String = lowercase(record.pair.as_str());
        let stream_name: String = match record.stream {
            Some(stream) => stream,
            None => concat2(pair.as_str(), "@depth@100ms"),
        };
        self.market.apply_orderbook_snapshot(
            pair.as_str(),
            stream_name,
            record.last_update_id,
            record.bids,
            record.asks,
            record.timestamp_ms,
        );
        let ghost pending = self.pending@;
        let mut buffer: Vec<BufferedReplayDiff> = match self.pending.remove(pair.as_str()) {
            Some(buffer) => buffer,
            None => {
                proof {
                    assert(self.pending@ =~= pending);
                    assert(self@ == after_snapshot_record(start, record));
                }
                return;
            },
        };
        proof {
            assert(buffered(buffer@) == waiting_of(start.pending, pair@));
        }
        if buffer.len() > 0 {
            match apply_buffered_diffs_after_snapshot_local(
                &mut self.market,
                pair.as_str(),
                &mut buffer,
            ) {
                Ok(true) => {
                    self.stats.buffered_replay_successes = self.stats.buffered_replay_successes + 1;
                },
                Ok(false) => {
                    self.stats.buffered_replay_waiting_snapshot =
                        self.stats.buffered_replay_waiting_snapshot + 1;
                },
                Err(_) => {
                    self.stats.buffered_replay_failures = self.stats.buffered_replay_failures + 1;
                    self.market.mark_pair_unsynced(pair.as_str());
                },
            }
        }
        let ghost waiting = buffered(buffer@);
        let ghost key = pair@;
        self.pending.insert(pair, buffer);
        proof {
            assert(self@.pending =~= pending_of(pending).insert(key, waiting));
            if waiting_of(start.pending, key).len() == 0 {
                assert(self@.pending =~= start.pending);
            }
        }
    }

    fn take_diff(&mut self, record: ReplayDiffRecord)
        requires
            old(self).stats.diff_lines < old(self).stats.parsed_lines,
            old(self).stats.diffs_applied + old(self).stats.diffs_ignored_stale + old(
                self,
            ).stats.buffered_diff_lines <= old(self).stats.diff_lines,
            old(self).stats.diff_apply_errors <= old(self).stats.buffered_diff_lines,
        ensures
            final(self)@ == after_diff_record(old(self)@, record),
    {
        let ghost start = self@;
        let ghost pending = self.pending@;
        self.stats.diff_lines = self.stats.diff_lines + 1;
        let pair_key: String = pair_key_from_stream(record.stream.as_str());
        let ghost key = pair_key@;
        let diff: OrderBookDiff = OrderBookDiff {
            first_update_id: record.first_update_id,
            final_update_id: record.final_update_id,
            prev_final_update_id: record.prev_final_update_id,
            bids: record.bids,
            asks: record.asks,
            event_time_ms: record.event_time_ms,
            receive_time_ms: record.receive_time_ms,
        };
        let ghost this = BufferedView { stream: record.stream@, diff: diff@ };
        if self.market.is_pair_synced(pair_key.as_str()) {
            match self.market.apply_orderbook_diff(
                pair_key.as_str(),
                record.stream.as_str(),
                copy_of_diff(&diff),
            ) {
                Ok(ApplyOutcome::Applied) => {
                    self.stats.diffs_applied = self.stats.diffs_applied + 1;
                },
                Ok(ApplyOutcome::IgnoredStale) => {
                    self.stats.diffs_ignored_stale = self.stats.diffs_ignored_stale + 1;
                },
                Err(_) => {
                    self.stats.diff_apply_errors = self.stats.diff_apply_errors + 1;
                    self.market.mark_pair_unsynced(pair_key.as_str());
                    let mut buffer: Vec<BufferedReplayDiff> = Vec::new();
                    buffer.push(BufferedReplayDiff { stream_name: record.stream, diff });
                    proof {
                        assert(buffered(buffer@) =~= seq![this]);
                    }
                    self.pending.insert(pair_key, buffer);
                    self.stats.buffered_diff_lines = self.stats.buffered_diff_lines + 1;
                    proof {
                        assert(self@.pending =~= pending_of(pending).insert(key, seq![this]));
                    }
                },
            }
        } else {
            let mut buffer: Vec<BufferedReplayDiff> = match self.pending.remove(pair_key.as_str()) {
                Some(buffer) => buffer,
                None => Vec::new(),
            };
            let ghost waiting = buffered(buffer@);
            proof {
                assert(waiting =~= waiting_of(start.pending, key));
            }
            buffer.push(BufferedReplayDiff { stream_name: record.stream, diff });
            proof {
                assert(buffered(buffer@) =~= waiting.push(this));
            }
            self.pending.insert(pair_key, buffer);
            self.stats.buffered_diff_lines = self.stats.buffered_diff_lines + 1;
            proof {
                assert(self@.pending =~= pending_of(pending).insert(key, waiting.push(this)));
            }
        }
    }

    fn summary(&self) -> (r: ReplaySummary)
        ensures
            self.pairs().no_duplicates(),
            self.pairs().to_set() == self@.pending.dom(),
            r.stats == self@.stats,
            r.final_synced_pairs == synced_among(self.pairs(), self@.market),
            r.pending_pairs == waiting_among(self.pairs(), self@.pending),
            r.pending_updates == updates_among(self.pairs(), self@.pending),
    {
        let pairs: usize = self.pending.len();
        let mut final_synced_pairs: usize = 0;
        let mut pending_pairs: usize = 0;
        let mut pending_updates: u128 = 0;
        let ghost order = self.pairs();
        proof {
            assert(self@.pending.dom() =~= self.pending@.dom());
        }
        let mut i: usize = 0;
        while i < pairs
            invariant
                i <= pairs,
                pairs == order.len(),
                order == self.pending.order(),
                final_synced_pairs == synced_among(order.take(i as int), self@.market),
                pending_pairs == waiting_among(order.take(i as int), self@.pending),
                pending_updates == updates_among(order.take(i as int), self@.pending),
                final_synced_pairs <= i,
                pending_pairs <= i,
                pending_updates <= i * usize::MAX,
            decreases pairs - i,
        {
            let pair: &String = self.pending.key_at(i);
            let buffer: &Vec<BufferedReplayDiff> = self.pending.value_at(i);
            proof {
                let next = order.take(i + 1);
                assert(next.drop_last() =~= order.take(i as int));
                assert(next.last() == order[i as int]);
                assert(self@.pending[order[i as int]] == buffered(buffer@));
                assert(i * usize::MAX + usize::MAX == (i + 1) * usize::MAX) by (nonlinear_arith);
                assert((i + 1) * usize::MAX <= u64::MAX * u64::MAX) by (nonlinear_arith)
                    requires
                        i + 1 <= usize::MAX,
                        usize::MAX <= u64::MAX,
                ;
            }
            if self.market.is_pair_synced(pair.as_str()) {
                final_synced_pairs = final_synced_pairs + 1;
            }
            if buffer.len() > 0 {
                pending_pairs = pending_pairs + 1;
            }
            pending_updates = pending_updates + buffer.len() as u128;
            i = i + 1;
        }
        proof {
            assert(order.take(i as int) =~= order);
        }
        ReplaySummary { stats: self.stats, final_synced_pairs, pending_pairs, pending_updates }
    }
}

/// Changes that are applied without a refusal leave the book in step, and the
/// number of its last update is not below what it was.
pub proof fn law_replay_stays_in_step(market: Market, pair: Seq<char>, list: Seq<BufferedView>)
    requires
        crate::market_state::pair_synced(market, pair),
        replay_refusal(market, pair, list) is None,
    ensures
        crate::market_state::pair_synced(replayed_market(market, pair, list), pair),
        last_id(replayed_market(market, pair, list), pair) >= last_id(market, pair),
    decreases list.len(),
{
    if list.len() > 0 {
        let next = crate::market_state::market_after_diff(market, pair, list[0].stream, list[0].diff);
        law_replay_stays_in_step(next, pair, list.drop_first());
    }
}

/// Whether changes form a chain that carries on from an update.
pub open spec fn is_chain(list: Seq<BufferedView>, id: u64) -> bool
    decreases list.len(),
{
    list.len() > 0 ==> {
        &&& crate::orderbook::valid_range(list[0].diff)
        &&& crate::orderbook::carries_on(list[0].diff, id)
        &&& list[0].diff.final_update_id > id
        &&& is_chain(list.drop_first(), list[0].diff.final_update_id)
    }
}

/// A chain of changes that carries on from the last update of a book in step
/// is applied without a refusal, and ends at the number of its last change.
pub proof fn law_chain_replays(market: Market, pair: Seq<char>, list: Seq<BufferedView>)
    requires
        crate::market_state::pair_synced(market, pair),
        crate::market_state::book_of(market, pair).last_update_id is Some,
        is_chain(list, last_id(market, pair)),
    ensures
        replay_refusal(market, pair, list) is None,
        last_id(replayed_market(market, pair, list), pair) == if list.len() > 0 {
            list.last().diff.final_update_id
        } else {
            last_id(market, pair)
        },
    decreases list.len(),
{
    if list.len() > 0 {
        let next = crate::market_state::market_after_diff(market, pair, list[0].stream, list[0].diff);
        law_chain_replays(next, pair, list.drop_first());
        if list.len() > 1 {
            assert(list.drop_first().last() == list.last());
        }
    }
}

/// After a recorded snapshot the pair is in step, unless changes that waited
/// were refused; then it is out of step, and none of its changes wait.
pub proof fn law_snapshot_record_syncs(state: ReplayView, record: ReplaySnapshotRecord)
    requires
        counts_fit(state.stats),
        state.stats.parsed_lines < usize::MAX,
    ensures
        ({
            let pair = crate::text::lowered(record.pair@);
            let after = after_snapshot_record(state, record);
            let refused = after.stats.buffered_replay_failures
                != state.stats.buffered_replay_failures;
            &&& crate::market_state::pair_synced(after.market, pair) == !refused
            &&& refused ==> waiting_of(after.pending, pair).len() == 0
        }),
{
    let pair = crate::text::lowered(record.pair@);
    let replaced = crate::market_state::market_after_snapshot(
        state.market,
        pair,
        stream_of(record),
        snapshot_of(record),
    );
    let id = last_id(replaced, pair);
    let replay = from_bridge(still_new(waiting_of(state.pending, pair), id), id);
    if replay_refusal(replaced, pair, replay) is None {
        law_replay_stays_in_step(replaced, pair, replay);
    } else {
        lemma_replay_keeps_pair(replaced, pair, replay);
    }
}

proof fn lemma_replay_keeps_pair(market: Market, pair: Seq<char>, list: Seq<BufferedView>)
    requires
        market.dom().contains(pair),
    ensures
        replayed_market(market, pair, list).dom().contains(pair),
    decreases list.len(),
{
    if list.len() > 0 {
        let next = crate::market_state::market_after_diff(market, pair, list[0].stream, list[0].diff);
        lemma_replay_keeps_pair(next, pair, list.drop_first());
    }
}

proof fn lemma_replay_keeps_others(
    market: Market,
    pair: Seq<char>,
    other: Seq<char>,
    list: Seq<BufferedView>,
)
    requires
        pair != other,
    ensures
        crate::market_state::book_of(replayed_market(market, pair, list), other)
            == crate::market_state::book_of(market, other),
    decreases list.len(),
{
    if list.len() > 0 {
        let next = crate::market_state::market_after_diff(market, pair, list[0].stream, list[0].diff);
        lemma_replay_keeps_others(next, pair, other, list.drop_first());
    }
}

/// A recorded snapshot leaves the books and the waiting changes of other pairs
/// as they are.
pub proof fn law_snapshot_record_keeps_others(
    state: ReplayView,
    record: ReplaySnapshotRecord,
    other: Seq<char>,
)
    requires
        other != crate::text::lowered(record.pair@),
    ensures
        ({
            let after = after_snapshot_record(state, record);
            &&& crate::market_state::book_of(after.market, other) == crate::market_state::book_of(
                state.market,
                other,
            )
            &&& waiting_of(after.pending, other) == waiting_of(state.pending, other)
        }),
{
    let pair = crate::text::lowered(record.pair@);
    let replaced = crate::market_state::market_after_snapshot(
        state.market,
        pair,
        stream_of(record),
        snapshot_of(record),
    );
    let id = last_id(replaced, pair);
    let replay = from_bridge(still_new(waiting_of(state.pending, pair), id), id);
    lemma_replay_keeps_others(replaced, pair, other, replay);
}

/// Recorded changes leave the books and the waiting changes of other pairs as
/// they are.
pub proof fn law_diff_record_keeps_others(
    state: ReplayView,
    record: ReplayDiffRecord,
    other: Seq<char>,
)
    requires
        other != crate::text::before(record.stream@, '@'),
    ensures
        ({
            let after = after_diff_record(state, record);
            &&& crate::market_state::book_of(after.market, other) == crate::market_state::book_of(
                state.market,
                other,
            )
            &&& waiting_of(after.pending, other) == waiting_of(state.pending, other)
        }),
{
}

/// Changes recorded for a pair are lost only where its book takes them or has
/// gone beyond them: otherwise they are the last that wait for the pair, and
/// the pair is out of step.
pub proof fn law_diff_record_applies_or_waits(state: ReplayView, record: ReplayDiffRecord)
    ensures
        ({
            let pair = crate::text::before(record.stream@, '@');
            let after = after_diff_record(state, record);
            let taken = crate::market_state::pair_synced(state.market, pair)
                && crate::orderbook::diff_result(
                crate::market_state::book_of(state.market, pair),
                diff_of(record),
            ) is Ok;
            &&& taken ==> after.pending == state.pending && crate::market_state::pair_synced(
                after.market,
                pair,
            )
            &&& !taken ==> waiting_of(after.pending, pair).len() > 0 && waiting_of(
                after.pending,
                pair,
            ).last().diff == diff_of(record) && !crate::market_state::pair_synced(
                after.market,
                pair,
            )
        }),
{
}

/// Whether changes follow an update: a named update before them is that one,
/// neither older nor newer; where none is named, they hold the number after it.
pub open spec fn follows(diff: DiffView, id: u64) -> bool {
    &&& diff.prev_final_update_id is Some ==> diff.prev_final_update_id->0 == id
    &&& diff.prev_final_update_id is None ==> diff.first_update_id <= id + 1 && id + 1
        <= diff.final_update_id
}

/// Waiting changes are not tried while the book is out of step or while the
/// first of them is numbered more than one beyond the last update: the market and
/// the waiting changes stay.
pub proof fn law_changes_wait(market: Market, pair: Seq<char>, list: Seq<BufferedView>, id: u64)
    requires
        crate::market_state::pair_synced(market, pair) ==> crate::market_state::book_of(
            market,
            pair,
        ).last_update_id == Some(id),
        !crate::market_state::pair_synced(market, pair) || (list.len() > 0
            && list[0].diff.first_update_id > id + 1),
    ensures
        catch_up(market, pair, list).result == Ok::<bool, OrderBookError>(false),
        catch_up(market, pair, list).market == market,
        catch_up(market, pair, list).waiting == list,
{
}

/// Waiting changes that the last update covers are dropped. Where none of the
/// others follows the last update, these go on waiting, in their order, and the
/// market stays.
pub proof fn law_changes_without_bridge_wait(
    market: Market,
    pair: Seq<char>,
    list: Seq<BufferedView>,
    id: u64,
)
    requires
        crate::market_state::pair_synced(market, pair),
        crate::market_state::book_of(market, pair).last_update_id == Some(id),
        list.len() > 0 ==> list[0].diff.first_update_id <= id + 1,
        forall|i: int|
            0 <= i < list.len() && (#[trigger] list[i]).diff.final_update_id > id ==> !follows(
                list[i].diff,
                id,
            ),
    ensures
        catch_up(market, pair, list).result == Ok::<bool, OrderBookError>(false),
        catch_up(market, pair, list).market == market,
        catch_up(market, pair, list).waiting == list.filter(
            |b: BufferedView| b.diff.final_update_id > id,
        ),
{
    broadcast use vstd::seq_lib::group_filter_ensures;

    let fresh = still_new(list, id);
    if has_bridge(fresh, id) {
        let i = choose|i: int|
            0 <= i < fresh.len() && crate::orderbook::carries_on(#[trigger] fresh[i].diff, id);
        lemma_still_new(list, id, i);
        let k = choose|k: int| 0 <= k < list.len() && list[k] == fresh[i];
        assert(list[k].diff.final_update_id > id);
        assert(follows(list[k].diff, id));
    }
}

proof fn lemma_still_new(list: Seq<BufferedView>, id: u64, i: int)
    requires
        0 <= i < still_new(list, id).len(),
    ensures
        list.contains(still_new(list, id)[i]),
        still_new(list, id)[i].diff.final_update_id > id,
    decreases list.len(),
{
    reveal(Seq::filter);
    let fresh = still_new(list, id);
    if list.len() > 0 {
        let rest = list.drop_last();
        let before = still_new(rest, id);
        if i < before.len() {
            lemma_still_new(rest, id, i);
            let k = choose|k: int| 0 <= k < rest.len() && rest[k] == before[i];
            assert(list[k] == before[i]);
            assert(fresh[i] == before[i]);
        } else {
            assert(list[list.len() - 1] == fresh[i]);
        }
    }
}

proof fn lemma_bridge_at(list: Seq<BufferedView>, id: u64, k: int)
    requires
        0 <= k < list.len(),
        crate::orderbook::carries_on(list[k].diff, id),
        forall|j: int| 0 <= j < k ==> !crate::orderbook::carries_on(#[trigger] list[j].diff, id),
    ensures
        from_bridge(list, id) == list.skip(k),
    decreases k,
{
    if k == 0 {
        assert(list.skip(0) =~= list);
    } else {
        let rest = list.drop_first();
        assert(!crate::orderbook::carries_on(list[0].diff, id));
        assert(rest[k - 1] == list[k]);
        assert forall|j: int| 0 <= j < k - 1 implies !crate::orderbook::carries_on(
            #[trigger] rest[j].diff,
            id,
        ) by {
            assert(rest[j] == list[j + 1]);
        }
        lemma_bridge_at(rest, id, k - 1);
        assert(rest.skip(k - 1) =~= list.skip(k));
    }
}

/// From the first on that follows the last update, waiting changes that go beyond
/// it are applied in their order. None of them waits any longer, and whether all
/// were taken is told.
pub proof fn law_changes_catch_up_from_the_bridge(
    market: Market,
    pair: Seq<char>,
    list: Seq<BufferedView>,
    id: u64,
    k: int,
)
    requires
        crate::market_state::pair_synced(market, pair),
        crate::market_state::book_of(market, pair).last_update_id == Some(id),
        list.len() > 0 ==> list[0].diff.first_update_id <= id + 1,
        ({
            let fresh = list.filter(|b: BufferedView| b.diff.final_update_id > id);
            &&& 0 <= k < fresh.len()
            &&& follows(fresh[k].diff, id)
            &&& forall|j: int| 0 <= j < k ==> !follows(#[trigger] fresh[j].diff, id)
        }),
    ensures
        ({
            let replay = list.filter(|b: BufferedView| b.diff.final_update_id > id).skip(k);
            let tried = catch_up(market, pair, list);
            &&& tried.waiting.len() == 0
            &&& tried.market == replayed_market(market, pair, replay)
            &&& replay_refusal(market, pair, replay) is None ==> tried.result == Ok::<
                bool,
                OrderBookError,
            >(true)
            &&& replay_refusal(market, pair, replay) matches Some(error) ==> tried.result == Err::<
                bool,
                OrderBookError,
            >(error)
        }),
{
    let fresh = list.filter(|b: BufferedView| b.diff.final_update_id > id);
    assert(fresh == still_new(list, id));
    assert forall|j: int| 0 <= j < fresh.len() implies (crate::orderbook::carries_on(
        #[trigger] fresh[j].diff,
        id,
    ) <==> follows(fresh[j].diff, id)) by {
        lemma_still_new(list, id, j);
    }
    assert(has_bridge(fresh, id)) by {
        assert(crate::orderbook::carries_on(fresh[k].diff, id));
    }
    lemma_bridge_at(fresh, id, k);
}

/// Waiting changes are applied one after the other: the first to the book as it
/// is, and the rest, where it is taken, to what came of that. Where it is refused,
/// the rest is not tried.
pub proof fn law_replay_goes_one_by_one(
    market: Market,
    pair: Seq<char>,
    first: BufferedView,
    rest: Seq<BufferedView>,
)
    ensures
        replay_refusal(market, pair, Seq::empty()) is None,
        replayed_market(market, pair, Seq::empty()) == market,
        ({
            let all = seq![first] + rest;
            let next = crate::market_state::market_after_diff(
                market,
                pair,
                first.stream,
                first.diff,
            );
            let result = crate::orderbook::diff_result(
                crate::market_state::book_of(market, pair),
                first.diff,
            );
            &&& result is Ok ==> replayed_market(market, pair, all) == replayed_market(
                next,
                pair,
                rest,
            ) && replay_refusal(market, pair, all) == replay_refusal(next, pair, rest)
            &&& result matches Err(error) ==> replayed_market(market, pair, all) == next
                && replay_refusal(market, pair, all) == Some(error)
        }),
{
    let all = seq![first] + rest;
    assert(all[0] == first);
    assert(all.drop_first() =~= rest);
}

/// Where waiting changes are all taken by a book in step, the first of them that
/// goes beyond its last update follows that update.
pub proof fn law_taken_changes_follow(
    market: Market,
    pair: Seq<char>,
    list: Seq<BufferedView>,
    id: u64,
)
    requires
        crate::market_state::pair_synced(market, pair),
        crate::market_state::book_of(market, pair).last_update_id == Some(id),
        list.len() > 0,
        replay_refusal(market, pair, list) is None,
    ensures
        0 < list[0].diff.first_update_id,
        list[0].diff.first_update_id <= list[0].diff.final_update_id,
        list[0].diff.final_update_id <= id || follows(list[0].diff, id),
        ({
            let next = crate::market_state::market_after_diff(
                market,
                pair,
                list[0].stream,
                list[0].diff,
            );
            &&& replay_refusal(next, pair, list.drop_first()) is None
            &&& crate::market_state::pair_synced(next, pair)
            &&& list[0].diff.final_update_id <= id ==> crate::market_state::book_of(
                next,
                pair,
            ).last_update_id == Some(id)
            &&& list[0].diff.final_update_id > id ==> crate::market_state::book_of(
                next,
                pair,
            ).last_update_id == Some(list[0].diff.final_update_id)
        }),
{
}

/// Changes each of which names the last one of those before it, the first the
/// last update of the book, are all taken.
pub proof fn law_named_chain_is_taken(
    market: Market,
    pair: Seq<char>,
    list: Seq<BufferedView>,
    id: u64,
)
    requires
        crate::market_state::pair_synced(market, pair),
        crate::market_state::book_of(market, pair).last_update_id == Some(id),
        forall|i: int|
            0 <= i < list.len() ==> 0 < (#[trigger] list[i]).diff.first_update_id
                && list[i].diff.first_update_id <= list[i].diff.final_update_id,
        list.len() > 0 ==> list[0].diff.prev_final_update_id == Some(id)
            && list[0].diff.final_update_id > id,
        forall|i: int, j: int|
            0 <= i && j == i + 1 && j < list.len()
                ==> (#[trigger] list[j]).diff.prev_final_update_id
                == Some((#[trigger] list[i]).diff.final_update_id) && list[j].diff.final_update_id
                > list[i].diff.final_update_id,
    ensures
        replay_refusal(market, pair, list) is None,
        list.len() > 0 ==> last_id(replayed_market(market, pair, list), pair)
            == list[list.len() - 1].diff.final_update_id,
    decreases list.len(),
{
    if list.len() > 0 {
        let next = crate::market_state::market_after_diff(
            market,
            pair,
            list[0].stream,
            list[0].diff,
        );
        let rest = list.drop_first();
        assert forall|i: int| 0 <= i < rest.len() implies rest[i] == #[trigger] list[i + 1] by {}
        assert forall|i: int| 0 <= i < rest.len() implies 0 < (#[trigger] rest[i]).diff.first_update_id
            && rest[i].diff.first_update_id <= rest[i].diff.final_update_id by {
            assert(rest[i] == list[i + 1]);
        }
        assert forall|i: int, j: int| 0 <= i && j == i + 1 && j < rest.len() implies (
        #[trigger] rest[j]).diff.prev_final_update_id == Some(
            (#[trigger] rest[i]).diff.final_update_id,
        ) && rest[j].diff.final_update_id > rest[i].diff.final_update_id by {
            assert(rest[i] == list[i + 1]);
            assert(rest[j] == list[j + 1]);
        }
        if rest.len() > 0 {
            assert(rest[0] == list[1]);
            assert(list[1].diff.prev_final_update_id == Some(list[0].diff.final_update_id));
        }
        law_named_chain_is_taken(next, pair, rest, list[0].diff.final_update_id);
        if rest.len() > 0 {
            assert(rest[rest.len() - 1] == list[list.len() - 1]);
        } else {
            assert(replayed_market(next, pair, rest) == next);
        }
    }
}

/// Waiting changes that name another update than the last one before them are
/// refused, and nothing behind them is tried.
pub proof fn law_named_gap_is_refused(
    market: Market,
    pair: Seq<char>,
    list: Seq<BufferedView>,
    id: u64,
)
    requires
        crate::market_state::pair_synced(market, pair),
        crate::market_state::book_of(market, pair).last_update_id == Some(id),
        list.len() > 0,
        list[0].diff.final_update_id > id,
        list[0].diff.prev_final_update_id is Some,
        list[0].diff.prev_final_update_id->0 != id,
    ensures
        replay_refusal(market, pair, list) is Some,
        list[0].diff.first_update_id > 0 && list[0].diff.first_update_id
            <= list[0].diff.final_update_id ==> !crate::market_state::pair_synced(
            replayed_market(market, pair, list),
            pair,
        ),
{
}

/// What a recorded snapshot does to the counts and to its pair. It counts once as
/// a snapshot. Where changes of the pair wait, it counts once more: as a success
/// where they were tried and all taken, as a failure where one was refused, and as
/// waiting where none was tried; after a failure the levels of the pair are
/// dropped.
pub proof fn law_snapshot_record_counts(state: ReplayView, record: ReplaySnapshotRecord)
    requires
        counts_fit(state.stats),
        state.stats.parsed_lines < usize::MAX,
    ensures
        ({
            let pair = crate::text::lowered(record.pair@);
            let stream = if record.stream is Some {
                record.stream->0@
            } else {
                pair + "@depth@100ms"@
            };
            let replaced = crate::market_state::market_after_snapshot(
                state.market,
                pair,
                stream,
                SnapshotView {
                    last_update_id: record.last_update_id,
                    bids: record.bids@,
                    asks: record.asks@,
                    snapshot_time_ms: Some(record.timestamp_ms),
                },
            );
            let after = after_snapshot_record(state, record);
            let some_wait = state.pending.dom().contains(pair) && state.pending[pair].len() > 0;
            let tried = catch_up(replaced, pair, state.pending[pair]);
            let one = |holds: bool|
                if holds {
                    1int
                } else {
                    0int
                };
            &&& after.stats.snapshot_lines == state.stats.snapshot_lines + 1
            &&& after.stats.buffered_replay_successes == state.stats.buffered_replay_successes + one(
                some_wait && tried.result == Ok::<bool, OrderBookError>(true),
            )
            &&& after.stats.buffered_replay_waiting_snapshot
                == state.stats.buffered_replay_waiting_snapshot + one(
                some_wait && tried.result == Ok::<bool, OrderBookError>(false),
            )
            &&& after.stats.buffered_replay_failures == state.stats.buffered_replay_failures + one(
                some_wait && tried.result is Err,
            )
            &&& after.stats.total_lines == state.stats.total_lines
            &&& after.stats.parsed_lines == state.stats.parsed_lines
            &&& after.stats.ignored_lines == state.stats.ignored_lines
            &&& after.stats.diff_lines == state.stats.diff_lines
            &&& after.stats.diffs_applied == state.stats.diffs_applied
            &&& after.stats.diffs_ignored_stale == state.stats.diffs_ignored_stale
            &&& after.stats.diff_apply_errors == state.stats.diff_apply_errors
            &&& after.stats.buffered_diff_lines == state.stats.buffered_diff_lines
            &&& !some_wait ==> after.market == replaced && after.pending == state.pending
            &&& some_wait && tried.result is Ok ==> after.market == tried.market && after.pending
                == state.pending.insert(pair, tried.waiting)
            &&& some_wait && tried.result is Err ==> after.market
                == crate::market_state::market_after_unsync(tried.market, pair) && after.pending
                == state.pending.insert(pair, tried.waiting)
        }),
{
}

/// What recorded changes do to the counts and to their pair. They count once as
/// changes, and once by what became of them: as applied, as stale, or as waiting.
/// A pair out of step has them join the changes that wait. A pair in step that
/// refuses them counts an error, drops its levels and has only them wait.
pub proof fn law_diff_record_counts(state: ReplayView, record: ReplayDiffRecord)
    requires
        counts_fit(state.stats),
        state.stats.parsed_lines < usize::MAX,
    ensures
        ({
            let pair = crate::text::before(record.stream@, '@');
            let diff = DiffView {
                first_update_id: record.first_update_id,
                final_update_id: record.final_update_id,
                prev_final_update_id: record.prev_final_update_id,
                bids: record.bids@,
                asks: record.asks@,
                event_time_ms: record.event_time_ms,
                receive_time_ms: record.receive_time_ms,
            };
            let this = BufferedView { stream: record.stream@, diff };
            let in_step = state.market.dom().contains(pair) && state.market[pair].book.synced;
            let result = crate::orderbook::diff_result(state.market[pair].book, diff);
            let applied = in_step && result == Ok::<ApplyOutcome, OrderBookError>(
                ApplyOutcome::Applied,
            );
            let stale = in_step && result == Ok::<ApplyOutcome, OrderBookError>(
                ApplyOutcome::IgnoredStale,
            );
            let refused = in_step && result is Err;
            let after = after_diff_record(state, record);
            let one = |holds: bool|
                if holds {
                    1int
                } else {
                    0int
                };
            &&& after.stats.diff_lines == state.stats.diff_lines + 1
            &&& after.stats.diffs_applied == state.stats.diffs_applied + one(applied)
            &&& after.stats.diffs_ignored_stale == state.stats.diffs_ignored_stale + one(stale)
            &&& after.stats.diff_apply_errors == state.stats.diff_apply_errors + one(refused)
            &&& after.stats.buffered_diff_lines == state.stats.buffered_diff_lines + one(
                !applied && !stale,
            )
            &&& after.stats.total_lines == state.stats.total_lines
            &&& after.stats.parsed_lines == state.stats.parsed_lines
            &&& after.stats.ignored_lines == state.stats.ignored_lines
            &&& after.stats.snapshot_lines == state.stats.snapshot_lines
            &&& after.stats.buffered_replay_successes == state.stats.buffered_replay_successes
            &&& after.stats.buffered_replay_failures == state.stats.buffered_replay_failures
            &&& after.stats.buffered_replay_waiting_snapshot
                == state.stats.buffered_replay_waiting_snapshot
            &&& applied || stale ==> after.pending == state.pending && after.market
                == crate::market_state::market_after_diff(state.market, pair, record.stream@, diff)
            &&& !in_step && state.pending.dom().contains(pair) ==> after.pending
                == state.pending.insert(pair, state.pending[pair].push(this))
            &&& !in_step && !state.pending.dom().contains(pair) ==> after.pending
                == state.pending.insert(pair, seq![this])
            &&& !in_step ==> after.market == state.market
            &&& refused
                ==> after.pending == state.pending.insert(pair, seq![this]) && !after.market[pair].book.synced
                && after.market[pair].book.last_update_id is None
        }),
{
    let pair = crate::text::before(record.stream@, '@');
    if !state.pending.dom().contains(pair) {
        let this = BufferedView { stream: record.stream@, diff: diff_of(record) };
        assert(Seq::<BufferedView>::empty().push(this) =~= seq![this]);
    }
}

/// Every line counts once: a blank one as a line alone, one that cannot be read as
/// ignored, and a record as read and then as what it is.
pub proof fn law_lines_are_counted(state: ReplayView, line: ReplayLine)
    requires
        counts_fit(state.stats),
        state.stats.total_lines < usize::MAX,
    ensures
        ({
            let after = after_line(state, line);
            let read = ReplayView {
                stats: ReplayStats {
                    total_lines: (state.stats.total_lines + 1) as usize,
                    parsed_lines: (state.stats.parsed_lines + 1) as usize,
                    ..state.stats
                },
                ..state
            };
            &&& after.stats.total_lines == state.stats.total_lines + 1
            &&& line is Record ==> after.stats.parsed_lines == state.stats.parsed_lines + 1
                && after.stats.ignored_lines == state.stats.ignored_lines
            &&& line is Unreadable ==> after.stats == ReplayStats {
                total_lines: (state.stats.total_lines + 1) as usize,
                ignored_lines: (state.stats.ignored_lines + 1) as usize,
                ..state.stats
            }
            &&& line is Blank ==> after.stats == ReplayStats {
                total_lines: (state.stats.total_lines + 1) as usize,
                ..state.stats
            }
            &&& !(line is Record) ==> after.market == state.market && after.pending == state.pending
            &&& line matches ReplayLine::Record(ReplayRecord::Snapshot(record)) ==> after
                == after_snapshot_record(read, record)
            &&& line matches ReplayLine::Record(ReplayRecord::Diff(record)) ==> after
                == after_diff_record(read, record)
            &&& counts_fit(after.stats)
        }),
{
}

/// What a summary counts: the pairs with a book in step, the pairs with changes
/// that wait, and all those changes, each pair by itself.
pub proof fn law_summary_counts_pairs(
    pairs: Seq<Seq<char>>,
    market: Market,
    pending: Map<Seq<char>, Seq<BufferedView>>,
)
    ensures
        synced_among(pairs, market) == Set::<int>::new(
            |i: int| 0 <= i < pairs.len() && crate::market_state::pair_synced(market, pairs[i]),
        ).len(),
        waiting_among(pairs, pending) == Set::<int>::new(
            |i: int| 0 <= i < pairs.len() && pending[pairs[i]].len() > 0,
        ).len(),
        updates_among(pairs, pending) == pairs.fold_left(
            0int,
            |sum: int, pair: Seq<char>| sum + pending[pair].len(),
        ),
        Set::<int>::new(
            |i: int| 0 <= i < pairs.len() && crate::market_state::pair_synced(market, pairs[i]),
        ).finite(),
        Set::<int>::new(|i: int| 0 <= i < pairs.len() && pending[pairs[i]].len() > 0).finite(),
    decreases pairs.len(),
{
    let synced = Set::<int>::new(
        |i: int| 0 <= i < pairs.len() && crate::market_state::pair_synced(market, pairs[i]),
    );
    let waiting = Set::<int>::new(
        |i: int| 0 <= i < pairs.len() && pending[pairs[i]].len() > 0,
    );
    if pairs.len() == 0 {
        assert(synced =~= Set::empty());
        assert(waiting =~= Set::empty());
    } else {
        let rest = pairs.drop_last();
        let n = pairs.len() - 1;
        law_summary_counts_pairs(rest, market, pending);
        let synced_before = Set::<int>::new(
            |i: int| 0 <= i < rest.len() && crate::market_state::pair_synced(market, rest[i]),
        );
        let waiting_before = Set::<int>::new(
            |i: int| 0 <= i < rest.len() && pending[rest[i]].len() > 0,
        );
        if crate::market_state::pair_synced(market, pairs[n]) {
            assert(synced =~= synced_before.insert(n));
        } else {
            assert(synced =~= synced_before);
        }
        if pending[pairs[n]].len() > 0 {
            assert(waiting =~= waiting_before.insert(n));
        } else {
            assert(waiting =~= waiting_before);
        }
    }
}

/// A strict check fails exactly where changes were refused, on their own or
/// behind a snapshot, or where some still wait.
pub proof fn law_strict_checks(summary: ReplaySummary)
    ensures
        fails_strictly(summary) <==> summary.stats.diff_apply_errors != 0
            || summary.stats.buffered_replay_failures != 0 || summary.pending_pairs != 0,
{
}

proof fn lemma_options()
    ensures
        crate::cli::option_like("--strict"@),
{
    reveal_strlit("--");
    reveal_strlit("--strict");
}

/// How one argument counts: an option without a value makes its own choice and no
/// other, the first other text is the path, and a further one, or an option that
/// there is none of, is refused with its name.
pub proof fn law_arguments_count_one_by_one(
    arg: Seq<char>,
    rest: Seq<Seq<char>>,
    so_far: ReplayCheckConfigView,
    path_set: bool,
)
    ensures
        arg == "--strict"@ ==> args_read(seq![arg] + rest, so_far, path_set) == args_read(
            rest,
            ReplayCheckConfigView { strict: true, ..so_far },
            path_set,
        ),
        "--"@.is_prefix_of(arg) && arg != "--strict"@ ==> args_read(
            seq![arg] + rest,
            so_far,
            path_set,
        ) == Err::<ReplayCheckConfigView, Seq<char>>("unknown option "@ + arg),
        !"--"@.is_prefix_of(arg) && path_set ==> args_read(seq![arg] + rest, so_far, path_set)
            == Err::<ReplayCheckConfigView, Seq<char>>("unexpected positional argument "@ + arg),
        !"--"@.is_prefix_of(arg) && !path_set ==> args_read(seq![arg] + rest, so_far, path_set)
            == args_read(rest, ReplayCheckConfigView { path: arg, ..so_far }, true),
{
    lemma_options();
    let args = seq![arg] + rest;
    assert(args[0] == arg);
    assert(args.drop_first() =~= rest);
}

/// What there is without arguments: the choices made so far,
/// which are these at first.
pub proof fn law_choices_without_arguments(so_far: ReplayCheckConfigView, path_set: bool)
    ensures
        args_read(Seq::empty(), so_far, path_set) == Ok::<ReplayCheckConfigView, Seq<char>>(so_far),
        default_config().path == "data/replay_market.jsonl"@,
        default_config().strict == false,
{
}

/// The subcommand is run exactly where the first argument names it and the others
/// can be used, and then with what they come to.
pub proof fn law_subcommand_is_named_first(args: Seq<Seq<char>>, request: CliRequest<ReplayCheckConfig>)
    requires
        requested(args, request),
    ensures
        request is Other <==> args.len() == 0 || args[0] != "replay-check"@,
        request matches CliRequest::Run(config) ==> args_read(args.skip(1), default_config(), false)
            == Ok::<ReplayCheckConfigView, Seq<char>>(config@),
        request matches CliRequest::Refused(message) ==> args_read(
            args.skip(1),
            default_config(),
            false,
        ) == Err::<ReplayCheckConfigView, Seq<char>>(message@),
{
    if args.len() > 0 {
        assert(args.skip(1) =~= args.drop_first());
    }
}

/// Counts go up one by one.
pub proof fn law_counts_go_up_by_one(count: usize)
    requires
        count < usize::MAX,
    ensures
        bumped(count) == count + 1,
{
}

/// Recorded levels are read exactly where both texts of each of them are numbers,
/// and then have the price of the first text and the quantity of the second, level
/// by level.
pub proof fn law_recorded_levels_are_the_texts(
    raw: Seq<[String; 2]>,
    levels: Seq<PriceLevel>,
    i: int,
)
    requires
        0 <= i < raw.len(),
    ensures
        all_read(raw) ==> crate::decimal::number_in_text(raw[i]@[0]@) is Some
            && crate::decimal::number_in_text(raw[i]@[1]@) is Some,
        (forall|j: int|
            0 <= j < raw.len() ==> crate::decimal::number_in_text((#[trigger] raw[j])@[0]@) is Some
                && crate::decimal::number_in_text(raw[j]@[1]@) is Some) ==> all_read(raw),
        price_levels_read(raw, levels) ==> {
            &&& levels.len() == raw.len()
            &&& crate::decimal::number_in_text(raw[i]@[0]@) == Some(levels[i].price@)
            &&& crate::decimal::number_in_text(raw[i]@[1]@) == Some(levels[i].qty@)
        },
{
    if all_read(raw) {
        assert(crate::binance_rest::level_reads(raw, i));
    }
    if forall|j: int|
        0 <= j < raw.len() ==> crate::decimal::number_in_text((#[trigger] raw[j])@[0]@) is Some
            && crate::decimal::number_in_text(raw[j]@[1]@) is Some {
        assert forall|j: int| 0 <= j < raw.len() implies #[trigger] crate::binance_rest::level_reads(
            raw,
            j,
        ) by {
            assert(crate::decimal::number_in_text(raw[j]@[0]@) is Some);
        }
    }
}

} // verus!
