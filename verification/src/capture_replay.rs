//! Recording the market for a later check.

use vstd::prelude::*;

use crate::binance_rest::{BinanceDepthSnapshot, DepthSnapshotLevel, level_texts};
use crate::cli::{
    CliRequest, is_command, is_option, unexpected_argument_message, unknown_option_message,
};
use crate::models::{DiffDepthStreamWrapper, OfferData};
use crate::text::{concat2, join, number_text, read_u64, read_usize, same_text};

verus! {

/// What the subcommand is asked to do.
#[derive(Debug, Clone)]
pub struct CaptureReplayConfig {
    pub output_path: String,
    pub append: bool,
    pub duration_secs: Option<u64>,
    pub max_diffs: Option<usize>,
    pub startup_snapshots: bool,
}

impl Default for CaptureReplayConfig {
    fn default() -> (r: CaptureReplayConfig)
        ensures
            r@ == default_config(),
    {
        CaptureReplayConfig {
            output_path: "data/replay_market.jsonl".to_owned(),
            append: false,
            duration_secs: None,
            max_diffs: None,
            startup_snapshots: true,
        }
    }
}

/// The texts and choices of [`CaptureReplayConfig`].
pub struct CaptureReplayConfigView {
    pub output_path: Seq<char>,
    pub append: bool,
    pub duration_secs: Option<u64>,
    pub max_diffs: Option<usize>,
    pub startup_snapshots: bool,
}

impl View for CaptureReplayConfig {
    type V = CaptureReplayConfigView;

    open spec fn view(&self) -> CaptureReplayConfigView {
        CaptureReplayConfigView {
            output_path: self.output_path@,
            append: self.append,
            duration_secs: self.duration_secs,
            max_diffs: self.max_diffs,
            startup_snapshots: self.startup_snapshots,
        }
    }
}

pub open spec fn default_config() -> CaptureReplayConfigView {
    CaptureReplayConfigView {
        output_path: "data/replay_market.jsonl"@,
        append: false,
        duration_secs: None,
        max_diffs: None,
        startup_snapshots: true,
    }
}

/// What arguments come to, read one after the other on top of what was read
/// before them.
pub open spec fn args_read(
    args: Seq<Seq<char>>,
    so_far: CaptureReplayConfigView,
    path_set: bool,
) -> Result<CaptureReplayConfigView, Seq<char>>
    decreases args.len(),
{
    if args.len() == 0 {
        Ok(so_far)
    } else if args[0] == "--append"@ {
        args_read(args.drop_first(), CaptureReplayConfigView { append: true, ..so_far }, path_set)
    } else if args[0] == "--no-startup-snapshots"@ {
        args_read(
            args.drop_first(),
            CaptureReplayConfigView { startup_snapshots: false, ..so_far },
            path_set,
        )
    } else if args[0] == "--seconds"@ {
        if args.len() == 1 {
            Err("missing value for --seconds"@)
        } else {
            match crate::text::whole_number(args[1], u64::MAX as nat) {
                None => Err("invalid integer for --seconds"@),
                Some(n) => if n == 0 {
                    Err("--seconds must be > 0"@)
                } else {
                    args_read(
                        args.skip(2),
                        CaptureReplayConfigView { duration_secs: Some(n as u64), ..so_far },
                        path_set,
                    )
                },
            }
        }
    } else if args[0] == "--max-diffs"@ {
        if args.len() == 1 {
            Err("missing value for --max-diffs"@)
        } else {
            match crate::text::whole_number(args[1], usize::MAX as nat) {
                None => Err("invalid integer for --max-diffs"@),
                Some(n) => if n == 0 {
                    Err("--max-diffs must be > 0"@)
                } else {
                    args_read(
                        args.skip(2),
                        CaptureReplayConfigView { max_diffs: Some(n as usize), ..so_far },
                        path_set,
                    )
                },
            }
        }
    } else if crate::cli::option_like(args[0]) {
        Err(crate::cli::unknown_option(args[0]))
    } else if path_set {
        Err(crate::cli::unexpected_argument(args[0]))
    } else {
        args_read(
            args.drop_first(),
            CaptureReplayConfigView { output_path: args[0], ..so_far },
            true,
        )
    }
}

/// Reads the arguments of the subcommand.
pub fn parse_args(args: &Vec<String>) -> (r: Result<CaptureReplayConfig, String>)
    ensures
        match r {
            Ok(config) => args_read(crate::text::texts(args@), default_config(), false) == Ok::<
                CaptureReplayConfigView,
                Seq<char>,
            >(config@),
            Err(message) => args_read(crate::text::texts(args@), default_config(), false) == Err::<
                CaptureReplayConfigView,
                Seq<char>,
            >(message@),
        },
{
    let ghost all = crate::text::texts(args@);
    let mut config: CaptureReplayConfig = CaptureReplayConfig::default();
    let mut path_set: bool = false;
    let mut i: usize = 0;
    proof {
        assert(all.skip(0) =~= all);
    }
    while i < args.len()
        invariant
            i <= args@.len(),
            all == crate::text::texts(args@),
            args_read(all, default_config(), false) == args_read(all.skip(i as int), config@, path_set),
        decreases args@.len() - i,
    {
        let arg: &str = args[i].as_str();
        let ghost rest = all.skip(i as int);
        proof {
            assert(rest[0] == arg@);
            assert(rest.drop_first() =~= all.skip(i + 1));
            if i + 1 < args@.len() {
                assert(rest[1] == args@[i + 1]@);
                assert(rest.skip(2) =~= all.skip(i + 2));
            }
        }
        if same_text(arg, "--append") {
            config.append = true;
        } else if same_text(arg, "--no-startup-snapshots") {
            config.startup_snapshots = false;
        } else if same_text(arg, "--seconds") {
            i = i + 1;
            if i == args.len() {
                return Err("missing value for --seconds".to_owned());
            }
            match read_u64(args[i].as_str()) {
                Some(secs) => {
                    if secs == 0 {
                        return Err("--seconds must be > 0".to_owned());
                    }
                    config.duration_secs = Some(secs);
                },
                None => {
                    return Err("invalid integer for --seconds".to_owned());
                },
            }
        } else if same_text(arg, "--max-diffs") {
            i = i + 1;
            if i == args.len() {
                return Err("missing value for --max-diffs".to_owned());
            }
            match read_usize(args[i].as_str()) {
                Some(n) => {
                    if n == 0 {
                        return Err("--max-diffs must be > 0".to_owned());
                    }
                    config.max_diffs = Some(n);
                },
                None => {
                    return Err("invalid integer for --max-diffs".to_owned());
                },
            }
        } else if is_option(arg) {
            return Err(unknown_option_message(arg));
        } else if path_set {
            return Err(unexpected_argument_message(arg));
        } else {
            config.output_path = arg.to_owned();
            path_set = true;
        }
        i = i + 1;
    }
    Ok(config)
}

/// Whether a request is the one that the arguments of the program make.
pub open spec fn requested(args: Seq<Seq<char>>, request: CliRequest<CaptureReplayConfig>) -> bool {
    let outcome = args_read(args.drop_first(), default_config(), false);
    match request {
        CliRequest::Other => !crate::cli::names_command(args, "capture-replay"@),
        CliRequest::Refused(message) => crate::cli::names_command(args, "capture-replay"@) && outcome
            == Err::<CaptureReplayConfigView, Seq<char>>(message@),
        CliRequest::Run(config) => crate::cli::names_command(args, "capture-replay"@) && outcome
            == Ok::<CaptureReplayConfigView, Seq<char>>(config@),
    }
}

/// What the arguments of the program ask of this subcommand.
pub fn request_from_cli_args(args: Vec<String>) -> (r: CliRequest<CaptureReplayConfig>)
    ensures
        requested(crate::text::texts(args@), r),
{
    if !is_command(&args, "capture-replay") {
        return CliRequest::Other;
    }
    let mut rest: Vec<String> = args;
    let ghost all = crate::text::texts(rest@);
    let _ = rest.remove(0);
    proof {
        assert(crate::text::texts(rest@) =~= all.drop_first());
    }
    match parse_args(&rest) {
        Ok(config) => CliRequest::Run(config),
        Err(message) => CliRequest::Refused(message),
    }
}

/// The name of the stream of the changes of a pair.
pub open spec fn stream_name(pair: Seq<char>, update_interval: u32) -> Seq<char> {
    pair + "@depth@"@ + crate::text::digits(update_interval as nat) + "ms"@
}

/// The name of the stream of the changes of a pair.
pub fn diff_stream_name(pair: &str, update_interval: u32) -> (r: String)
    ensures
        r@ == stream_name(pair@, update_interval),
{
    let mut out: String = concat2(pair, "@depth@");
    out.append(number_text(update_interval as u64).as_str());
    out.append("ms");
    out
}

/// The names of the streams of the changes of pairs.
pub open spec fn stream_names(pairs: Seq<String>, update_interval: u32) -> Seq<Seq<char>> {
    pairs.map_values(|pair: String| stream_name(pair@, update_interval))
}

/// The address of the combined stream of the changes of pairs.
pub fn get_binance_streams_url(depth_streams: &[String], update_interval: u32) -> (r: String)
    ensures
        r@ == "wss://stream.binance.com:9443/stream?streams="@ + crate::text::joined(
            stream_names(depth_streams@, update_interval),
            "/"@,
        ),
{
    let mut names: Vec<String> = Vec::new();
    for i in 0..depth_streams.len()
        invariant
            names@.len() == i,
            forall|j: int|
                0 <= j < i ==> (#[trigger] names@[j])@ == stream_name(
                    depth_streams@[j]@,
                    update_interval,
                ),
    {
        names.push(diff_stream_name(depth_streams[i].as_str(), update_interval));
    }
    proof {
        assert(crate::text::texts(names@) =~= stream_names(depth_streams@, update_interval));
    }
    concat2("wss://stream.binance.com:9443/stream?streams=", join(&names, "/").as_str())
}

/// How many levels a snapshot is asked for.
pub fn snapshot_limit(results_limit: u32) -> (r: u16)
    ensures
        r == crate::binance_rest::limit_in_bounds(results_limit as int),
{
    if results_limit < 1 {
        1
    } else if results_limit > 5000 {
        5000
    } else {
        results_limit as u16
    }
}

/// Refuses a configuration that names no streams.
pub fn check_streams(depth_streams: &[String]) -> (r: Result<(), String>)
    ensures
        r is Err <==> depth_streams@.len() == 0,
        r matches Err(message) ==> message@ == "config.yaml has no depth_streams to subscribe to"@,
{
    if depth_streams.len() == 0 {
        return Err("config.yaml has no depth_streams to subscribe to".to_owned());
    }
    Ok(())
}

/// A snapshot as it is recorded.
#[derive(Debug, Clone)]
pub struct ReplayOutSnapshot {
    pub pair: String,
    pub stream: String,
    pub last_update_id: u64,
    pub timestamp_ms: u64,
    pub bids: Vec<[String; 2]>,
    pub asks: Vec<[String; 2]>,
}

/// Changes as they are recorded.
#[derive(Debug, Clone)]
pub struct ReplayOutDiff {
    pub stream: String,
    pub first_update_id: u64,
    pub final_update_id: u64,
    pub prev_final_update_id: Option<u64>,
    pub event_time_ms: Option<u64>,
    pub receive_time_ms: Option<u64>,
    pub bids: Vec<[String; 2]>,
    pub asks: Vec<[String; 2]>,
}

/// What a line of a recording holds.
#[derive(Debug, Clone)]
pub enum ReplayOutRecord {
    Snapshot(ReplayOutSnapshot),
    Diff(ReplayOutDiff),
}

/// Whether a pair of texts writes a price and a quantity.
pub open spec fn writes_level(
    texts: [String; 2],
    price: crate::decimal::Number,
    qty: crate::decimal::Number,
) -> bool {
    &&& texts@[0]@ == crate::decimal::text_of_number(price)
    &&& texts@[1]@ == crate::decimal::text_of_number(qty)
    &&& crate::decimal::number_in_text(texts@[0]@) == Some(crate::decimal::unsigned_zero(price))
    &&& crate::decimal::number_in_text(texts@[1]@) == Some(crate::decimal::unsigned_zero(qty))
}

/// Whether texts write the levels of a snapshot.
pub open spec fn writes_levels(texts: Seq<[String; 2]>, levels: Seq<DepthSnapshotLevel>) -> bool {
    &&& texts.len() == levels.len()
    &&& forall|i: int|
        0 <= i < levels.len() ==> writes_level(
            #[trigger] texts[i],
            levels[i].price@,
            levels[i].qty@,
        )
}

/// Whether texts write offers.
pub open spec fn writes_offers(texts: Seq<[String; 2]>, offers: Seq<OfferData>) -> bool {
    &&& texts.len() == offers.len()
    &&& forall|i: int|
        0 <= i < offers.len() ==> writes_level(
            #[trigger] texts[i],
            offers[i].price@,
            offers[i].size@,
        )
}

fn texts_of_levels(levels: &Vec<DepthSnapshotLevel>) -> (r: Vec<[String; 2]>)
    ensures
        writes_levels(r@, levels@),
{
    let mut out: Vec<[String; 2]> = Vec::new();
    for i in 0..levels.len()
        invariant
            out@.len() == i,
            forall|j: int|
                0 <= j < i ==> writes_level(
                    #[trigger] out@[j],
                    levels@[j].price@,
                    levels@[j].qty@,
                ),
    {
        out.push(level_texts(&levels[i].price, &levels[i].qty));
    }
    out
}

fn texts_of_offers(offers: &Vec<OfferData>) -> (r: Vec<[String; 2]>)
    ensures
        writes_offers(r@, offers@),
{
    let mut out: Vec<[String; 2]> = Vec::new();
    for i in 0..offers.len()
        invariant
            out@.len() == i,
            forall|j: int|
                0 <= j < i ==> writes_level(
                    #[trigger] out@[j],
                    offers@[j].price@,
                    offers@[j].size@,
                ),
    {
        out.push(level_texts(&offers[i].price, &offers[i].size));
    }
    out
}

/// The record of a snapshot.
pub fn snapshot_record(snapshot: BinanceDepthSnapshot, update_interval: u32) -> (r: ReplayOutSnapshot)
    ensures
        r.pair@ == snapshot.symbol@,
        r.stream@ == stream_name(snapshot.symbol@, update_interval),
        r.last_update_id == snapshot.last_update_id,
        r.timestamp_ms == snapshot.fetched_at_ms,
        writes_levels(r.bids@, snapshot.bids@),
        writes_levels(r.asks@, snapshot.asks@),
{
    let stream: String = diff_stream_name(snapshot.symbol.as_str(), update_interval);
    ReplayOutSnapshot {
        pair: snapshot.symbol,
        stream,
        last_update_id: snapshot.last_update_id,
        timestamp_ms: snapshot.fetched_at_ms,
        bids: texts_of_levels(&snapshot.bids),
        asks: texts_of_levels(&snapshot.asks),
    }
}

/// Whether a record is that of changes that came in at a time.
pub open spec fn records_diff(
    record: ReplayOutDiff,
    diff: DiffDepthStreamWrapper,
    receive_time_ms: u64,
) -> bool {
    &&& record.stream@ == diff.stream@
    &&& record.first_update_id == diff.data.first_update_id
    &&& record.final_update_id == diff.data.final_update_id
    &&& record.prev_final_update_id == diff.data.prev_final_update_id
    &&& record.event_time_ms == Some(diff.data.event_time_ms)
    &&& record.receive_time_ms == Some(receive_time_ms)
    &&& writes_offers(record.bids@, diff.data.bids@)
    &&& writes_offers(record.asks@, diff.data.asks@)
}

/// The record of changes that came in at a time.
pub fn diff_record(diff: DiffDepthStreamWrapper, receive_time_ms: u64) -> (r: ReplayOutDiff)
    ensures
        records_diff(r, diff, receive_time_ms),
{
    let bids: Vec<[String; 2]> = texts_of_offers(&diff.data.bids);
    let asks: Vec<[String; 2]> = texts_of_offers(&diff.data.asks);
    ReplayOutDiff {
        stream: diff.stream,
        first_update_id: diff.data.first_update_id,
        final_update_id: diff.data.final_update_id,
        prev_final_update_id: diff.data.prev_final_update_id,
        event_time_ms: Some(diff.data.event_time_ms),
        receive_time_ms: Some(receive_time_ms),
        bids,
        asks,
    }
}

/// Counts of what a recording took in.
#[derive(Debug, Clone, Copy)]
pub struct CaptureStats {
    pub snapshots_written: usize,
    pub diffs_written: usize,
    pub parse_errors: usize,
    pub non_text_messages: usize,
}

impl CaptureStats {
    /// The counts once the socket is open.
    pub fn at_start(config: &CaptureReplayConfig, streams: usize) -> (r: CaptureStats)
        ensures
            r == (CaptureStats {
                snapshots_written: if config.startup_snapshots {
                    streams
                } else {
                    0
                },
                diffs_written: 0,
                parse_errors: 0,
                non_text_messages: 0,
            }),
    {
        CaptureStats {
            snapshots_written: if config.startup_snapshots {
                streams
            } else {
                0
            },
            diffs_written: 0,
            parse_errors: 0,
            non_text_messages: 0,
        }
    }
}

/// Whether a recording has what it was asked for.
pub open spec fn complete(config: CaptureReplayConfigView, elapsed_secs: u64, stats: CaptureStats) -> bool {
    ||| config.duration_secs matches Some(secs) && elapsed_secs >= secs
    ||| config.max_diffs matches Some(max) && stats.diffs_written >= max
}

/// Whether a recording has what it was asked for: the whole seconds that it was
/// to last, or the number of changes.
pub fn is_complete(config: &CaptureReplayConfig, elapsed_secs: u64, stats: &CaptureStats) -> (r: bool)
    ensures
        r == complete(config@, elapsed_secs, *stats),
{
    if let Some(secs) = config.duration_secs {
        if elapsed_secs >= secs {
            return true;
        }
    }
    if let Some(max_diffs) = config.max_diffs {
        if stats.diffs_written >= max_diffs {
            return true;
        }
    }
    false
}

/// What the socket gave.
#[derive(Debug)]
pub enum CaptureEvent {
    /// No more messages.
    End,
    /// A text that holds changes, and when it came in.
    Diff { diff: DiffDepthStreamWrapper, receive_time_ms: u64 },
    /// A text that holds none.
    Unreadable,
    Ping,
    Pong,
    Close,
    /// Any other message.
    Other,
}

/// What is to be done about it.
#[derive(Debug)]
pub enum CaptureAction {
    Stop,
    /// Write the record.
    Write(ReplayOutDiff),
    /// Answer the ping with what came with it.
    AnswerPing,
    Nothing,
}

/// Whether an action is the one that an event calls for.
pub open spec fn answers(event: CaptureEvent, action: CaptureAction) -> bool {
    match event {
        CaptureEvent::End | CaptureEvent::Close => action is Stop,
        CaptureEvent::Diff { diff, receive_time_ms } => action matches CaptureAction::Write(record)
            && records_diff(record, diff, receive_time_ms),
        CaptureEvent::Ping => action is AnswerPing,
        CaptureEvent::Unreadable | CaptureEvent::Pong | CaptureEvent::Other => action is Nothing,
    }
}

/// The counts after an event.
pub open spec fn counted(stats: CaptureStats, event: CaptureEvent) -> CaptureStats {
    match event {
        CaptureEvent::Diff { .. } => CaptureStats {
            diffs_written: (stats.diffs_written + 1) as usize,
            ..stats
        },
        CaptureEvent::Unreadable => CaptureStats {
            parse_errors: (stats.parse_errors + 1) as usize,
            ..stats
        },
        CaptureEvent::Other => CaptureStats {
            non_text_messages: (stats.non_text_messages + 1) as usize,
            ..stats
        },
        _ => stats,
    }
}

impl CaptureStats {
    /// Counts an event and says what is to be done about it.
    pub fn take(&mut self, event: CaptureEvent) -> (r: CaptureAction)
        requires
            old(self).diffs_written < usize::MAX,
            old(self).parse_errors < usize::MAX,
            old(self).non_text_messages < usize::MAX,
        ensures
            answers(event, r),
            *final(self) == counted(*old(self), event),
    {
        match event {
            CaptureEvent::End => CaptureAction::Stop,
            CaptureEvent::Close => CaptureAction::Stop,
            CaptureEvent::Diff { diff, receive_time_ms } => {
                self.diffs_written = self.diffs_written + 1;
                CaptureAction::Write(diff_record(diff, receive_time_ms))
            },
            CaptureEvent::Unreadable => {
                self.parse_errors = self.parse_errors + 1;
                CaptureAction::Nothing
            },
            CaptureEvent::Ping => CaptureAction::AnswerPing,
            CaptureEvent::Pong => CaptureAction::Nothing,
            CaptureEvent::Other => {
                self.non_text_messages = self.non_text_messages + 1;
                CaptureAction::Nothing
            },
        }
    }
}

/// Whether no number of a list of offers is a zero with a minus sign.
pub open spec fn without_minus_zeros(offers: Seq<OfferData>) -> bool {
    forall|i: int| 0 <= i < offers.len() ==> !(#[trigger] offers[i]).price@.2 && !offers[i].size@.2
}

/// What is recorded of changes is read back as the same offers: each number is
/// the one that was written, digit by digit. Only the minus sign of a zero is not
/// read back.
pub proof fn law_recorded_offers_read_back(
    offers: Seq<OfferData>,
    texts: Seq<[String; 2]>,
    levels: Seq<crate::orderbook::PriceLevel>,
)
    requires
        writes_offers(texts, offers),
        crate::replay_check::price_levels_read(texts, levels),
    ensures
        crate::replay_check::all_read(texts),
        levels.len() == offers.len(),
        forall|i: int|
            0 <= i < levels.len() ==> (#[trigger] levels[i]).price@ == crate::decimal::unsigned_zero(
                offers[i].price@,
            ) && levels[i].qty@ == crate::decimal::unsigned_zero(offers[i].size@),
        without_minus_zeros(offers) ==> levels == crate::market_state::levels_of(offers),
{
    assert forall|i: int| 0 <= i < texts.len() implies #[trigger] crate::binance_rest::level_reads(
        texts,
        i,
    ) by {
        assert(writes_level(texts[i], offers[i].price@, offers[i].size@));
    }
    let expected = crate::market_state::levels_of(offers);
    assert forall|i: int| 0 <= i < levels.len() implies (#[trigger] levels[i]).price@
        == crate::decimal::unsigned_zero(offers[i].price@) && levels[i].qty@
        == crate::decimal::unsigned_zero(offers[i].size@) by {
        assert(writes_level(texts[i], offers[i].price@, offers[i].size@));
    }
    if without_minus_zeros(offers) {
        assert forall|i: int| 0 <= i < offers.len() implies levels[i] == expected[i] by {
            assert(!offers[i].price@.2);
            crate::decimal::lemma_written_alike(levels[i].price, offers[i].price);
            crate::decimal::lemma_written_alike(levels[i].qty, offers[i].size);
        }
        assert(levels =~= expected);
    }
}

/// Changes that were recorded are read back as they came in, where no zero among
/// them has a minus sign.
pub proof fn law_recorded_diff_reads_back(
    diff: DiffDepthStreamWrapper,
    receive_time_ms: u64,
    written: ReplayOutDiff,
    read: crate::replay_check::ReplayDiffRecord,
)
    requires
        without_minus_zeros(diff.data.bids@),
        without_minus_zeros(diff.data.asks@),
        records_diff(written, diff, receive_time_ms),
        read.stream == written.stream,
        read.first_update_id == written.first_update_id,
        read.final_update_id == written.final_update_id,
        read.prev_final_update_id == written.prev_final_update_id,
        read.event_time_ms == written.event_time_ms,
        read.receive_time_ms == written.receive_time_ms,
        crate::replay_check::price_levels_read(written.bids@, read.bids@),
        crate::replay_check::price_levels_read(written.asks@, read.asks@),
    ensures
        crate::replay_check::all_read(written.bids@),
        crate::replay_check::all_read(written.asks@),
        read.stream@ == diff.stream@,
        crate::replay_check::diff_of(read) == (crate::orderbook::DiffView {
            first_update_id: diff.data.first_update_id,
            final_update_id: diff.data.final_update_id,
            prev_final_update_id: diff.data.prev_final_update_id,
            bids: crate::market_state::levels_of(diff.data.bids@),
            asks: crate::market_state::levels_of(diff.data.asks@),
            event_time_ms: Some(diff.data.event_time_ms),
            receive_time_ms: Some(receive_time_ms),
        }),
{
    law_recorded_offers_read_back(diff.data.bids@, written.bids@, read.bids@);
    law_recorded_offers_read_back(diff.data.asks@, written.asks@, read.asks@);
}

/// What is recorded of a snapshot is read back as the same levels. Only the minus
/// sign of a zero is not read back.
pub proof fn law_recorded_levels_read_back(
    recorded: Seq<DepthSnapshotLevel>,
    texts: Seq<[String; 2]>,
    levels: Seq<crate::orderbook::PriceLevel>,
)
    requires
        writes_levels(texts, recorded),
        crate::replay_check::price_levels_read(texts, levels),
    ensures
        crate::replay_check::all_read(texts),
        levels.len() == recorded.len(),
        forall|i: int|
            0 <= i < levels.len() ==> (#[trigger] levels[i]).price@ == crate::decimal::unsigned_zero(
                recorded[i].price@,
            ) && levels[i].qty@ == crate::decimal::unsigned_zero(recorded[i].qty@),
        forall|i: int|
            0 <= i < levels.len() && !recorded[i].price@.2 && !recorded[i].qty@.2 ==> (
            #[trigger] levels[i]).price == recorded[i].price && levels[i].qty == recorded[i].qty,
{
    assert forall|i: int| 0 <= i < texts.len() implies #[trigger] crate::binance_rest::level_reads(
        texts,
        i,
    ) by {
        assert(writes_level(texts[i], recorded[i].price@, recorded[i].qty@));
    }
    assert forall|i: int| 0 <= i < levels.len() implies (#[trigger] levels[i]).price@
        == crate::decimal::unsigned_zero(recorded[i].price@) && levels[i].qty@
        == crate::decimal::unsigned_zero(recorded[i].qty@) by {
        assert(writes_level(texts[i], recorded[i].price@, recorded[i].qty@));
    }
    assert forall|i: int|
        0 <= i < levels.len() && !recorded[i].price@.2 && !recorded[i].qty@.2 implies (
    #[trigger] levels[i]).price == recorded[i].price && levels[i].qty == recorded[i].qty by {
        assert(writes_level(texts[i], recorded[i].price@, recorded[i].qty@));
        crate::decimal::lemma_written_alike(levels[i].price, recorded[i].price);
        crate::decimal::lemma_written_alike(levels[i].qty, recorded[i].qty);
    }
}

proof fn lemma_options()
    ensures
        "--append"@ != "--no-startup-snapshots"@,
        "--append"@ != "--seconds"@,
        "--append"@ != "--max-diffs"@,
        "--no-startup-snapshots"@ != "--seconds"@,
        "--no-startup-snapshots"@ != "--max-diffs"@,
        "--seconds"@ != "--max-diffs"@,
        crate::cli::option_like("--append"@),
        crate::cli::option_like("--no-startup-snapshots"@),
        crate::cli::option_like("--seconds"@),
        crate::cli::option_like("--max-diffs"@),
{
    reveal_strlit("--");
    reveal_strlit("--append");
    reveal_strlit("--no-startup-snapshots");
    reveal_strlit("--seconds");
    reveal_strlit("--max-diffs");
    assert("--append"@.len() != "--no-startup-snapshots"@.len());
    assert("--append"@.len() != "--seconds"@.len());
    assert("--append"@.len() != "--max-diffs"@.len());
    assert("--no-startup-snapshots"@.len() != "--seconds"@.len());
    assert("--no-startup-snapshots"@.len() != "--max-diffs"@.len());
    assert("--seconds"@.len() != "--max-diffs"@.len());
}

/// How one argument counts: an option without a value makes its own choice and no
/// other, the first other text is the path, and a further one, or an option that
/// there is none of, is refused with its name.
pub proof fn law_arguments_count_one_by_one(
    arg: Seq<char>,
    rest: Seq<Seq<char>>,
    so_far: CaptureReplayConfigView,
    path_set: bool,
)
    ensures
        arg == "--append"@ ==> args_read(seq![arg] + rest, so_far, path_set) == args_read(
            rest,
            CaptureReplayConfigView { append: true, ..so_far },
            path_set,
        ),
        arg == "--no-startup-snapshots"@
            ==> args_read(seq![arg] + rest, so_far, path_set) == args_read(
            rest,
            CaptureReplayConfigView { startup_snapshots: false, ..so_far },
            path_set,
        ),
        "--"@.is_prefix_of(arg) && arg != "--append"@
            && arg != "--no-startup-snapshots"@
            && arg != "--seconds"@
            && arg != "--max-diffs"@ ==> args_read(
            seq![arg] + rest,
            so_far,
            path_set,
        ) == Err::<CaptureReplayConfigView, Seq<char>>("unknown option "@ + arg),
        !"--"@.is_prefix_of(arg) && path_set ==> args_read(seq![arg] + rest, so_far, path_set)
            == Err::<CaptureReplayConfigView, Seq<char>>("unexpected positional argument "@ + arg),
        !"--"@.is_prefix_of(arg) && !path_set ==> args_read(seq![arg] + rest, so_far, path_set)
            == args_read(rest, CaptureReplayConfigView { output_path: arg, ..so_far }, true),
{
    lemma_options();
    let args = seq![arg] + rest;
    assert(args[0] == arg);
    assert(args.drop_first() =~= rest);
}

/// How an option with a value counts: the text behind it sets its own choice and no
/// other; without one, or with one that cannot be used, it is refused.
pub proof fn law_options_take_the_next_argument(
    arg: Seq<char>,
    value: Seq<char>,
    rest: Seq<Seq<char>>,
    so_far: CaptureReplayConfigView,
    path_set: bool,
)
    ensures
        arg == "--seconds"@ && crate::text::whole_number(value, u64::MAX as nat) is None
            ==> args_read(seq![arg, value] + rest, so_far, path_set)
            == Err::<CaptureReplayConfigView, Seq<char>>("invalid integer for --seconds"@),
        arg == "--seconds"@ && crate::text::whole_number(value, u64::MAX as nat) == Some(0nat)
            ==> args_read(seq![arg, value] + rest, so_far, path_set)
            == Err::<CaptureReplayConfigView, Seq<char>>("--seconds must be > 0"@),
        arg == "--seconds"@
            && crate::text::whole_number(value, u64::MAX as nat) is Some
            && crate::text::whole_number(value, u64::MAX as nat)->0 > 0
            ==> args_read(seq![arg, value] + rest, so_far, path_set) == args_read(
            rest,
            CaptureReplayConfigView {
                duration_secs: Some(crate::text::whole_number(value, u64::MAX as nat)->0 as u64),
                ..so_far
            },
            path_set,
        ),
        arg == "--max-diffs"@ && crate::text::whole_number(value, usize::MAX as nat) is None
            ==> args_read(seq![arg, value] + rest, so_far, path_set)
            == Err::<CaptureReplayConfigView, Seq<char>>("invalid integer for --max-diffs"@),
        arg == "--max-diffs"@ && crate::text::whole_number(value, usize::MAX as nat) == Some(0nat)
            ==> args_read(seq![arg, value] + rest, so_far, path_set)
            == Err::<CaptureReplayConfigView, Seq<char>>("--max-diffs must be > 0"@),
        arg == "--max-diffs"@
            && crate::text::whole_number(value, usize::MAX as nat) is Some
            && crate::text::whole_number(value, usize::MAX as nat)->0 > 0
            ==> args_read(seq![arg, value] + rest, so_far, path_set) == args_read(
            rest,
            CaptureReplayConfigView {
                max_diffs: Some(crate::text::whole_number(value, usize::MAX as nat)->0 as usize),
                ..so_far
            },
            path_set,
        ),
        arg == "--seconds"@
            ==> args_read(seq![arg], so_far, path_set)
            == Err::<CaptureReplayConfigView, Seq<char>>("missing value for --seconds"@),
        arg == "--max-diffs"@
            ==> args_read(seq![arg], so_far, path_set)
            == Err::<CaptureReplayConfigView, Seq<char>>("missing value for --max-diffs"@),
{
    lemma_options();
    let args = seq![arg, value] + rest;
    assert(args[0] == arg);
    assert(args[1] == value);
    assert(args.skip(2) =~= rest);
    assert(seq![arg][0] == arg);
}

/// What there is without arguments: the choices made so far,
/// which are these at first.
pub proof fn law_choices_without_arguments(so_far: CaptureReplayConfigView, path_set: bool)
    ensures
        args_read(Seq::empty(), so_far, path_set) == Ok::<CaptureReplayConfigView, Seq<char>>(so_far),
        default_config().output_path == "data/replay_market.jsonl"@,
        default_config().append == false,
        default_config().duration_secs == None::<u64>,
        default_config().max_diffs == None::<usize>,
        default_config().startup_snapshots == true,
{
}

/// The subcommand is run exactly where the first argument names it and the others
/// can be used, and then with what they come to.
pub proof fn law_subcommand_is_named_first(args: Seq<Seq<char>>, request: CliRequest<CaptureReplayConfig>)
    requires
        requested(args, request),
    ensures
        request is Other <==> args.len() == 0 || args[0] != "capture-replay"@,
        request matches CliRequest::Run(config) ==> args_read(args.skip(1), default_config(), false)
            == Ok::<CaptureReplayConfigView, Seq<char>>(config@),
        request matches CliRequest::Refused(message) ==> args_read(
            args.skip(1),
            default_config(),
            false,
        ) == Err::<CaptureReplayConfigView, Seq<char>>(message@),
{
    if args.len() > 0 {
        assert(args.skip(1) =~= args.drop_first());
    }
}

/// What a recording does on an event. It stops at the end and on a close, answers
/// a ping, and writes changes, each with the numbers and times that it came with
/// and its bids and asks in their order. It does nothing on any other.
pub proof fn law_events_are_answered(event: CaptureEvent, action: CaptureAction)
    requires
        answers(event, action),
    ensures
        action is Stop <==> event is End || event is Close,
        action is AnswerPing <==> event is Ping,
        action is Write <==> event is Diff,
        action is Nothing <==> event is Unreadable || event is Pong || event is Other,
        event matches CaptureEvent::Diff { diff, receive_time_ms } ==> (action
            matches CaptureAction::Write(record) && {
            &&& record.stream@ == diff.stream@
            &&& record.first_update_id == diff.data.first_update_id
            &&& record.final_update_id == diff.data.final_update_id
            &&& record.prev_final_update_id == diff.data.prev_final_update_id
            &&& record.event_time_ms == Some(diff.data.event_time_ms)
            &&& record.receive_time_ms == Some(receive_time_ms)
            &&& record.bids@.len() == diff.data.bids@.len()
            &&& record.asks@.len() == diff.data.asks@.len()
            &&& forall|i: int|
                0 <= i < diff.data.bids@.len() ==> (#[trigger] record.bids@[i])@[0]@
                    == crate::decimal::text_of_number(diff.data.bids@[i].price@)
                    && record.bids@[i]@[1]@ == crate::decimal::text_of_number(
                    diff.data.bids@[i].size@,
                )
            &&& forall|i: int|
                0 <= i < diff.data.asks@.len() ==> (#[trigger] record.asks@[i])@[0]@
                    == crate::decimal::text_of_number(diff.data.asks@[i].price@)
                    && record.asks@[i]@[1]@ == crate::decimal::text_of_number(
                    diff.data.asks@[i].size@,
                )
        }),
{
}

/// What an event adds to the counts: changes that are written, texts that hold none
/// and messages of other kinds count once each, and nothing else does.
pub proof fn law_events_are_counted(stats: CaptureStats, event: CaptureEvent)
    requires
        stats.diffs_written < usize::MAX,
        stats.parse_errors < usize::MAX,
        stats.non_text_messages < usize::MAX,
    ensures
        ({
            let after = counted(stats, event);
            let one = |holds: bool|
                if holds {
                    1int
                } else {
                    0int
                };
            &&& after.snapshots_written == stats.snapshots_written
            &&& after.diffs_written == stats.diffs_written + one(event is Diff)
            &&& after.parse_errors == stats.parse_errors + one(event is Unreadable)
            &&& after.non_text_messages == stats.non_text_messages + one(event is Other)
        }),
{
}

/// A recording is complete once it lasted as long as it was to, or holds as many
/// changes as it was to; without such a bound it never is.
pub proof fn law_recording_ends_at_a_bound(
    config: CaptureReplayConfigView,
    elapsed_secs: u64,
    stats: CaptureStats,
)
    ensures
        complete(config, elapsed_secs, stats) <==> (config.duration_secs is Some && elapsed_secs
            >= config.duration_secs->0) || (config.max_diffs is Some && stats.diffs_written
            >= config.max_diffs->0),
{
}

/// The streams of pairs: one for each pair, in their order, whose name begins with
/// that of the pair, so that the pair is found again in front of the mark.
pub proof fn law_streams_name_their_pairs(pairs: Seq<String>, update_interval: u32, i: int)
    requires
        0 <= i < pairs.len(),
        !pairs[i]@.contains('@'),
    ensures
        stream_names(pairs, update_interval).len() == pairs.len(),
        stream_names(pairs, update_interval)[i] == pairs[i]@ + "@depth@"@ + crate::text::digits(
            update_interval as nat,
        ) + "ms"@,
        crate::text::before(stream_names(pairs, update_interval)[i], '@') == pairs[i]@,
{
    reveal_strlit("@depth@");
    let name = stream_names(pairs, update_interval)[i];
    let pair = pairs[i]@;
    crate::text::lemma_before(name, '@');
    let b = crate::text::before(name, '@');
    assert(name[pair.len() as int] == '@');
    assert(name.contains('@'));
    if b.len() < pair.len() {
        assert(name[b.len() as int] == pair[b.len() as int]);
        assert(pair.contains('@'));
    }
    if b.len() > pair.len() {
        assert(b[pair.len() as int] == name[pair.len() as int]);
        assert(b.contains('@'));
    }
    assert(b =~= pair);
}

} // verus!
