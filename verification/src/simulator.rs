//! Trading logged signals on paper.

use vstd::prelude::*;

use crate::analyzer::name_of_triangle;
use crate::cli::{
    CliRequest, CliToken, is_option, is_token_command, unexpected_argument_message,
    unknown_option_message,
};
use crate::float_key::FloatKey;
use crate::names::add_name;
use crate::text::{lowercase, read_u64, same_text, split_once, trim};
use crate::text_map::TextMap;

verus! {

/// What the subcommand is asked to do.
#[derive(Debug)]
pub struct SimConfig {
    pub path: String,
    pub retrigger_cooldown_ms: u64,
    pub min_adjusted_profit_bps: FloatKey,
    pub include_unworthy: bool,
    pub position_size_pct: FloatKey,
    pub max_position_vs_signal: FloatKey,
    pub auto_seed_assets: bool,
    pub seed_multiplier: FloatKey,
    pub initial_balances: TextMap<FloatKey>,
}

impl Default for SimConfig {
    fn default() -> (r: SimConfig)
        ensures
            r@ == default_config(),
    {
        SimConfig {
            path: "data/triangle_signals.jsonl".to_owned(),
            retrigger_cooldown_ms: 1_500,
            min_adjusted_profit_bps: FloatKey::zero(),
            include_unworthy: false,
            position_size_pct: FloatKey::one(),
            max_position_vs_signal: FloatKey::one(),
            auto_seed_assets: true,
            seed_multiplier: FloatKey::one(),
            initial_balances: TextMap::new(),
        }
    }
}

/// The texts and choices of [`SimConfig`].
pub struct SimConfigView {
    pub path: Seq<char>,
    pub retrigger_cooldown_ms: u64,
    pub min_adjusted_profit_bps: FloatKey,
    pub include_unworthy: bool,
    pub position_size_pct: FloatKey,
    pub max_position_vs_signal: FloatKey,
    pub auto_seed_assets: bool,
    pub seed_multiplier: FloatKey,
    pub initial_balances: Map<Seq<char>, FloatKey>,
}

impl View for SimConfig {
    type V = SimConfigView;

    open spec fn view(&self) -> SimConfigView {
        SimConfigView {
            path: self.path@,
            retrigger_cooldown_ms: self.retrigger_cooldown_ms,
            min_adjusted_profit_bps: self.min_adjusted_profit_bps,
            include_unworthy: self.include_unworthy,
            position_size_pct: self.position_size_pct,
            max_position_vs_signal: self.max_position_vs_signal,
            auto_seed_assets: self.auto_seed_assets,
            seed_multiplier: self.seed_multiplier,
            initial_balances: self.initial_balances@,
        }
    }
}

pub open spec fn default_config() -> SimConfigView {
    SimConfigView {
        path: "data/triangle_signals.jsonl"@,
        retrigger_cooldown_ms: 1_500,
        min_adjusted_profit_bps: FloatKey { key: 0 },
        include_unworthy: false,
        position_size_pct: FloatKey { key: crate::float_key::ONE },
        max_position_vs_signal: FloatKey { key: crate::float_key::ONE },
        auto_seed_assets: true,
        seed_multiplier: FloatKey { key: crate::float_key::ONE },
        initial_balances: Map::empty(),
    }
}

/// An asset without white space around it and in small letters.
pub open spec fn asset_key(asset: Seq<char>) -> Seq<char> {
    crate::text::lowered(crate::text::trimmed(asset))
}

/// An asset without white space around it and in small letters.
pub fn normalize_asset_key(asset: &str) -> (r: String)
    ensures
        r@ == asset_key(asset@),
{
    lowercase(trim(asset).as_str())
}

/// The balance that an argument sets, or why it sets none.
pub open spec fn balance_read(arg: CliToken) -> Result<(Seq<char>, FloatKey), Seq<char>> {
    let asset = asset_key(crate::text::before(arg.text@, '='));
    if !arg.text@.contains('=') {
        Err("--balance expects asset=amount"@)
    } else if asset.len() == 0 {
        Err("asset in --balance asset=amount cannot be empty"@)
    } else {
        match arg.amount {
            None => Err("invalid number in --balance asset=amount"@),
            Some(amount) => if amount.lt(FloatKey { key: 0 }) {
                Err("balance amount must be >= 0"@)
            } else {
                Ok((asset, amount))
            },
        }
    }
}

/// Reads a balance: an asset and an amount with an equals sign between them.
pub fn parse_balance_arg(arg: &CliToken) -> (r: Result<(String, FloatKey), String>)
    ensures
        match r {
            Ok((asset, amount)) => balance_read(*arg) == Ok::<(Seq<char>, FloatKey), Seq<char>>(
                (asset@, amount),
            ),
            Err(message) => balance_read(*arg) == Err::<(Seq<char>, FloatKey), Seq<char>>(message@),
        },
{
    let asset: String = match split_once(arg.text.as_str(), '=') {
        Some((asset, _)) => normalize_asset_key(asset.as_str()),
        None => {
            return Err("--balance expects asset=amount".to_owned());
        },
    };
    if asset.as_str().is_empty() {
        return Err("asset in --balance asset=amount cannot be empty".to_owned());
    }
    match arg.amount {
        Some(amount) => {
            if amount.below(FloatKey::zero()) {
                return Err("balance amount must be >= 0".to_owned());
            }
            Ok((asset, amount))
        },
        None => Err("invalid number in --balance asset=amount".to_owned()),
    }
}

/// A choice that was read, or why it cannot be used: a size has to be above
/// zero and not above one, and a factor above zero.
pub open spec fn usable(config: SimConfigView) -> Result<SimConfigView, Seq<char>> {
    let zero = FloatKey { key: 0 };
    let one = FloatKey { key: crate::float_key::ONE };
    if !(zero.lt(config.position_size_pct) && config.position_size_pct.le(one)) {
        Err("--position-size-pct must be > 0 and <= 1"@)
    } else if config.max_position_vs_signal.le(zero) {
        Err("--max-position-vs-signal must be > 0"@)
    } else if config.seed_multiplier.le(zero) {
        Err("--seed-multiplier must be > 0"@)
    } else {
        Ok(config)
    }
}

/// What a number behind an option comes to.
pub open spec fn with_number(config: SimConfigView, option: Seq<char>, number: FloatKey) -> SimConfigView {
    if option == "--min-adjusted-bps"@ {
        SimConfigView { min_adjusted_profit_bps: number, ..config }
    } else if option == "--position-size-pct"@ {
        SimConfigView { position_size_pct: number, ..config }
    } else if option == "--max-position-vs-signal"@ {
        SimConfigView { max_position_vs_signal: number, ..config }
    } else {
        SimConfigView { seed_multiplier: number, ..config }
    }
}

/// Whether an option takes a number.
pub open spec fn takes_number(option: Seq<char>) -> bool {
    ||| option == "--min-adjusted-bps"@
    ||| option == "--position-size-pct"@
    ||| option == "--max-position-vs-signal"@
    ||| option == "--seed-multiplier"@
}

/// What arguments come to, read one after the other on top of what was read
/// before them.
pub open spec fn args_read(args: Seq<CliToken>, so_far: SimConfigView, path_set: bool) -> Result<
    SimConfigView,
    Seq<char>,
>
    decreases args.len(),
{
    if args.len() == 0 {
        usable(so_far)
    } else if args[0].text@ == "--cooldown-ms"@ {
        if args.len() == 1 {
            Err("missing value for --cooldown-ms"@)
        } else {
            match crate::text::whole_number(args[1].text@, u64::MAX as nat) {
                None => Err("invalid integer for --cooldown-ms"@),
                Some(n) => args_read(
                    args.skip(2),
                    SimConfigView { retrigger_cooldown_ms: n as u64, ..so_far },
                    path_set,
                ),
            }
        }
    } else if takes_number(args[0].text@) {
        if args.len() == 1 {
            Err("missing value for "@ + args[0].text@)
        } else {
            match args[1].number {
                None => Err("invalid number for "@ + args[0].text@),
                Some(number) => args_read(
                    args.skip(2),
                    with_number(so_far, args[0].text@, number),
                    path_set,
                ),
            }
        }
    } else if args[0].text@ == "--include-unworthy"@ {
        args_read(args.drop_first(), SimConfigView { include_unworthy: true, ..so_far }, path_set)
    } else if args[0].text@ == "--no-auto-seed"@ {
        args_read(args.drop_first(), SimConfigView { auto_seed_assets: false, ..so_far }, path_set)
    } else if args[0].text@ == "--balance"@ {
        if args.len() == 1 {
            Err("missing value for --balance"@)
        } else {
            match balance_read(args[1]) {
                Err(message) => Err(message),
                Ok(balance) => args_read(
                    args.skip(2),
                    SimConfigView {
                        initial_balances: so_far.initial_balances.insert(balance.0, balance.1),
                        ..so_far
                    },
                    path_set,
                ),
            }
        }
    } else if crate::cli::option_like(args[0].text@) {
        Err(crate::cli::unknown_option(args[0].text@))
    } else if path_set {
        Err(crate::cli::unexpected_argument(args[0].text@))
    } else {
        args_read(args.drop_first(), SimConfigView { path: args[0].text@, ..so_far }, true)
    }
}

fn option_takes_number(option: &str) -> (r: bool)
    ensures
        r == takes_number(option@),
{
    same_text(option, "--min-adjusted-bps") || same_text(option, "--position-size-pct")
        || same_text(option, "--max-position-vs-signal") || same_text(option, "--seed-multiplier")
}

impl SimConfig {
    fn set_number(&mut self, option: &str, number: FloatKey)
        ensures
            final(self)@ == with_number(old(self)@, option@, number),
    {
        if same_text(option, "--min-adjusted-bps") {
            self.min_adjusted_profit_bps = number;
        } else if same_text(option, "--position-size-pct") {
            self.position_size_pct = number;
        } else if same_text(option, "--max-position-vs-signal") {
            self.max_position_vs_signal = number;
        } else {
            self.seed_multiplier = number;
        }
    }

    fn check(&self) -> (r: Result<(), String>)
        ensures
            match r {
                Ok(_) => usable(self@) == Ok::<SimConfigView, Seq<char>>(self@),
                Err(message) => usable(self@) == Err::<SimConfigView, Seq<char>>(message@),
            },
    {
        let zero: FloatKey = FloatKey::zero();
        if !zero.below(self.position_size_pct) || !self.position_size_pct.at_most(FloatKey::one()) {
            return Err("--position-size-pct must be > 0 and <= 1".to_owned());
        }
        if self.max_position_vs_signal.at_most(zero) {
            return Err("--max-position-vs-signal must be > 0".to_owned());
        }
        if self.seed_multiplier.at_most(zero) {
            return Err("--seed-multiplier must be > 0".to_owned());
        }
        Ok(())
    }
}

/// Reads the arguments of the subcommand.
pub fn parse_args(args: &Vec<CliToken>) -> (r: Result<SimConfig, String>)
    ensures
        match r {
            Ok(config) => args_read(args@, default_config(), false) == Ok::<
                SimConfigView,
                Seq<char>,
            >(config@),
            Err(message) => args_read(args@, default_config(), false) == Err::<
                SimConfigView,
                Seq<char>,
            >(message@),
        },
{
    let ghost all = args@;
    let mut config: SimConfig = SimConfig::default();
    let mut path_set: bool = false;
    let mut i: usize = 0;
    proof {
        assert(all.skip(0) =~= all);
    }
    while i < args.len()
        invariant
            i <= args@.len(),
            all == args@,
            args_read(all, default_config(), false) == args_read(all.skip(i as int), config@, path_set),
        decreases args@.len() - i,
    {
        let arg: &str = args[i].text.as_str();
        let ghost rest = all.skip(i as int);
        proof {
            assert(rest[0] == args@[i as int]);
            assert(rest.drop_first() =~= all.skip(i + 1));
            if i + 1 < args@.len() {
                assert(rest[1] == args@[i + 1]);
                assert(rest.skip(2) =~= all.skip(i + 2));
            }
        }
        if same_text(arg, "--cooldown-ms") {
            i = i + 1;
            if i == args.len() {
                return Err("missing value for --cooldown-ms".to_owned());
            }
            match read_u64(args[i].text.as_str()) {
                Some(n) => {
                    config.retrigger_cooldown_ms = n;
                },
                None => {
                    return Err("invalid integer for --cooldown-ms".to_owned());
                },
            }
        } else if option_takes_number(arg) {
            i = i + 1;
            if i == args.len() {
                return Err(crate::text::concat2("missing value for ", arg));
            }
            match args[i].number {
                Some(number) => {
                    config.set_number(arg, number);
                },
                None => {
                    return Err(crate::text::concat2("invalid number for ", arg));
                },
            }
        } else if same_text(arg, "--include-unworthy") {
            config.include_unworthy = true;
        } else if same_text(arg, "--no-auto-seed") {
            config.auto_seed_assets = false;
        } else if same_text(arg, "--balance") {
            i = i + 1;
            if i == args.len() {
                return Err("missing value for --balance".to_owned());
            }
            match parse_balance_arg(&args[i]) {
                Ok((asset, amount)) => {
                    config.initial_balances.insert(asset, amount);
                },
                Err(message) => {
                    return Err(message);
                },
            }
        } else if is_option(arg) {
            return Err(unknown_option_message(arg));
        } else if path_set {
            return Err(unexpected_argument_message(arg));
        } else {
            config.path = arg.to_owned();
            path_set = true;
        }
        i = i + 1;
    }
    match config.check() {
        Ok(_) => Ok(config),
        Err(message) => Err(message),
    }
}

/// Whether a request is the one that the arguments of the program make.
pub open spec fn requested(args: Seq<CliToken>, request: CliRequest<SimConfig>) -> bool {
    let named = crate::cli::names_command(crate::cli::token_texts(args), "simulate"@);
    let outcome = args_read(args.drop_first(), default_config(), false);
    match request {
        CliRequest::Other => !named,
        CliRequest::Refused(message) => named && outcome == Err::<SimConfigView, Seq<char>>(message@),
        CliRequest::Run(config) => named && outcome == Ok::<SimConfigView, Seq<char>>(config@),
    }
}

/// What the arguments of the program ask of this subcommand.
pub fn request_from_cli_args(args: Vec<CliToken>) -> (r: CliRequest<SimConfig>)
    ensures
        requested(args@, r),
{
    if !is_token_command(&args, "simulate") {
        return CliRequest::Other;
    }
    let mut rest: Vec<CliToken> = args;
    let ghost all = rest@;
    let _ = rest.remove(0);
    proof {
        assert(rest@ =~= all.drop_first());
    }
    match parse_args(&rest) {
        Ok(config) => CliRequest::Run(config),
        Err(message) => CliRequest::Refused(message),
    }
}

/// Whether a size is above zero and not above one, and factors are not at or
/// below zero.
pub open spec fn sound_sizes(config: SimConfigView) -> bool {
    let zero = FloatKey { key: 0 };
    &&& zero.lt(config.position_size_pct)
    &&& config.position_size_pct.le(FloatKey { key: crate::float_key::ONE })
    &&& !config.max_position_vs_signal.le(zero)
    &&& !config.seed_multiplier.le(zero)
}

/// Arguments that can be used set sound sizes, whatever was set before them.
pub proof fn law_sizes_are_sound(args: Seq<CliToken>, so_far: SimConfigView, path_set: bool)
    ensures
        args_read(args, so_far, path_set) matches Ok(config) ==> sound_sizes(config),
    decreases args.len(),
{
    if args.len() > 0 {
        let rest = args.drop_first();
        let behind = args.skip(2);
        law_sizes_are_sound(rest, SimConfigView { include_unworthy: true, ..so_far }, path_set);
        law_sizes_are_sound(rest, SimConfigView { auto_seed_assets: false, ..so_far }, path_set);
        law_sizes_are_sound(rest, SimConfigView { path: args[0].text@, ..so_far }, true);
        if args.len() > 1 {
            if let Some(n) = crate::text::whole_number(args[1].text@, u64::MAX as nat) {
                law_sizes_are_sound(
                    behind,
                    SimConfigView { retrigger_cooldown_ms: n as u64, ..so_far },
                    path_set,
                );
            }
            if let Some(number) = args[1].number {
                law_sizes_are_sound(behind, with_number(so_far, args[0].text@, number), path_set);
            }
            if let Ok(balance) = balance_read(args[1]) {
                law_sizes_are_sound(
                    behind,
                    SimConfigView {
                        initial_balances: so_far.initial_balances.insert(balance.0, balance.1),
                        ..so_far
                    },
                    path_set,
                );
            }
        }
    }
}

/// What a logged signal says to the simulation.
#[derive(Debug)]
pub struct SimSignal {
    pub start_asset: String,
    pub triangle_pairs: [String; 3],
    pub timestamp_ms: u64,
    pub execution_filter_passed: bool,
    pub worthy: bool,
    pub adjusted_profit_bps: FloatKey,
}

/// Counts of what a log held and of what became of it.
#[derive(Debug, Clone, Copy)]
pub struct SummaryStats {
    pub total_lines: usize,
    pub parsed_lines: usize,
    pub executable_signals: usize,
    pub worthy_signals: usize,
    pub executed_trades: usize,
    pub skipped_not_executable: usize,
    pub skipped_not_worthy: usize,
    pub skipped_profit_threshold: usize,
    pub skipped_cooldown: usize,
    pub skipped_no_balance: usize,
    pub wins: usize,
    pub losses_or_flat: usize,
}

/// What the trades that start with an asset come to, but for the sums.
#[derive(Debug, Clone, Copy)]
pub struct AssetStats {
    pub trades: usize,
    pub wins: usize,
    pub losses_or_flat: usize,
    pub max_adjusted_bps: FloatKey,
    pub min_adjusted_bps: FloatKey,
}

/// How many triangles are shown.
pub const TOP_ROWS: usize = 15;

impl AssetStats {
    /// The smallest profit that is shown: zero where there is none.
    pub fn shown_min(&self) -> (r: FloatKey)
        ensures
            r == if self.trades == 0 || !self.min_adjusted_bps.finite() {
                FloatKey { key: 0 }
            } else {
                self.min_adjusted_bps
            },
    {
        if self.trades == 0 || !self.min_adjusted_bps.is_finite() {
            FloatKey::zero()
        } else {
            self.min_adjusted_bps
        }
    }
}

/// What the trades on a triangle come to, but for the sums.
#[derive(Debug)]
pub struct TriangleStats {
    pub start_asset: String,
    pub trades: usize,
    pub wins: usize,
    pub max_adjusted_bps: FloatKey,
}

/// What the trades on a triangle come to, but for the sums.
pub struct TriangleStatsView {
    pub start_asset: Seq<char>,
    pub trades: usize,
    pub wins: usize,
    pub max_adjusted_bps: FloatKey,
}

impl View for TriangleStats {
    type V = TriangleStatsView;

    open spec fn view(&self) -> TriangleStatsView {
        TriangleStatsView {
            start_asset: self.start_asset@,
            trades: self.trades,
            wins: self.wins,
            max_adjusted_bps: self.max_adjusted_bps,
        }
    }
}

/// Where a simulation stands.
pub struct SimView {
    pub counts: SummaryStats,
    pub last_trade: Map<Seq<char>, u64>,
    pub active: Map<Seq<char>, bool>,
    pub balances: Map<Seq<char>, FloatKey>,
    pub by_asset: Map<Seq<char>, AssetStats>,
    pub by_triangle: Map<Seq<char>, TriangleStatsView>,
}

/// How many signals were traded or skipped.
pub open spec fn decided(counts: SummaryStats) -> int {
    counts.executed_trades + counts.skipped_not_executable + counts.skipped_not_worthy
        + counts.skipped_profit_threshold + counts.skipped_cooldown + counts.skipped_no_balance
}

/// Whether counts can be those of a log: every signal is traded or skipped at
/// most once, and every trade is a win or none.
pub open spec fn counts_fit(state: SimView) -> bool {
    &&& state.counts.parsed_lines <= state.counts.total_lines
    &&& state.counts.executable_signals <= state.counts.parsed_lines
    &&& state.counts.worthy_signals <= state.counts.parsed_lines
    &&& decided(state.counts) <= state.counts.parsed_lines
    &&& state.counts.wins + state.counts.losses_or_flat == state.counts.executed_trades
    &&& assets_fit(state.by_asset, state.counts.executed_trades)
    &&& triangles_fit(state.by_triangle, state.counts.executed_trades)
}

/// Whether the counts of all assets fit a number of trades.
pub open spec fn assets_fit(by_asset: Map<Seq<char>, AssetStats>, trades: usize) -> bool {
    forall|asset: Seq<char>| #[trigger]
        by_asset.dom().contains(asset) ==> by_asset[asset].wins + by_asset[asset].losses_or_flat
            == by_asset[asset].trades && by_asset[asset].trades <= trades
}

/// Whether the counts of all triangles fit a number of trades.
pub open spec fn triangles_fit(
    by_triangle: Map<Seq<char>, TriangleStatsView>,
    trades: usize,
) -> bool {
    forall|name: Seq<char>| #[trigger]
        by_triangle.dom().contains(name) ==> by_triangle[name].wins <= by_triangle[name].trades
            <= trades
}

/// The number after a count.
pub open spec fn bumped(count: usize) -> usize {
    (count + 1) as usize
}

/// A count, and one more where something holds.
pub open spec fn bumped_if(count: usize, holds: bool) -> usize {
    if holds {
        bumped(count)
    } else {
        count
    }
}

/// What is made of a signal.
#[derive(Debug, Clone, Copy, PartialEq, Eq, Structural)]
pub enum Verdict {
    NotExecutable,
    NotWorthy,
    BelowThreshold,
    CoolingDown,
    Ready,
}

/// Whether enough time has passed since the last trade on a triangle.
pub open spec fn cooled_down(state: SimView, config: SimConfigView, name: Seq<char>, now: u64) -> bool {
    state.last_trade.dom().contains(name) ==> {
        let then = state.last_trade[name];
        (if now > then {
            now - then
        } else {
            0
        }) >= config.retrigger_cooldown_ms
    }
}

/// What is made of a signal.
pub open spec fn verdict_on(state: SimView, config: SimConfigView, signal: SimSignal) -> Verdict {
    let name = crate::analyzer::triangle_name(signal.triangle_pairs);
    if !signal.execution_filter_passed {
        Verdict::NotExecutable
    } else if !config.include_unworthy && !signal.worthy {
        Verdict::NotWorthy
    } else if signal.adjusted_profit_bps.lt(config.min_adjusted_profit_bps) {
        Verdict::BelowThreshold
    } else if !cooled_down(state, config, name, signal.timestamp_ms) {
        Verdict::CoolingDown
    } else {
        Verdict::Ready
    }
}

/// Where a simulation stands once a signal was considered. A triangle is active
/// while its signals are good, whether or not they are traded.
pub open spec fn after_considering(state: SimView, config: SimConfigView, signal: SimSignal) -> SimView {
    let name = crate::analyzer::triangle_name(signal.triangle_pairs);
    let counts = SummaryStats {
        executable_signals: bumped_if(
            state.counts.executable_signals,
            signal.execution_filter_passed,
        ),
        worthy_signals: bumped_if(state.counts.worthy_signals, signal.worthy),
        ..state.counts
    };
    match verdict_on(state, config, signal) {
        Verdict::NotExecutable => SimView {
            counts: SummaryStats {
                skipped_not_executable: bumped(counts.skipped_not_executable),
                ..counts
            },
            active: state.active.insert(name, false),
            ..state
        },
        Verdict::NotWorthy => SimView {
            counts: SummaryStats {
                skipped_not_worthy: bumped(counts.skipped_not_worthy),
                ..counts
            },
            active: state.active.insert(name, false),
            ..state
        },
        Verdict::BelowThreshold => SimView {
            counts: SummaryStats {
                skipped_profit_threshold: bumped(counts.skipped_profit_threshold),
                ..counts
            },
            active: state.active.insert(name, false),
            ..state
        },
        Verdict::CoolingDown => SimView {
            counts: SummaryStats { skipped_cooldown: bumped(counts.skipped_cooldown), ..counts },
            active: state.active.insert(name, true),
            ..state
        },
        Verdict::Ready => SimView { counts, ..state },
    }
}

/// The balance of an asset; zero where there is none.
pub open spec fn balance_of(balances: Map<Seq<char>, FloatKey>, asset: Seq<char>) -> FloatKey {
    if balances.dom().contains(asset) {
        balances[asset]
    } else {
        FloatKey { key: 0 }
    }
}

/// Balances once an asset that has none was seeded, where that is asked for.
pub open spec fn seeded(
    balances: Map<Seq<char>, FloatKey>,
    asset: Seq<char>,
    seed: FloatKey,
    auto_seed: bool,
) -> Map<Seq<char>, FloatKey> {
    if balances.dom().contains(asset) || !auto_seed {
        balances
    } else {
        balances.insert(asset, seed)
    }
}

/// The size of a position: the share of the balance, but no more than the cap
/// and the balance.
pub open spec fn position_for(share: FloatKey, cap: FloatKey, available: FloatKey) -> FloatKey {
    share.smaller(cap).smaller(available)
}

/// Whether a position can be taken.
pub open spec fn is_position(size: FloatKey) -> bool {
    !size.le(FloatKey { key: 0 }) && size.finite()
}

/// Where a simulation stands after a trade that left a balance.
pub open spec fn after_trade(state: SimView, signal: SimSignal, new_balance: FloatKey) -> SimView {
    let name = crate::analyzer::triangle_name(signal.triangle_pairs);
    let asset = asset_key(signal.start_asset@);
    let bps = signal.adjusted_profit_bps;
    let win = (FloatKey { key: 0 }).lt(bps);
    SimView {
        counts: SummaryStats {
            executed_trades: bumped(state.counts.executed_trades),
            wins: bumped_if(state.counts.wins, win),
            losses_or_flat: bumped_if(state.counts.losses_or_flat, !win),
            ..state.counts
        },
        last_trade: state.last_trade.insert(name, signal.timestamp_ms),
        active: state.active.insert(name, true),
        balances: if state.balances.dom().contains(asset) {
            state.balances.insert(asset, new_balance)
        } else {
            state.balances
        },
        by_asset: state.by_asset.insert(
            signal.start_asset@,
            with_asset_trade(asset_stats_of(state.by_asset, signal.start_asset@), bps, win),
        ),
        by_triangle: state.by_triangle.insert(
            name,
            with_triangle_trade(
                triangle_stats_of(state.by_triangle, name),
                signal.start_asset@,
                bps,
                win,
            ),
        ),
    }
}

/// What no trades with an asset come to.
pub open spec fn no_asset_stats() -> AssetStats {
    AssetStats {
        trades: 0,
        wins: 0,
        losses_or_flat: 0,
        max_adjusted_bps: FloatKey { key: 0 },
        min_adjusted_bps: FloatKey { key: crate::float_key::INFINITY },
    }
}

/// What the trades with an asset have come to so far.
pub open spec fn asset_stats_of(by_asset: Map<Seq<char>, AssetStats>, asset: Seq<char>) -> AssetStats {
    if by_asset.dom().contains(asset) {
        by_asset[asset]
    } else {
        no_asset_stats()
    }
}

/// What one more trade with an asset comes to.
pub open spec fn with_asset_trade(stats: AssetStats, bps: FloatKey, win: bool) -> AssetStats {
    AssetStats {
        trades: bumped(stats.trades),
        wins: bumped_if(stats.wins, win),
        losses_or_flat: bumped_if(stats.losses_or_flat, !win),
        max_adjusted_bps: stats.max_adjusted_bps.larger(bps),
        min_adjusted_bps: stats.min_adjusted_bps.smaller(bps),
    }
}

/// What no trades on a triangle come to.
pub open spec fn no_triangle_stats() -> TriangleStatsView {
    TriangleStatsView {
        start_asset: Seq::empty(),
        trades: 0,
        wins: 0,
        max_adjusted_bps: FloatKey { key: 0 },
    }
}

/// What the trades on a triangle have come to so far.
pub open spec fn triangle_stats_of(
    by_triangle: Map<Seq<char>, TriangleStatsView>,
    name: Seq<char>,
) -> TriangleStatsView {
    if by_triangle.dom().contains(name) {
        by_triangle[name]
    } else {
        no_triangle_stats()
    }
}

/// What one more trade on a triangle comes to. As long as no start asset is
/// known, the maximum starts anew.
pub open spec fn with_triangle_trade(
    stats: TriangleStatsView,
    start_asset: Seq<char>,
    bps: FloatKey,
    win: bool,
) -> TriangleStatsView {
    let first = stats.start_asset.len() == 0;
    let max = if first {
        FloatKey { key: crate::float_key::NEG_INFINITY }
    } else {
        stats.max_adjusted_bps
    };
    TriangleStatsView {
        start_asset: if first {
            start_asset
        } else {
            stats.start_asset
        },
        trades: bumped(stats.trades),
        wins: bumped_if(stats.wins, win),
        max_adjusted_bps: max.larger(bps),
    }
}

/// A simulation, signal by signal.
#[derive(Debug)]
pub struct Simulation {
    counts: SummaryStats,
    last_trade: TextMap<u64>,
    active: TextMap<bool>,
    balances: TextMap<FloatKey>,
    by_asset: TextMap<AssetStats>,
    by_triangle: TextMap<TriangleStats>,
}

spec fn triangle_views(by_triangle: Map<Seq<char>, TriangleStats>) -> Map<Seq<char>, TriangleStatsView> {
    by_triangle.map_values(|s: TriangleStats| s@)
}

impl View for Simulation {
    type V = SimView;

    closed spec fn view(&self) -> SimView {
        SimView {
            counts: self.counts,
            last_trade: self.last_trade@,
            active: self.active@,
            balances: self.balances@,
            by_asset: self.by_asset@,
            by_triangle: triangle_views(self.by_triangle@),
        }
    }
}

/// The counts before the first line.
pub open spec fn no_counts() -> SummaryStats {
    SummaryStats {
        total_lines: 0,
        parsed_lines: 0,
        executable_signals: 0,
        worthy_signals: 0,
        executed_trades: 0,
        skipped_not_executable: 0,
        skipped_not_worthy: 0,
        skipped_profit_threshold: 0,
        skipped_cooldown: 0,
        skipped_no_balance: 0,
        wins: 0,
        losses_or_flat: 0,
    }
}

impl Simulation {
    #[verifier::type_invariant]
    spec fn well_formed(self) -> bool {
        counts_fit(self@)
    }

    /// A simulation before the first line.
    pub fn new(config: &SimConfig) -> (r: Simulation)
        ensures
            r@.counts == no_counts(),
            r@.last_trade == Map::<Seq<char>, u64>::empty(),
            r@.active == Map::<Seq<char>, bool>::empty(),
            r@.balances == config@.initial_balances,
            r@.by_asset == Map::<Seq<char>, AssetStats>::empty(),
            r@.by_triangle == Map::<Seq<char>, TriangleStatsView>::empty(),
    {
        Simulation::with_balances(config.initial_balances.clone())
    }

    fn with_balances(balances: TextMap<FloatKey>) -> (r: Simulation)
        ensures
            r@.counts == no_counts(),
            r@.last_trade == Map::<Seq<char>, u64>::empty(),
            r@.active == Map::<Seq<char>, bool>::empty(),
            r@.balances == balances@,
            r@.by_asset == Map::<Seq<char>, AssetStats>::empty(),
            r@.by_triangle == Map::<Seq<char>, TriangleStatsView>::empty(),
    {
        let by_triangle: TextMap<TriangleStats> = TextMap::new();
        proof {
            assert(triangle_views(by_triangle@) =~= Map::<Seq<char>, TriangleStatsView>::empty());
        }
        Simulation {
            counts: SummaryStats {
                total_lines: 0,
                parsed_lines: 0,
                executable_signals: 0,
                worthy_signals: 0,
                executed_trades: 0,
                skipped_not_executable: 0,
                skipped_not_worthy: 0,
                skipped_profit_threshold: 0,
                skipped_cooldown: 0,
                skipped_no_balance: 0,
                wins: 0,
                losses_or_flat: 0,
            },
            last_trade: TextMap::new(),
            active: TextMap::new(),
            balances,
            by_asset: TextMap::new(),
            by_triangle,
        }
    }

    /// The counts so far.
    pub fn counts(&self) -> (r: SummaryStats)
        ensures
            r == self@.counts,
            counts_fit(self@),
    {
        proof {
            use_type_invariant(self);
        }
        self.counts
    }

    /// Notes whether the last signal of a triangle was good.
    fn set_active(&mut self, name: String, active: bool)
        ensures
            final(self)@ == (SimView {
                active: old(self)@.active.insert(name@, active),
                ..old(self)@
            }),
    {
        proof {
            use_type_invariant(&*self);
        }
        let mut states: TextMap<bool> = TextMap::new();
        std::mem::swap(&mut states, &mut self.active);
        states.insert(name, active);
        self.active = states;
    }

    /// Counts a line, which may hold a signal.
    pub fn count_line(&mut self, holds_signal: bool)
        requires
            old(self)@.counts.total_lines < usize::MAX,
        ensures
            final(self)@ == (SimView {
                counts: SummaryStats {
                    total_lines: bumped(old(self)@.counts.total_lines),
                    parsed_lines: bumped_if(old(self)@.counts.parsed_lines, holds_signal),
                    ..old(self)@.counts
                },
                ..old(self)@
            }),
    {
        proof {
            use_type_invariant(&*self);
        }
        self.counts.total_lines = self.counts.total_lines + 1;
        if holds_signal {
            self.counts.parsed_lines = self.counts.parsed_lines + 1;
        }
    }

    /// Whether enough time has passed since the last trade on a triangle.
    fn is_cooled_down(&self, config: &SimConfig, name: &str, now: u64) -> (r: bool)
        ensures
            r == cooled_down(self@, config@, name@, now),
    {
        match self.last_trade.get(name) {
            Some(then) => now.saturating_sub(*then) >= config.retrigger_cooldown_ms,
            None => true,
        }
    }

    /// Considers a signal.
    pub fn consider(&mut self, config: &SimConfig, signal: &SimSignal) -> (r: Verdict)
        requires
            decided(old(self)@.counts) < old(self)@.counts.parsed_lines,
            old(self)@.counts.executable_signals < old(self)@.counts.parsed_lines,
            old(self)@.counts.worthy_signals < old(self)@.counts.parsed_lines,
        ensures
            r == verdict_on(old(self)@, config@, *signal),
            final(self)@ == after_considering(old(self)@, config@, *signal),
            r == Verdict::Ready ==> decided(final(self)@.counts) < final(self)@.counts.parsed_lines,
    {
        proof {
            use_type_invariant(&*self);
        }
        if signal.execution_filter_passed {
            self.counts.executable_signals = self.counts.executable_signals + 1;
        }
        if signal.worthy {
            self.counts.worthy_signals = self.counts.worthy_signals + 1;
        }
        let name: String = name_of_triangle(&signal.triangle_pairs);
        if !signal.execution_filter_passed {
            self.counts.skipped_not_executable = self.counts.skipped_not_executable + 1;
            self.set_active(name, false);
            return Verdict::NotExecutable;
        }
        if !config.include_unworthy && !signal.worthy {
            self.counts.skipped_not_worthy = self.counts.skipped_not_worthy + 1;
            self.set_active(name, false);
            return Verdict::NotWorthy;
        }
        if signal.adjusted_profit_bps.below(config.min_adjusted_profit_bps) {
            self.counts.skipped_profit_threshold = self.counts.skipped_profit_threshold + 1;
            self.set_active(name, false);
            return Verdict::BelowThreshold;
        }
        if !self.is_cooled_down(config, name.as_str(), signal.timestamp_ms) {
            self.counts.skipped_cooldown = self.counts.skipped_cooldown + 1;
            self.set_active(name, true);
            return Verdict::CoolingDown;
        }
        Verdict::Ready
    }

    /// Seeds the asset that a signal starts with, where it has no balance and
    /// that is asked for, and gives its balance.
    pub fn fund(&mut self, config: &SimConfig, signal: &SimSignal, seed: FloatKey) -> (r: FloatKey)
        ensures
            final(self)@ == (SimView {
                balances: seeded(
                    old(self)@.balances,
                    asset_key(signal.start_asset@),
                    seed,
                    config.auto_seed_assets,
                ),
                ..old(self)@
            }),
            r == balance_of(final(self)@.balances, asset_key(signal.start_asset@)),
    {
        proof {
            use_type_invariant(&*self);
        }
        let asset: String = normalize_asset_key(signal.start_asset.as_str());
        match self.balances.get(asset.as_str()) {
            Some(balance) => {
                return *balance;
            },
            None => {},
        }
        if config.auto_seed_assets {
            let mut balances: TextMap<FloatKey> = TextMap::new();
            std::mem::swap(&mut balances, &mut self.balances);
            balances.insert(asset, seed);
            self.balances = balances;
            seed
        } else {
            FloatKey::zero()
        }
    }

    /// The size of the position that is taken on a signal; `None` where none can
    /// be taken.
    pub fn size(
        &mut self,
        signal: &SimSignal,
        share: FloatKey,
        cap: FloatKey,
        available: FloatKey,
    ) -> (r: Option<FloatKey>)
        requires
            decided(old(self)@.counts) < old(self)@.counts.parsed_lines,
        ensures
            match r {
                Some(size) => {
                    &&& size == position_for(share, cap, available)
                    &&& is_position(size)
                    &&& final(self)@ == old(self)@
                },
                None => {
                    &&& !is_position(position_for(share, cap, available))
                    &&& final(self)@ == (SimView {
                        counts: SummaryStats {
                            skipped_no_balance: bumped(old(self)@.counts.skipped_no_balance),
                            ..old(self)@.counts
                        },
                        active: old(self)@.active.insert(
                            crate::analyzer::triangle_name(signal.triangle_pairs),
                            false,
                        ),
                        ..old(self)@
                    })
                },
            },
    {
        proof {
            use_type_invariant(&*self);
        }
        let position: FloatKey = share.min(cap).min(available);
        if position.at_most(FloatKey::zero()) || !position.is_finite() {
            self.counts.skipped_no_balance = self.counts.skipped_no_balance + 1;
            self.set_active(name_of_triangle(&signal.triangle_pairs), false);
            return None;
        }
        Some(position)
    }

    /// Takes in a trade that left a balance.
    pub fn settle(&mut self, signal: &SimSignal, new_balance: FloatKey)
        requires
            decided(old(self)@.counts) < old(self)@.counts.parsed_lines,
        ensures
            final(self)@ == after_trade(old(self)@, *signal, new_balance),
    {
        proof {
            use_type_invariant(&*self);
        }
        let ghost start = self@;
        let mut taken: Simulation = Simulation::with_balances(TextMap::new());
        std::mem::swap(self, &mut taken);
        let Simulation {
            mut counts,
            mut last_trade,
            mut active,
            mut balances,
            mut by_asset,
            mut by_triangle,
        } = taken;
        let bps: FloatKey = signal.adjusted_profit_bps;
        let is_win: bool = FloatKey::zero().below(bps);
        let name: String = name_of_triangle(&signal.triangle_pairs);
        let ghost key = name@;
        let asset: String = normalize_asset_key(signal.start_asset.as_str());
        if balances.contains_key(asset.as_str()) {
            balances.insert(asset, new_balance);
        }
        let mut asset_stats: AssetStats = match by_asset.get(signal.start_asset.as_str()) {
            Some(stats) => {
                proof {
                    assert(start.by_asset.dom().contains(signal.start_asset@));
                }
                *stats
            },
            None => AssetStats {
                trades: 0,
                wins: 0,
                losses_or_flat: 0,
                max_adjusted_bps: FloatKey::zero(),
                min_adjusted_bps: FloatKey::infinity(),
            },
        };
        let mut triangle_stats: TriangleStats = match by_triangle.remove(name.as_str()) {
            Some(stats) => {
                proof {
                    assert(start.by_triangle.dom().contains(key));
                    assert(start.by_triangle[key] == stats@);
                }
                stats
            },
            None => {
                proof {
                    assert(!start.by_triangle.dom().contains(key));
                }
                TriangleStats {
                    start_asset: String::new(),
                    trades: 0,
                    wins: 0,
                    max_adjusted_bps: FloatKey::zero(),
                }
            },
        };
        proof {
            assert(triangle_stats@.start_asset =~= triangle_stats_of(
                start.by_triangle,
                key,
            ).start_asset);
        }
        counts.executed_trades = counts.executed_trades + 1;
        asset_stats.trades = asset_stats.trades + 1;
        asset_stats.max_adjusted_bps = asset_stats.max_adjusted_bps.max(bps);
        asset_stats.min_adjusted_bps = asset_stats.min_adjusted_bps.min(bps);
        if triangle_stats.start_asset.as_str().is_empty() {
            triangle_stats.start_asset = signal.start_asset.clone();
            triangle_stats.max_adjusted_bps = FloatKey::neg_infinity();
        }
        triangle_stats.trades = triangle_stats.trades + 1;
        triangle_stats.max_adjusted_bps = triangle_stats.max_adjusted_bps.max(bps);
        if is_win {
            counts.wins = counts.wins + 1;
            asset_stats.wins = asset_stats.wins + 1;
            triangle_stats.wins = triangle_stats.wins + 1;
        } else {
            counts.losses_or_flat = counts.losses_or_flat + 1;
            asset_stats.losses_or_flat = asset_stats.losses_or_flat + 1;
        }
        let ghost view = triangle_stats@;
        by_asset.insert(signal.start_asset.clone(), asset_stats);
        by_triangle.insert(name.clone(), triangle_stats);
        last_trade.insert(name.clone(), signal.timestamp_ms);
        active.insert(name, true);
        proof {
            let assets = by_asset@;
            let triangles = triangle_views(by_triangle@);
            assert(triangles =~= start.by_triangle.insert(key, view));
            assert forall|other: Seq<char>| #[trigger] assets.dom().contains(other) implies assets[other].wins
                + assets[other].losses_or_flat == assets[other].trades && assets[other].trades
                <= counts.executed_trades by {
                if other != signal.start_asset@ {
                    assert(start.by_asset.dom().contains(other));
                }
            }
            assert forall|other: Seq<char>| #[trigger]
                triangles.dom().contains(other) implies triangles[other].wins <= triangles[other].trades
                <= counts.executed_trades by {
                if other != key {
                    assert(start.by_triangle.dom().contains(other));
                }
            }
        }
        *self = Simulation { counts, last_trade, active, balances, by_asset, by_triangle };
    }

    /// What the trades with an asset come to.
    pub fn asset_stats(&self, asset: &str) -> (r: Option<AssetStats>)
        ensures
            r is Some <==> self@.by_asset.dom().contains(asset@),
            r matches Some(stats) ==> stats == self@.by_asset[asset@],
    {
        match self.by_asset.get(asset) {
            Some(stats) => Some(*stats),
            None => None,
        }
    }

    /// What the trades on a triangle come to.
    pub fn triangle_stats(&self, name: &str) -> (r: Option<&TriangleStats>)
        ensures
            r is Some <==> self@.by_triangle.dom().contains(name@),
            r matches Some(stats) ==> stats@ == self@.by_triangle[name@],
    {
        self.by_triangle.get(name)
    }

    /// Whether the last signal of a triangle was good.
    pub fn is_active(&self, name: &str) -> (r: bool)
        ensures
            r == (self@.active.dom().contains(name@) && self@.active[name@]),
    {
        match self.active.get(name) {
            Some(active) => *active,
            None => false,
        }
    }

    /// All balances, in the order of the assets.
    pub fn balance_rows(&self) -> (r: Vec<(String, FloatKey)>)
        ensures
            crate::names::strictly_sorted(r@.map_values(|row: (String, FloatKey)| row.0@)),
            forall|asset: Seq<char>| #[trigger]
                self@.balances.dom().contains(asset) <==> exists|i: int|
                    0 <= i < r@.len() && (#[trigger] r@[i]).0@ == asset,
            forall|i: int|
                0 <= i < r@.len() ==> self@.balances[(#[trigger] r@[i]).0@] == r@[i].1,
    {
        let count: usize = self.balances.len();
        let ghost order = self.balances.order();
        let mut names: Vec<String> = Vec::new();
        proof {
            assert(crate::text::texts(names@) =~= crate::names::sorted_names(order.take(0)));
        }
        let mut i: usize = 0;
        while i < count
            invariant
                i <= count,
                count == order.len(),
                order == self.balances.order(),
                crate::text::texts(names@) == crate::names::sorted_names(order.take(i as int)),
            decreases count - i,
        {
            proof {
                assert(order.take(i + 1).drop_last() =~= order.take(i as int));
            }
            add_name(&mut names, self.balances.key_at(i));
            i = i + 1;
        }
        proof {
            assert(order.take(i as int) =~= order);
            crate::names::law_sorted_names(order);
        }
        let ghost sorted = crate::text::texts(names@);
        let mut rows: Vec<(String, FloatKey)> = Vec::new();
        let mut j: usize = 0;
        while j < names.len()
            invariant
                j <= names@.len(),
                rows@.len() == j,
                sorted == crate::text::texts(names@),
                order.to_set() == self.balances@.dom(),
                forall|x: Seq<char>| #[trigger] sorted.contains(x) <==> order.contains(x),
                forall|k: int|
                    0 <= k < j ==> (#[trigger] rows@[k]).0@ == sorted[k]
                        && self.balances@[rows@[k].0@] == rows@[k].1,
            decreases names@.len() - j,
        {
            let name: String = names[j].clone();
            proof {
                assert(sorted[j as int] == name@);
                assert(sorted.contains(name@));
                assert(order.to_set().contains(name@));
            }
            let amount: FloatKey = match self.balances.get(name.as_str()) {
                Some(amount) => *amount,
                None => FloatKey::zero(),
            };
            rows.push((name, amount));
            j = j + 1;
        }
        proof {
            assert(rows@.map_values(|row: (String, FloatKey)| row.0@) =~= sorted);
            assert forall|asset: Seq<char>| #[trigger]
                self@.balances.dom().contains(asset) implies exists|i: int|
                0 <= i < rows@.len() && (#[trigger] rows@[i]).0@ == asset by {
                assert(order.to_set().contains(asset));
                assert(sorted.contains(asset));
                let k = choose|k: int| 0 <= k < sorted.len() && sorted[k] == asset;
                assert(rows@[k].0@ == asset);
            }
            assert forall|asset: Seq<char>| (exists|i: int|
                0 <= i < rows@.len() && (#[trigger] rows@[i]).0@ == asset) implies #[trigger]
            self@.balances.dom().contains(asset) by {
                let k = choose|k: int| 0 <= k < rows@.len() && (#[trigger] rows@[k]).0@ == asset;
                assert(sorted[k] == asset);
                assert(sorted.contains(asset));
                assert(order.to_set().contains(asset));
            }
        }
        rows
    }
}

/// A position is neither above the cap nor above the balance, where these are
/// numbers.
pub proof fn law_position_is_covered(share: FloatKey, cap: FloatKey, available: FloatKey)
    requires
        !cap.nan(),
        !available.nan(),
    ensures
        position_for(share, cap, available).le(cap),
        position_for(share, cap, available).le(available),
{
}

/// No signal is ready before the time to cool down has passed since the last
/// trade on its triangle.
pub proof fn law_trades_keep_their_distance(state: SimView, config: SimConfigView, signal: SimSignal)
    requires
        state.last_trade.dom().contains(crate::analyzer::triangle_name(signal.triangle_pairs)),
        verdict_on(state, config, signal) == Verdict::Ready,
    ensures
        config.retrigger_cooldown_ms > 0 ==> signal.timestamp_ms
            - state.last_trade[crate::analyzer::triangle_name(signal.triangle_pairs)]
            >= config.retrigger_cooldown_ms,
{
}

/// The time of the last trade on a triangle is that of the last trade on it:
/// only a trade sets it, and only for its own triangle.
pub proof fn law_only_trades_set_the_time(
    state: SimView,
    config: SimConfigView,
    signal: SimSignal,
    new_balance: FloatKey,
    other: Seq<char>,
)
    requires
        other != crate::analyzer::triangle_name(signal.triangle_pairs),
    ensures
        after_considering(state, config, signal).last_trade == state.last_trade,
        ({
            let name = crate::analyzer::triangle_name(signal.triangle_pairs);
            let after = after_trade(state, signal, new_balance).last_trade;
            &&& after.dom().contains(name) && after[name] == signal.timestamp_ms
            &&& after.dom().contains(other) == state.last_trade.dom().contains(other)
            &&& state.last_trade.dom().contains(other) ==> after[other] == state.last_trade[other]
        }),
{
}

/// Every signal is decided once: being skipped while it is considered or being
/// traded raises the number of decided signals by one, and being ready leaves it.
pub proof fn law_signals_are_decided_once(
    state: SimView,
    config: SimConfigView,
    signal: SimSignal,
    new_balance: FloatKey,
)
    requires
        counts_fit(state),
        decided(state.counts) < state.counts.parsed_lines,
    ensures
        decided(after_considering(state, config, signal).counts) == decided(state.counts)
            + if verdict_on(state, config, signal) == Verdict::Ready {
            0int
        } else {
            1int
        },
        decided(after_trade(state, signal, new_balance).counts) == decided(state.counts) + 1,
{
}

/// Only a trade changes a balance that is there; seeding only adds one.
pub proof fn law_seeding_keeps_balances(
    balances: Map<Seq<char>, FloatKey>,
    asset: Seq<char>,
    seed: FloatKey,
    auto_seed: bool,
    other: Seq<char>,
)
    requires
        balances.dom().contains(other),
    ensures
        seeded(balances, asset, seed, auto_seed).dom().contains(other),
        seeded(balances, asset, seed, auto_seed)[other] == balances[other],
{
}

/// What is made of a signal, by what it says. One that did not pass the
/// execution filter is not executable under every configuration. One that
/// passed is skipped where it is not worthy and that is asked for, else where
/// its adjusted profit is below the threshold, else where the time to cool
/// down has not passed since the last trade on its triangle; otherwise, and
/// only then, it is ready.
pub proof fn law_verdicts(state: SimView, config: SimConfigView, signal: SimSignal)
    ensures
        ({
            let name = signal.triangle_pairs@[0]@ + " -> "@ + signal.triangle_pairs@[1]@ + " -> "@
                + signal.triangle_pairs@[2]@;
            let verdict = verdict_on(state, config, signal);
            let passed = signal.execution_filter_passed;
            let worth_it = signal.worthy || config.include_unworthy;
            let below = signal.adjusted_profit_bps.lt(config.min_adjusted_profit_bps);
            let too_soon = state.last_trade.dom().contains(name) && config.retrigger_cooldown_ms > 0
                && signal.timestamp_ms < state.last_trade[name] + config.retrigger_cooldown_ms;
            &&& verdict == Verdict::NotExecutable <==> !passed
            &&& verdict == Verdict::NotWorthy <==> passed && !worth_it
            &&& verdict == Verdict::BelowThreshold <==> passed && worth_it && below
            &&& verdict == Verdict::CoolingDown <==> passed && worth_it && !below && too_soon
            &&& verdict == Verdict::Ready <==> passed && worth_it && !below && !too_soon
        }),
{
}

/// A signal that is ready passed the execution filter, is worthy unless
/// unworthy ones are asked for, and its adjusted profit is not below the
/// threshold.
pub proof fn law_ready_signals(state: SimView, config: SimConfigView, signal: SimSignal)
    requires
        verdict_on(state, config, signal) == Verdict::Ready,
    ensures
        signal.execution_filter_passed,
        config.include_unworthy || signal.worthy,
        !signal.adjusted_profit_bps.nan() && !config.min_adjusted_profit_bps.nan()
            ==> config.min_adjusted_profit_bps.le(signal.adjusted_profit_bps),
{
}

/// A signal that did not pass the execution filter is not executable,
/// whatever the configuration and wherever the simulation stands.
pub proof fn law_unexecutable_signals(
    state: SimView,
    config: SimConfigView,
    other_state: SimView,
    other_config: SimConfigView,
    signal: SimSignal,
)
    requires
        !signal.execution_filter_passed,
    ensures
        verdict_on(state, config, signal) == Verdict::NotExecutable,
        verdict_on(other_state, other_config, signal) == Verdict::NotExecutable,
{
}

/// Considering a signal counts it as executable where it passed the execution
/// filter and as worthy where it is, and, where it is skipped, once under the
/// reason. A triangle is active while its signals are good, whether or not
/// they are traded. Trades, balances and what they come to stay.
pub proof fn law_considered_signals(state: SimView, config: SimConfigView, signal: SimSignal)
    requires
        counts_fit(state),
        decided(state.counts) < state.counts.parsed_lines,
        state.counts.executable_signals < state.counts.parsed_lines,
        state.counts.worthy_signals < state.counts.parsed_lines,
    ensures
        ({
            let name = signal.triangle_pairs@[0]@ + " -> "@ + signal.triangle_pairs@[1]@ + " -> "@
                + signal.triangle_pairs@[2]@;
            let verdict = verdict_on(state, config, signal);
            let after = after_considering(state, config, signal);
            let one = |holds: bool|
                if holds {
                    1int
                } else {
                    0int
                };
            &&& after.counts.total_lines == state.counts.total_lines
            &&& after.counts.parsed_lines == state.counts.parsed_lines
            &&& after.counts.executed_trades == state.counts.executed_trades
            &&& after.counts.wins == state.counts.wins
            &&& after.counts.losses_or_flat == state.counts.losses_or_flat
            &&& after.counts.skipped_no_balance == state.counts.skipped_no_balance
            &&& after.counts.executable_signals == state.counts.executable_signals + one(
                signal.execution_filter_passed,
            )
            &&& after.counts.worthy_signals == state.counts.worthy_signals + one(signal.worthy)
            &&& after.counts.skipped_not_executable == state.counts.skipped_not_executable + one(
                verdict == Verdict::NotExecutable,
            )
            &&& after.counts.skipped_not_worthy == state.counts.skipped_not_worthy + one(
                verdict == Verdict::NotWorthy,
            )
            &&& after.counts.skipped_profit_threshold == state.counts.skipped_profit_threshold + one(
                verdict == Verdict::BelowThreshold,
            )
            &&& after.counts.skipped_cooldown == state.counts.skipped_cooldown + one(
                verdict == Verdict::CoolingDown,
            )
            &&& verdict == Verdict::Ready ==> after.active == state.active
            &&& verdict == Verdict::CoolingDown ==> after.active == state.active.insert(name, true)
            &&& verdict != Verdict::Ready && verdict != Verdict::CoolingDown ==> after.active
                == state.active.insert(name, false)
            &&& after.last_trade == state.last_trade
            &&& after.balances == state.balances
            &&& after.by_asset == state.by_asset
            &&& after.by_triangle == state.by_triangle
        }),
{
}

/// What a trade does: it is counted once, as a win where its adjusted profit is
/// above zero and as a loss or flat otherwise; its triangle is active and was
/// last traded at its time; of the balances only that of its start asset
/// changes, and that only where there is one.
pub proof fn law_settled_trades(
    state: SimView,
    signal: SimSignal,
    new_balance: FloatKey,
    other: Seq<char>,
)
    requires
        counts_fit(state),
        decided(state.counts) < state.counts.parsed_lines,
        other != crate::text::lowered(crate::text::trimmed(signal.start_asset@)),
    ensures
        ({
            let name = signal.triangle_pairs@[0]@ + " -> "@ + signal.triangle_pairs@[1]@ + " -> "@
                + signal.triangle_pairs@[2]@;
            let asset = crate::text::lowered(crate::text::trimmed(signal.start_asset@));
            let win = !signal.adjusted_profit_bps.nan() && signal.adjusted_profit_bps.key > 0;
            let after = after_trade(state, signal, new_balance);
            &&& after.counts.executed_trades == state.counts.executed_trades + 1
            &&& win ==> after.counts.wins == state.counts.wins + 1 && after.counts.losses_or_flat
                == state.counts.losses_or_flat
            &&& !win ==> after.counts.losses_or_flat == state.counts.losses_or_flat + 1
                && after.counts.wins == state.counts.wins
            &&& after.counts.total_lines == state.counts.total_lines
            &&& after.counts.parsed_lines == state.counts.parsed_lines
            &&& after.counts.executable_signals == state.counts.executable_signals
            &&& after.counts.worthy_signals == state.counts.worthy_signals
            &&& after.counts.skipped_not_executable == state.counts.skipped_not_executable
            &&& after.counts.skipped_not_worthy == state.counts.skipped_not_worthy
            &&& after.counts.skipped_profit_threshold == state.counts.skipped_profit_threshold
            &&& after.counts.skipped_cooldown == state.counts.skipped_cooldown
            &&& after.counts.skipped_no_balance == state.counts.skipped_no_balance
            &&& after.last_trade == state.last_trade.insert(name, signal.timestamp_ms)
            &&& after.active == state.active.insert(name, true)
            &&& after.balances.dom() == state.balances.dom()
            &&& state.balances.dom().contains(asset) ==> after.balances[asset] == new_balance
            &&& state.balances.dom().contains(other) ==> after.balances[other]
                == state.balances[other]
        }),
{
    assert(after_trade(state, signal, new_balance).balances.dom() =~= state.balances.dom());
}

/// What a trade adds to the figures of its start asset and of its triangle: one
/// trade, a win where its adjusted profit is above zero, and its profit among
/// those whose largest and smallest are kept. The largest of an asset is never
/// below zero; that of a triangle starts with the first trade. Other assets and
/// triangles keep their figures.
pub proof fn law_trade_figures(
    state: SimView,
    signal: SimSignal,
    new_balance: FloatKey,
    other: Seq<char>,
)
    requires
        counts_fit(state),
        decided(state.counts) < state.counts.parsed_lines,
    ensures
        ({
            let name = signal.triangle_pairs@[0]@ + " -> "@ + signal.triangle_pairs@[1]@ + " -> "@
                + signal.triangle_pairs@[2]@;
            let asset = signal.start_asset@;
            let bps = signal.adjusted_profit_bps;
            let win: int = if !bps.nan() && bps.key > 0 {
                1
            } else {
                0
            };
            let after = after_trade(state, signal, new_balance);
            &&& after.by_asset.dom() == state.by_asset.dom().insert(asset)
            &&& after.by_triangle.dom() == state.by_triangle.dom().insert(name)
            &&& state.by_asset.dom().contains(asset) ==> {
                let was = state.by_asset[asset];
                let now = after.by_asset[asset];
                &&& now.trades == was.trades + 1
                &&& now.wins == was.wins + win
                &&& now.losses_or_flat == was.losses_or_flat + 1 - win
                &&& now.max_adjusted_bps == was.max_adjusted_bps.larger(bps)
                &&& now.min_adjusted_bps == was.min_adjusted_bps.smaller(bps)
            }
            &&& !state.by_asset.dom().contains(asset) ==> {
                let now = after.by_asset[asset];
                &&& now.trades == 1
                &&& now.wins == win
                &&& now.losses_or_flat == 1 - win
                &&& now.max_adjusted_bps == (FloatKey { key: 0 }).larger(bps)
                &&& !bps.nan() ==> now.min_adjusted_bps == bps
            }
            &&& state.by_triangle.dom().contains(name) && state.by_triangle[name].start_asset.len()
                > 0 ==> {
                let was = state.by_triangle[name];
                let now = after.by_triangle[name];
                &&& now.start_asset == was.start_asset
                &&& now.trades == was.trades + 1
                &&& now.wins == was.wins + win
                &&& now.max_adjusted_bps == was.max_adjusted_bps.larger(bps)
            }
            &&& !state.by_triangle.dom().contains(name) ==> {
                let now = after.by_triangle[name];
                &&& now.start_asset == asset
                &&& now.trades == 1
                &&& now.wins == win
                &&& !bps.nan() ==> now.max_adjusted_bps == bps
            }
            &&& other != asset && state.by_asset.dom().contains(other) ==> after.by_asset[other]
                == state.by_asset[other]
            &&& other != name && state.by_triangle.dom().contains(other)
                ==> after.by_triangle[other]
                == state.by_triangle[other]
        }),
{
    let after = after_trade(state, signal, new_balance);
    let name = crate::analyzer::triangle_name(signal.triangle_pairs);
    assert(after.by_asset.dom() =~= state.by_asset.dom().insert(signal.start_asset@));
    assert(after.by_triangle.dom() =~= state.by_triangle.dom().insert(name));
    if state.by_asset.dom().contains(signal.start_asset@) {
        assert(state.by_asset[signal.start_asset@].trades <= state.counts.executed_trades);
    }
    if state.by_triangle.dom().contains(name) {
        assert(state.by_triangle[name].trades <= state.counts.executed_trades);
    }
}

/// Where the share, the cap and the balance are numbers, the position is the
/// smallest of them. It can be taken where it is above zero and finite.
pub proof fn law_position_is_the_smallest(share: FloatKey, cap: FloatKey, available: FloatKey)
    requires
        !share.nan(),
        !cap.nan(),
        !available.nan(),
    ensures
        ({
            let size = position_for(share, cap, available);
            &&& size == share || size == cap || size == available
            &&& size.le(share) && size.le(cap) && size.le(available)
            &&& is_position(size) <==> 0 < size.key && size.key < 0x7FF0_0000_0000_0000
        }),
{
}

/// An asset without a balance is seeded where that is asked for, with the seed;
/// where it is not asked for, its balance is zero and none is made. No other
/// balance is made.
pub proof fn law_seeding(
    balances: Map<Seq<char>, FloatKey>,
    asset: Seq<char>,
    seed: FloatKey,
    auto_seed: bool,
)
    ensures
        auto_seed
            ==> seeded(balances, asset, seed, auto_seed).dom() == balances.dom().insert(asset),
        !auto_seed ==> seeded(balances, asset, seed, auto_seed) == balances,
        balances.dom().contains(asset) ==> balance_of(
            seeded(balances, asset, seed, auto_seed),
            asset,
        ) == balances[asset],
        !balances.dom().contains(asset) && auto_seed ==> balance_of(
            seeded(balances, asset, seed, auto_seed),
            asset,
        ) == seed,
        !balances.dom().contains(asset) && !auto_seed ==> balance_of(
            seeded(balances, asset, seed, auto_seed),
            asset,
        ).key == 0,
{
    if auto_seed {
        assert(seeded(balances, asset, seed, auto_seed).dom() =~= balances.dom().insert(asset));
    }
}

proof fn lemma_options()
    ensures
        "--include-unworthy"@ != "--no-auto-seed"@,
        "--include-unworthy"@ != "--cooldown-ms"@,
        "--include-unworthy"@ != "--min-adjusted-bps"@,
        "--include-unworthy"@ != "--position-size-pct"@,
        "--include-unworthy"@ != "--max-position-vs-signal"@,
        "--include-unworthy"@ != "--seed-multiplier"@,
        "--include-unworthy"@ != "--balance"@,
        "--no-auto-seed"@ != "--cooldown-ms"@,
        "--no-auto-seed"@ != "--min-adjusted-bps"@,
        "--no-auto-seed"@ != "--position-size-pct"@,
        "--no-auto-seed"@ != "--max-position-vs-signal"@,
        "--no-auto-seed"@ != "--seed-multiplier"@,
        "--no-auto-seed"@ != "--balance"@,
        "--cooldown-ms"@ != "--min-adjusted-bps"@,
        "--cooldown-ms"@ != "--position-size-pct"@,
        "--cooldown-ms"@ != "--max-position-vs-signal"@,
        "--cooldown-ms"@ != "--seed-multiplier"@,
        "--cooldown-ms"@ != "--balance"@,
        "--min-adjusted-bps"@ != "--position-size-pct"@,
        "--min-adjusted-bps"@ != "--max-position-vs-signal"@,
        "--min-adjusted-bps"@ != "--seed-multiplier"@,
        "--min-adjusted-bps"@ != "--balance"@,
        "--position-size-pct"@ != "--max-position-vs-signal"@,
        "--position-size-pct"@ != "--seed-multiplier"@,
        "--position-size-pct"@ != "--balance"@,
        "--max-position-vs-signal"@ != "--seed-multiplier"@,
        "--max-position-vs-signal"@ != "--balance"@,
        "--seed-multiplier"@ != "--balance"@,
        crate::cli::option_like("--include-unworthy"@),
        crate::cli::option_like("--no-auto-seed"@),
        crate::cli::option_like("--cooldown-ms"@),
        crate::cli::option_like("--min-adjusted-bps"@),
        crate::cli::option_like("--position-size-pct"@),
        crate::cli::option_like("--max-position-vs-signal"@),
        crate::cli::option_like("--seed-multiplier"@),
        crate::cli::option_like("--balance"@),
{
    reveal_strlit("--");
    reveal_strlit("--include-unworthy");
    reveal_strlit("--no-auto-seed");
    reveal_strlit("--cooldown-ms");
    reveal_strlit("--min-adjusted-bps");
    reveal_strlit("--position-size-pct");
    reveal_strlit("--max-position-vs-signal");
    reveal_strlit("--seed-multiplier");
    reveal_strlit("--balance");
    assert("--include-unworthy"@.len() != "--no-auto-seed"@.len());
    assert("--include-unworthy"@.len() != "--cooldown-ms"@.len());
    assert("--include-unworthy"@[2] != "--min-adjusted-bps"@[2]);
    assert("--include-unworthy"@.len() != "--position-size-pct"@.len());
    assert("--include-unworthy"@.len() != "--max-position-vs-signal"@.len());
    assert("--include-unworthy"@.len() != "--seed-multiplier"@.len());
    assert("--include-unworthy"@.len() != "--balance"@.len());
    assert("--no-auto-seed"@.len() != "--cooldown-ms"@.len());
    assert("--no-auto-seed"@.len() != "--min-adjusted-bps"@.len());
    assert("--no-auto-seed"@.len() != "--position-size-pct"@.len());
    assert("--no-auto-seed"@.len() != "--max-position-vs-signal"@.len());
    assert("--no-auto-seed"@.len() != "--seed-multiplier"@.len());
    assert("--no-auto-seed"@.len() != "--balance"@.len());
    assert("--cooldown-ms"@.len() != "--min-adjusted-bps"@.len());
    assert("--cooldown-ms"@.len() != "--position-size-pct"@.len());
    assert("--cooldown-ms"@.len() != "--max-position-vs-signal"@.len());
    assert("--cooldown-ms"@.len() != "--seed-multiplier"@.len());
    assert("--cooldown-ms"@.len() != "--balance"@.len());
    assert("--min-adjusted-bps"@.len() != "--position-size-pct"@.len());
    assert("--min-adjusted-bps"@.len() != "--max-position-vs-signal"@.len());
    assert("--min-adjusted-bps"@.len() != "--seed-multiplier"@.len());
    assert("--min-adjusted-bps"@.len() != "--balance"@.len());
    assert("--position-size-pct"@.len() != "--max-position-vs-signal"@.len());
    assert("--position-size-pct"@.len() != "--seed-multiplier"@.len());
    assert("--position-size-pct"@.len() != "--balance"@.len());
    assert("--max-position-vs-signal"@.len() != "--seed-multiplier"@.len());
    assert("--max-position-vs-signal"@.len() != "--balance"@.len());
    assert("--seed-multiplier"@.len() != "--balance"@.len());
}

/// How one argument counts: an option without a value makes its own choice and no
/// other, the first other text is the path, and a further one, or an option that
/// there is none of, is refused with its name.
pub proof fn law_arguments_count_one_by_one(
    arg: CliToken,
    rest: Seq<CliToken>,
    so_far: SimConfigView,
    path_set: bool,
)
    ensures
        arg.text@ == "--include-unworthy"@
            ==> args_read(seq![arg] + rest, so_far, path_set) == args_read(
            rest,
            SimConfigView { include_unworthy: true, ..so_far },
            path_set,
        ),
        arg.text@ == "--no-auto-seed"@
            ==> args_read(seq![arg] + rest, so_far, path_set) == args_read(
            rest,
            SimConfigView { auto_seed_assets: false, ..so_far },
            path_set,
        ),
        "--"@.is_prefix_of(arg.text@) && arg.text@ != "--include-unworthy"@
            && arg.text@ != "--no-auto-seed"@
            && arg.text@ != "--cooldown-ms"@
            && arg.text@ != "--min-adjusted-bps"@
            && arg.text@ != "--position-size-pct"@
            && arg.text@ != "--max-position-vs-signal"@
            && arg.text@ != "--seed-multiplier"@
            && arg.text@ != "--balance"@ ==> args_read(
            seq![arg] + rest,
            so_far,
            path_set,
        ) == Err::<SimConfigView, Seq<char>>("unknown option "@ + arg.text@),
        !"--"@.is_prefix_of(arg.text@) && path_set ==> args_read(seq![arg] + rest, so_far, path_set)
            == Err::<SimConfigView, Seq<char>>("unexpected positional argument "@ + arg.text@),
        !"--"@.is_prefix_of(arg.text@) && !path_set
            ==> args_read(seq![arg] + rest, so_far, path_set)
            == args_read(rest, SimConfigView { path: arg.text@, ..so_far }, true),
{
    lemma_options();
    let args = seq![arg] + rest;
    assert(args[0] == arg);
    assert(args.drop_first() =~= rest);
}

/// How an option with a value counts: the text behind it sets its own choice and no
/// other; without one, or with one that cannot be used, it is refused.
pub proof fn law_options_take_the_next_argument(
    arg: CliToken,
    value: CliToken,
    rest: Seq<CliToken>,
    so_far: SimConfigView,
    path_set: bool,
)
    ensures
        arg.text@ == "--cooldown-ms"@
            && crate::text::whole_number(value.text@, u64::MAX as nat) is None
            ==> args_read(seq![arg, value] + rest, so_far, path_set)
            == Err::<SimConfigView, Seq<char>>("invalid integer for --cooldown-ms"@),
        arg.text@ == "--cooldown-ms"@
            && crate::text::whole_number(value.text@, u64::MAX as nat) is Some
            ==> args_read(seq![arg, value] + rest, so_far, path_set) == args_read(
            rest,
            SimConfigView {
                retrigger_cooldown_ms: crate::text::whole_number(value.text@, u64::MAX as nat)->0 as u64,
                ..so_far
            },
            path_set,
        ),
        arg.text@ == "--min-adjusted-bps"@ && value.number is None
            ==> args_read(seq![arg, value] + rest, so_far, path_set)
            == Err::<SimConfigView, Seq<char>>("invalid number for "@ + "--min-adjusted-bps"@),
        arg.text@ == "--min-adjusted-bps"@ && value.number is Some
            ==> args_read(seq![arg, value] + rest, so_far, path_set) == args_read(
            rest,
            SimConfigView { min_adjusted_profit_bps: value.number->0, ..so_far },
            path_set,
        ),
        arg.text@ == "--position-size-pct"@ && value.number is None
            ==> args_read(seq![arg, value] + rest, so_far, path_set)
            == Err::<SimConfigView, Seq<char>>("invalid number for "@ + "--position-size-pct"@),
        arg.text@ == "--position-size-pct"@ && value.number is Some
            ==> args_read(seq![arg, value] + rest, so_far, path_set) == args_read(
            rest,
            SimConfigView { position_size_pct: value.number->0, ..so_far },
            path_set,
        ),
        arg.text@ == "--max-position-vs-signal"@ && value.number is None
            ==> args_read(seq![arg, value] + rest, so_far, path_set)
            == Err::<SimConfigView, Seq<char>>("invalid number for "@ + "--max-position-vs-signal"@),
        arg.text@ == "--max-position-vs-signal"@ && value.number is Some
            ==> args_read(seq![arg, value] + rest, so_far, path_set) == args_read(
            rest,
            SimConfigView { max_position_vs_signal: value.number->0, ..so_far },
            path_set,
        ),
        arg.text@ == "--seed-multiplier"@ && value.number is None
            ==> args_read(seq![arg, value] + rest, so_far, path_set)
            == Err::<SimConfigView, Seq<char>>("invalid number for "@ + "--seed-multiplier"@),
        arg.text@ == "--seed-multiplier"@ && value.number is Some
            ==> args_read(seq![arg, value] + rest, so_far, path_set) == args_read(
            rest,
            SimConfigView { seed_multiplier: value.number->0, ..so_far },
            path_set,
        ),
        arg.text@ == "--balance"@ && balance_read(value) is Ok ==> args_read(
            seq![arg, value] + rest,
            so_far,
            path_set,
        ) == args_read(
            rest,
            SimConfigView {
                initial_balances: so_far.initial_balances.insert(
                    balance_read(value)->Ok_0.0,
                    balance_read(value)->Ok_0.1,
                ),
                ..so_far
            },
            path_set,
        ),
        arg.text@ == "--balance"@ && balance_read(value) is Err ==> args_read(
            seq![arg, value] + rest,
            so_far,
            path_set,
        ) == Err::<SimConfigView, Seq<char>>(balance_read(value)->Err_0),
        arg.text@ == "--cooldown-ms"@
            ==> args_read(seq![arg], so_far, path_set)
            == Err::<SimConfigView, Seq<char>>("missing value for --cooldown-ms"@),
        arg.text@ == "--min-adjusted-bps"@
            ==> args_read(seq![arg], so_far, path_set)
            == Err::<SimConfigView, Seq<char>>("missing value for "@ + "--min-adjusted-bps"@),
        arg.text@ == "--position-size-pct"@
            ==> args_read(seq![arg], so_far, path_set)
            == Err::<SimConfigView, Seq<char>>("missing value for "@ + "--position-size-pct"@),
        arg.text@ == "--max-position-vs-signal"@
            ==> args_read(seq![arg], so_far, path_set)
            == Err::<SimConfigView, Seq<char>>("missing value for "@ + "--max-position-vs-signal"@),
        arg.text@ == "--seed-multiplier"@
            ==> args_read(seq![arg], so_far, path_set)
            == Err::<SimConfigView, Seq<char>>("missing value for "@ + "--seed-multiplier"@),
        arg.text@ == "--balance"@
            ==> args_read(seq![arg], so_far, path_set)
            == Err::<SimConfigView, Seq<char>>("missing value for --balance"@),
{
    lemma_options();
    let args = seq![arg, value] + rest;
    assert(args[0] == arg);
    assert(args[1] == value);
    assert(args.skip(2) =~= rest);
    assert(seq![arg][0] == arg);
}

/// What there is without arguments: the choices made so far, where they can be used,
/// which are these at first.
pub proof fn law_choices_without_arguments(so_far: SimConfigView, path_set: bool)
    ensures
        sound_sizes(so_far) <==> {
            &&& !so_far.position_size_pct.nan()
            &&& 0 < so_far.position_size_pct.key && so_far.position_size_pct.key
                <= 0x3FF0_0000_0000_0000
            &&& so_far.max_position_vs_signal.nan() || so_far.max_position_vs_signal.key > 0
            &&& so_far.seed_multiplier.nan() || so_far.seed_multiplier.key > 0
        },
        sound_sizes(so_far)
            ==> args_read(Seq::empty(), so_far, path_set) == Ok::<SimConfigView, Seq<char>>(so_far),
        !sound_sizes(so_far) ==> args_read(Seq::empty(), so_far, path_set) is Err,
        default_config().path == "data/triangle_signals.jsonl"@,
        default_config().retrigger_cooldown_ms == 1_500,
        default_config().min_adjusted_profit_bps.key == 0,
        default_config().include_unworthy == false,
        default_config().position_size_pct.key == 0x3FF0_0000_0000_0000,
        default_config().max_position_vs_signal.key == 0x3FF0_0000_0000_0000,
        default_config().auto_seed_assets == true,
        default_config().seed_multiplier.key == 0x3FF0_0000_0000_0000,
        default_config().initial_balances.dom() == Set::<Seq<char>>::empty(),
{
    assert(default_config().initial_balances.dom() =~= Set::<Seq<char>>::empty());
}

/// The subcommand is run exactly where the first argument names it and the others
/// can be used, and then with what they come to.
pub proof fn law_subcommand_is_named_first(args: Seq<CliToken>, request: CliRequest<SimConfig>)
    requires
        requested(args, request),
    ensures
        request is Other <==> args.len() == 0 || args[0].text@ != "simulate"@,
        request matches CliRequest::Run(config) ==> args_read(args.skip(1), default_config(), false)
            == Ok::<SimConfigView, Seq<char>>(config@),
        request matches CliRequest::Refused(message) ==> args_read(
            args.skip(1),
            default_config(),
            false,
        ) == Err::<SimConfigView, Seq<char>>(message@),
{
    if args.len() > 0 {
        assert(args.skip(1) =~= args.drop_first());
        assert(crate::cli::token_texts(args)[0] == args[0].text@);
    }
}

/// What a balance argument sets: behind an asset, cleaned, and an equals sign, an
/// amount that is a number and not below zero; anything else is refused.
pub proof fn law_balance_arguments(arg: CliToken)
    ensures
        ({
            let asset = crate::text::lowered(
                crate::text::trimmed(crate::text::before(arg.text@, '=')),
            );
            let refused = |reason: Seq<char>| Err::<(Seq<char>, FloatKey), Seq<char>>(reason);
            &&& !arg.text@.contains('=') ==> balance_read(arg) == refused(
                "--balance expects asset=amount"@,
            )
            &&& arg.text@.contains('=') && asset.len() == 0 ==> balance_read(arg) == refused(
                "asset in --balance asset=amount cannot be empty"@,
            )
            &&& arg.text@.contains('=') && asset.len() > 0 && arg.amount is None
                ==> balance_read(arg)
                == refused("invalid number in --balance asset=amount"@)
            &&& arg.text@.contains('=') && asset.len() > 0 && arg.amount is Some && arg.amount->0.lt(
                FloatKey { key: 0 },
            ) ==> balance_read(arg) == refused("balance amount must be >= 0"@)
            &&& arg.text@.contains('=') && asset.len() > 0 && arg.amount is Some && !arg.amount->0.lt(
                FloatKey { key: 0 },
            ) ==> balance_read(arg) == Ok::<(Seq<char>, FloatKey), Seq<char>>(
                (asset, arg.amount->0),
            )
        }),
{
}

/// Counts go up one by one.
pub proof fn law_counts_go_up_by_one(count: usize, holds: bool)
    requires
        count < usize::MAX,
    ensures
        bumped(count) == count + 1,
        holds ==> bumped_if(count, holds) == count + 1,
        !holds ==> bumped_if(count, holds) == count,
{
}

/// A size can be taken exactly where it is a number above zero and not infinite.
/// Where the share, the cap or the balance is not a number, the others count.
pub proof fn law_positions_can_be_taken(
    size: FloatKey,
    share: FloatKey,
    cap: FloatKey,
    available: FloatKey,
)
    ensures
        is_position(size) <==> 0 < size.key && size.key < 0x7FF0_0000_0000_0000,
        share.nan() ==> position_for(share, cap, available) == cap.smaller(available),
        cap.nan() && !share.nan() ==> position_for(share, cap, available) == share.smaller(
            available,
        ),
        available.nan() && !(share.nan() && cap.nan()) ==> position_for(share, cap, available)
            == share.smaller(cap),
{
}

/// Why sizes cannot be used: the share of a position is not above zero and at most
/// one, or else the bound on it is at or below zero, or else the factor of a seed
/// is.
pub proof fn law_unsound_sizes_are_refused(so_far: SimConfigView, path_set: bool)
    ensures
        ({
            let share_is_sound = !so_far.position_size_pct.nan() && 0 < so_far.position_size_pct.key
                && so_far.position_size_pct.key <= 0x3FF0_0000_0000_0000;
            let bound_is_sound = so_far.max_position_vs_signal.nan()
                || so_far.max_position_vs_signal.key > 0;
            let factor_is_sound = so_far.seed_multiplier.nan() || so_far.seed_multiplier.key > 0;
            let outcome = args_read(Seq::empty(), so_far, path_set);
            let refused = |reason: Seq<char>| Err::<SimConfigView, Seq<char>>(reason);
            &&& !share_is_sound ==> outcome == refused(
                "--position-size-pct must be > 0 and <= 1"@,
            )
            &&& share_is_sound && !bound_is_sound ==> outcome == refused(
                "--max-position-vs-signal must be > 0"@,
            )
            &&& share_is_sound && bound_is_sound && !factor_is_sound ==> outcome == refused(
                "--seed-multiplier must be > 0"@,
            )
        }),
{
}

} // verus!
