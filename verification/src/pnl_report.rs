//! Reporting what logged signals would have earned.

use vstd::prelude::*;

use crate::cli::{
    CliRequest, CliToken, is_option, is_token_command, unexpected_argument_message,
    unknown_option_message,
};
use crate::float_key::FloatKey;
use crate::text::{double_quotes, number_text, read_usize, same_text};
use crate::text_map::TextMap;

verus! {

/// What the subcommand is asked to do.
#[derive(Debug, Clone)]
pub struct PnlReportConfig {
    pub path: String,
    pub top_n: usize,
    pub min_adjusted_bps: FloatKey,
    pub require_worthy: bool,
    pub require_execution_passed: bool,
    pub csv_output_path: Option<String>,
}

impl Default for PnlReportConfig {
    fn default() -> (r: PnlReportConfig)
        ensures
            r@ == default_config(),
    {
        PnlReportConfig {
            path: "data/triangle_signals.jsonl".to_owned(),
            top_n: 20,
            min_adjusted_bps: FloatKey::zero(),
            require_worthy: true,
            require_execution_passed: true,
            csv_output_path: None,
        }
    }
}

/// The texts and choices of [`PnlReportConfig`].
pub struct PnlReportConfigView {
    pub path: Seq<char>,
    pub top_n: usize,
    pub min_adjusted_bps: FloatKey,
    pub require_worthy: bool,
    pub require_execution_passed: bool,
    pub csv_output_path: Option<Seq<char>>,
}

impl View for PnlReportConfig {
    type V = PnlReportConfigView;

    open spec fn view(&self) -> PnlReportConfigView {
        PnlReportConfigView {
            path: self.path@,
            top_n: self.top_n,
            min_adjusted_bps: self.min_adjusted_bps,
            require_worthy: self.require_worthy,
            require_execution_passed: self.require_execution_passed,
            csv_output_path: match self.csv_output_path {
                Some(path) => Some(path@),
                None => None,
            },
        }
    }
}

pub open spec fn default_config() -> PnlReportConfigView {
    PnlReportConfigView {
        path: "data/triangle_signals.jsonl"@,
        top_n: 20,
        min_adjusted_bps: FloatKey { key: 0 },
        require_worthy: true,
        require_execution_passed: true,
        csv_output_path: None,
    }
}

/// What arguments come to, read one after the other on top of what was read
/// before them.
pub open spec fn args_read(
    args: Seq<CliToken>,
    so_far: PnlReportConfigView,
    path_set: bool,
) -> Result<PnlReportConfigView, Seq<char>>
    decreases args.len(),
{
    if args.len() == 0 {
        if so_far.top_n == 0 {
            Err("--top must be > 0"@)
        } else {
            Ok(so_far)
        }
    } else if args[0].text@ == "--top"@ {
        if args.len() == 1 {
            Err("missing value for --top"@)
        } else {
            match crate::text::whole_number(args[1].text@, usize::MAX as nat) {
                None => Err("invalid integer for --top"@),
                Some(n) => args_read(
                    args.skip(2),
                    PnlReportConfigView { top_n: n as usize, ..so_far },
                    path_set,
                ),
            }
        }
    } else if args[0].text@ == "--min-adjusted-bps"@ {
        if args.len() == 1 {
            Err("missing value for --min-adjusted-bps"@)
        } else {
            match args[1].number {
                None => Err("invalid number for --min-adjusted-bps"@),
                Some(min_adjusted_bps) => args_read(
                    args.skip(2),
                    PnlReportConfigView { min_adjusted_bps, ..so_far },
                    path_set,
                ),
            }
        }
    } else if args[0].text@ == "--include-unworthy"@ {
        args_read(
            args.drop_first(),
            PnlReportConfigView { require_worthy: false, ..so_far },
            path_set,
        )
    } else if args[0].text@ == "--include-nonexecutable"@ {
        args_read(
            args.drop_first(),
            PnlReportConfigView { require_execution_passed: false, ..so_far },
            path_set,
        )
    } else if args[0].text@ == "--csv"@ {
        if args.len() == 1 {
            Err("missing value for --csv"@)
        } else {
            args_read(
                args.skip(2),
                PnlReportConfigView { csv_output_path: Some(args[1].text@), ..so_far },
                path_set,
            )
        }
    } else if crate::cli::option_like(args[0].text@) {
        Err(crate::cli::unknown_option(args[0].text@))
    } else if path_set {
        Err(crate::cli::unexpected_argument(args[0].text@))
    } else {
        args_read(
            args.drop_first(),
            PnlReportConfigView { path: args[0].text@, ..so_far },
            true,
        )
    }
}

/// Reads the arguments of the subcommand.
pub fn parse_args(args: &Vec<CliToken>) -> (r: Result<PnlReportConfig, String>)
    ensures
        match r {
            Ok(config) => args_read(args@, default_config(), false) == Ok::<
                PnlReportConfigView,
                Seq<char>,
            >(config@),
            Err(message) => args_read(args@, default_config(), false) == Err::<
                PnlReportConfigView,
                Seq<char>,
            >(message@),
        },
{
    let ghost all = args@;
    let mut config: PnlReportConfig = PnlReportConfig::default();
    let mut path_set: bool = false;
    let mut i: usize = 0;
    proof {
        assert(all.skip(0) =~= all);
    }
    while i < args.len()
        invariant
            i <= args@.len(),
            all == args@,
            args_read(all, default_config(), false) == args_read(all.skip(i as int), config@, path_set),
        decreases args@.len() - i,
    {
        let arg: &str = args[i].text.as_str();
        let ghost rest = all.skip(i as int);
        proof {
            assert(rest[0] == args@[i as int]);
            assert(rest.drop_first() =~= all.skip(i + 1));
            if i + 1 < args@.len() {
                assert(rest[1] == args@[i + 1]);
                assert(rest.skip(2) =~= all.skip(i + 2));
            }
        }
        if same_text(arg, "--top") {
            i = i + 1;
            if i == args.len() {
                return Err("missing value for --top".to_owned());
            }
            match read_usize(args[i].text.as_str()) {
                Some(n) => {
                    config.top_n = n;
                },
                None => {
                    return Err("invalid integer for --top".to_owned());
                },
            }
        } else if same_text(arg, "--min-adjusted-bps") {
            i = i + 1;
            if i == args.len() {
                return Err("missing value for --min-adjusted-bps".to_owned());
            }
            match args[i].number {
                Some(number) => {
                    config.min_adjusted_bps = number;
                },
                None => {
                    return Err("invalid number for --min-adjusted-bps".to_owned());
                },
            }
        } else if same_text(arg, "--include-unworthy") {
            config.require_worthy = false;
        } else if same_text(arg, "--include-nonexecutable") {
            config.require_execution_passed = false;
        } else if same_text(arg, "--csv") {
            i = i + 1;
            if i == args.len() {
                return Err("missing value for --csv".to_owned());
            }
            config.csv_output_path = Some(args[i].text.clone());
        } else if is_option(arg) {
            return Err(unknown_option_message(arg));
        } else if path_set {
            return Err(unexpected_argument_message(arg));
        } else {
            config.path = arg.to_owned();
            path_set = true;
        }
        i = i + 1;
    }
    if config.top_n == 0 {
        return Err("--top must be > 0".to_owned());
    }
    Ok(config)
}

/// Whether a request is the one that the arguments of the program make.
pub open spec fn requested(args: Seq<CliToken>, request: CliRequest<PnlReportConfig>) -> bool {
    let named = crate::cli::names_command(crate::cli::token_texts(args), "pnl-report"@);
    let outcome = args_read(args.drop_first(), default_config(), false);
    match request {
        CliRequest::Other => !named,
        CliRequest::Refused(message) => named && outcome == Err::<PnlReportConfigView, Seq<char>>(
            message@,
        ),
        CliRequest::Run(config) => named && outcome == Ok::<PnlReportConfigView, Seq<char>>(config@),
    }
}

/// What the arguments of the program ask of this subcommand.
pub fn request_from_cli_args(args: Vec<CliToken>) -> (r: CliRequest<PnlReportConfig>)
    ensures
        requested(args@, r),
{
    if !is_token_command(&args, "pnl-report") {
        return CliRequest::Other;
    }
    let mut rest: Vec<CliToken> = args;
    let ghost all = rest@;
    let _ = rest.remove(0);
    proof {
        assert(rest@ =~= all.drop_first());
    }
    match parse_args(&rest) {
        Ok(config) => CliRequest::Run(config),
        Err(message) => CliRequest::Refused(message),
    }
}

/// Whether a signal is taken into the report.
pub open spec fn wanted(
    config: PnlReportConfigView,
    execution_filter_passed: bool,
    worthy: bool,
    adjusted_bps: FloatKey,
) -> bool {
    &&& config.require_execution_passed ==> execution_filter_passed
    &&& config.require_worthy ==> worthy
    &&& !adjusted_bps.lt(config.min_adjusted_bps)
}

/// Whether a signal is taken into the report.
pub fn is_wanted(
    config: &PnlReportConfig,
    execution_filter_passed: bool,
    worthy: bool,
    adjusted_bps: FloatKey,
) -> (r: bool)
    ensures
        r == wanted(config@, execution_filter_passed, worthy, adjusted_bps),
{
    if config.require_execution_passed && !execution_filter_passed {
        return false;
    }
    if config.require_worthy && !worthy {
        return false;
    }
    !adjusted_bps.below(config.min_adjusted_bps)
}

/// What the signals of a triangle come to, but for the sums.
#[derive(Debug, Clone)]
pub struct TrianglePnlStats {
    pub start_asset: String,
    pub samples: usize,
    pub positive_adjusted_samples: usize,
    pub max_adjusted_pnl: FloatKey,
    pub max_adjusted_bps: FloatKey,
    pub last_timestamp_ms: u64,
}

/// What the signals of a triangle come to, but for the sums.
pub struct TrianglePnlView {
    pub start_asset: Seq<char>,
    pub samples: nat,
    pub positive: nat,
    pub max_pnl: FloatKey,
    pub max_bps: FloatKey,
    pub last_timestamp_ms: u64,
}

impl View for TrianglePnlStats {
    type V = TrianglePnlView;

    open spec fn view(&self) -> TrianglePnlView {
        TrianglePnlView {
            start_asset: self.start_asset@,
            samples: self.samples as nat,
            positive: self.positive_adjusted_samples as nat,
            max_pnl: self.max_adjusted_pnl,
            max_bps: self.max_adjusted_bps,
            last_timestamp_ms: self.last_timestamp_ms,
        }
    }
}

/// What no signals come to.
pub open spec fn no_pnl() -> TrianglePnlView {
    TrianglePnlView {
        start_asset: Seq::empty(),
        samples: 0,
        positive: 0,
        max_pnl: FloatKey { key: 0 },
        max_bps: FloatKey { key: 0 },
        last_timestamp_ms: 0,
    }
}

/// What a signal adds: the profit in basis points, and what was earned with it.
#[derive(Debug, Clone, Copy)]
pub struct PnlSample {
    pub adjusted_bps: FloatKey,
    pub adjusted_pnl: FloatKey,
    pub timestamp_ms: u64,
}

/// What one more signal comes to. As long as no start asset is known, the
/// maxima start anew.
pub open spec fn with_sample(stats: TrianglePnlView, start_asset: Seq<char>, sample: PnlSample) -> TrianglePnlView {
    let lowest = FloatKey { key: crate::float_key::NEG_INFINITY };
    let first = stats.start_asset.len() == 0;
    let max_pnl = if first {
        lowest
    } else {
        stats.max_pnl
    };
    let max_bps = if first {
        lowest
    } else {
        stats.max_bps
    };
    TrianglePnlView {
        start_asset: if first {
            start_asset
        } else {
            stats.start_asset
        },
        samples: stats.samples + 1,
        positive: stats.positive + if (FloatKey { key: 0 }).lt(sample.adjusted_bps) {
            1nat
        } else {
            0nat
        },
        max_pnl: max_pnl.larger(sample.adjusted_pnl),
        max_bps: max_bps.larger(sample.adjusted_bps),
        last_timestamp_ms: if sample.timestamp_ms > stats.last_timestamp_ms {
            sample.timestamp_ms
        } else {
            stats.last_timestamp_ms
        },
    }
}

impl TrianglePnlStats {
    /// No signals.
    pub fn new() -> (r: TrianglePnlStats)
        ensures
            r@ == no_pnl(),
    {
        let r = TrianglePnlStats {
            start_asset: String::new(),
            samples: 0,
            positive_adjusted_samples: 0,
            max_adjusted_pnl: FloatKey::zero(),
            max_adjusted_bps: FloatKey::zero(),
            last_timestamp_ms: 0,
        };
        proof {
            assert(r.start_asset@ =~= Seq::<char>::empty());
        }
        r
    }

    /// Adds a signal.
    pub fn record(&mut self, start_asset: &str, sample: PnlSample)
        requires
            old(self)@.samples < usize::MAX,
            old(self)@.positive <= old(self)@.samples,
        ensures
            final(self)@ == with_sample(old(self)@, start_asset@, sample),
    {
        if self.start_asset.as_str().is_empty() {
            self.start_asset = start_asset.to_owned();
            self.max_adjusted_pnl = FloatKey::neg_infinity();
            self.max_adjusted_bps = FloatKey::neg_infinity();
        }
        self.samples = self.samples + 1;
        if FloatKey::zero().below(sample.adjusted_bps) {
            self.positive_adjusted_samples = self.positive_adjusted_samples + 1;
        }
        self.max_adjusted_pnl = self.max_adjusted_pnl.max(sample.adjusted_pnl);
        self.max_adjusted_bps = self.max_adjusted_bps.max(sample.adjusted_bps);
        if sample.timestamp_ms > self.last_timestamp_ms {
            self.last_timestamp_ms = sample.timestamp_ms;
        }
    }
}

/// The largest profit in basis points is not below any that was added, and the
/// last time is not before any, once a start asset is known.
pub proof fn law_sample_is_within_the_maxima(stats: TrianglePnlView, start_asset: Seq<char>, sample: PnlSample)
    requires
        !sample.adjusted_bps.nan(),
        !stats.max_bps.nan(),
    ensures
        sample.adjusted_bps.le(with_sample(stats, start_asset, sample).max_bps),
        with_sample(stats, start_asset, sample).last_timestamp_ms >= sample.timestamp_ms,
        with_sample(stats, start_asset, sample).last_timestamp_ms >= stats.last_timestamp_ms,
        stats.start_asset.len() > 0 ==> stats.max_bps.le(
            with_sample(stats, start_asset, sample).max_bps,
        ) && with_sample(stats, start_asset, sample).start_asset == stats.start_asset,
{
}

/// A line of a log.
#[derive(Debug, Clone, Copy)]
pub enum PnlLine {
    /// Nothing but white space.
    Blank,
    /// Not a signal.
    Unreadable,
    Signal { execution_filter_passed: bool, worthy: bool, adjusted_bps: FloatKey },
}

/// What the lines of a log come to.
#[derive(Debug)]
pub struct PnlReport {
    total_lines: usize,
    parsed_lines: usize,
    considered: usize,
    by_triangle: TextMap<TrianglePnlStats>,
}

/// What the lines of a log come to.
pub struct PnlReportView {
    pub total_lines: nat,
    pub parsed_lines: nat,
    pub considered: nat,
    pub by_triangle: Map<Seq<char>, TrianglePnlView>,
}

spec fn pnl_views(by_triangle: Map<Seq<char>, TrianglePnlStats>) -> Map<Seq<char>, TrianglePnlView> {
    by_triangle.map_values(|s: TrianglePnlStats| s@)
}

impl View for PnlReport {
    type V = PnlReportView;

    closed spec fn view(&self) -> PnlReportView {
        PnlReportView {
            total_lines: self.total_lines as nat,
            parsed_lines: self.parsed_lines as nat,
            considered: self.considered as nat,
            by_triangle: pnl_views(self.by_triangle@),
        }
    }
}

/// What the signals of a triangle have come to so far.
pub open spec fn pnl_of(by_triangle: Map<Seq<char>, TrianglePnlView>, name: Seq<char>) -> TrianglePnlView {
    if by_triangle.dom().contains(name) {
        by_triangle[name]
    } else {
        no_pnl()
    }
}

/// Whether the counts can be those of a log.
pub open spec fn counts_fit(report: PnlReportView) -> bool {
    &&& report.considered <= report.parsed_lines <= report.total_lines
    &&& forall|name: Seq<char>| #[trigger]
        report.by_triangle.dom().contains(name) ==> report.by_triangle[name].positive
            <= report.by_triangle[name].samples <= report.considered
}

/// The counts after one more line.
pub open spec fn with_line(
    report: PnlReportView,
    config: PnlReportConfigView,
    line: PnlLine,
) -> PnlReportView {
    let total_lines = report.total_lines + 1;
    match line {
        PnlLine::Blank | PnlLine::Unreadable => PnlReportView { total_lines, ..report },
        PnlLine::Signal { execution_filter_passed, worthy, adjusted_bps } => PnlReportView {
            total_lines,
            parsed_lines: report.parsed_lines + 1,
            considered: report.considered + if wanted(
                config,
                execution_filter_passed,
                worthy,
                adjusted_bps,
            ) {
                1nat
            } else {
                0nat
            },
            ..report
        },
    }
}

impl PnlReport {
    #[verifier::type_invariant]
    spec fn well_formed(self) -> bool {
        counts_fit(self@)
    }

    /// No lines.
    pub fn new() -> (r: PnlReport)
        ensures
            r@.total_lines == 0,
            r@.parsed_lines == 0,
            r@.considered == 0,
            r@.by_triangle == Map::<Seq<char>, TrianglePnlView>::empty(),
            r.triangles() == Seq::<Seq<char>>::empty(),
    {
        let by_triangle: TextMap<TrianglePnlStats> = TextMap::new();
        proof {
            assert(pnl_views(by_triangle@) =~= Map::<Seq<char>, TrianglePnlView>::empty());
        }
        PnlReport { total_lines: 0, parsed_lines: 0, considered: 0, by_triangle }
    }

    /// The triangles in the order in which they first came.
    pub closed spec fn triangles(&self) -> Seq<Seq<char>> {
        self.by_triangle.order()
    }

    /// How many lines there were, how many of them were signals, and how many
    /// of those were taken into the report.
    pub fn lines(&self) -> (r: (usize, usize, usize))
        ensures
            r.0 == self@.total_lines,
            r.1 == self@.parsed_lines,
            r.2 == self@.considered,
            counts_fit(self@),
    {
        proof {
            use_type_invariant(self);
        }
        (self.total_lines, self.parsed_lines, self.considered)
    }

    /// Counts a line, and says whether it holds a signal that is taken into the
    /// report.
    pub fn consider(&mut self, config: &PnlReportConfig, line: PnlLine) -> (r: bool)
        requires
            old(self)@.total_lines < usize::MAX,
        ensures
            final(self)@ == with_line(old(self)@, config@, line),
            final(self).triangles() == old(self).triangles(),
            r == (final(self)@.considered > old(self)@.considered),
    {
        proof {
            use_type_invariant(&*self);
        }
        let ghost start = self@;
        let mut taken: PnlReport = PnlReport::new();
        std::mem::swap(self, &mut taken);
        let PnlReport { total_lines, mut parsed_lines, mut considered, by_triangle } = taken;
        let wanted: bool = match line {
            PnlLine::Blank => false,
            PnlLine::Unreadable => false,
            PnlLine::Signal { execution_filter_passed, worthy, adjusted_bps } => {
                parsed_lines = parsed_lines + 1;
                is_wanted(config, execution_filter_passed, worthy, adjusted_bps)
            },
        };
        if wanted {
            considered = considered + 1;
        }
        proof {
            assert(pnl_views(by_triangle@) == start.by_triangle);
            assert forall|name: Seq<char>| #[trigger]
                start.by_triangle.dom().contains(name) implies start.by_triangle[name].positive
                <= start.by_triangle[name].samples <= considered by {}
        }
        *self = PnlReport { total_lines: total_lines + 1, parsed_lines, considered, by_triangle };
        wanted
    }

    /// Adds a signal of a triangle that is taken into the report, and says at
    /// which place of the order the triangle stands.
    pub fn record(&mut self, triangle: &str, start_asset: &str, sample: PnlSample) -> (r: usize)
        requires
            pnl_of(old(self)@.by_triangle, triangle@).samples < old(self)@.considered,
        ensures
            final(self)@ == (PnlReportView {
                by_triangle: old(self)@.by_triangle.insert(
                    triangle@,
                    with_sample(
                        pnl_of(old(self)@.by_triangle, triangle@),
                        start_asset@,
                        sample,
                    ),
                ),
                ..old(self)@
            }),
            final(self).triangles() == if old(self)@.by_triangle.dom().contains(triangle@) {
                old(self).triangles()
            } else {
                old(self).triangles().push(triangle@)
            },
            r < final(self).triangles().len(),
            final(self).triangles()[r as int] == triangle@,
    {
        proof {
            use_type_invariant(&*self);
        }
        let ghost start = self@;
        let mut stats: TrianglePnlStats = match self.by_triangle.get(triangle) {
            Some(stats) => {
                proof {
                    assert(start.by_triangle.dom().contains(triangle@));
                }
                copy_of_stats(stats)
            },
            None => TrianglePnlStats::new(),
        };
        stats.record(start_asset, sample);
        let mut taken: PnlReport = PnlReport::new();
        std::mem::swap(self, &mut taken);
        let PnlReport { total_lines, parsed_lines, considered, mut by_triangle } = taken;
        by_triangle.insert(triangle.to_owned(), stats);
        proof {
            let after = start.by_triangle.insert(triangle@, stats@);
            assert(pnl_views(by_triangle@) =~= after);
            assert forall|name: Seq<char>| #[trigger] after.dom().contains(name) implies after[name].positive
                <= after[name].samples <= considered by {
                if name != triangle@ {
                    assert(start.by_triangle.dom().contains(name));
                }
            }
        }
        *self = PnlReport { total_lines, parsed_lines, considered, by_triangle };
        let count: usize = self.by_triangle.len();
        proof {
            assert(self.by_triangle@.dom().contains(triangle@));
            assert(self.by_triangle.order().to_set().contains(triangle@));
        }
        let mut i: usize = 0;
        while i < count && !same_text(self.by_triangle.key_at(i).as_str(), triangle)
            invariant
                i <= count,
                count == self.by_triangle.order().len(),
                self.by_triangle.order().contains(triangle@),
                forall|j: int| 0 <= j < i ==> #[trigger] self.by_triangle.order()[j] != triangle@,
            decreases count - i,
        {
            i = i + 1;
        }
        i
    }

    /// How many triangles there are.
    pub fn len(&self) -> (r: usize)
        ensures
            r == self.triangles().len(),
            self.triangles().no_duplicates(),
            self.triangles().to_set() == self@.by_triangle.dom(),
    {
        let r: usize = self.by_triangle.len();
        proof {
            assert(self@.by_triangle.dom() =~= self.by_triangle@.dom());
        }
        r
    }

    /// The triangle at a place of the order, and what its signals come to.
    pub fn row(&self, i: usize) -> (r: (&String, &TrianglePnlStats))
        requires
            i < self.triangles().len(),
        ensures
            r.0@ == self.triangles()[i as int],
            self@.by_triangle.dom().contains(self.triangles()[i as int]),
            r.1@ == self@.by_triangle[self.triangles()[i as int]],
    {
        let stats: &TrianglePnlStats = self.by_triangle.value_at(i);
        (self.by_triangle.key_at(i), stats)
    }
}

fn copy_of_stats(stats: &TrianglePnlStats) -> (r: TrianglePnlStats)
    ensures
        r@ == stats@,
{
    TrianglePnlStats {
        start_asset: stats.start_asset.clone(),
        samples: stats.samples,
        positive_adjusted_samples: stats.positive_adjusted_samples,
        max_adjusted_pnl: stats.max_adjusted_pnl,
        max_adjusted_bps: stats.max_adjusted_bps,
        last_timestamp_ms: stats.last_timestamp_ms,
    }
}

/// A text for a quoted field of a table: quotes in it are doubled.
pub fn csv_escape(input: &str) -> (r: String)
    ensures
        r@ == crate::text::quotes_doubled(input@),
{
    double_quotes(input)
}

/// The titles of the table.
pub fn csv_header() -> (r: String)
    ensures
        r@ == "triangle,asset,samples,positive_samples,sum_adjusted_pnl,sum_raw_pnl,avg_adjusted_bps,max_adjusted_bps,last_timestamp_ms"@,
{
    "triangle,asset,samples,positive_samples,sum_adjusted_pnl,sum_raw_pnl,avg_adjusted_bps,max_adjusted_bps,last_timestamp_ms".to_owned()
}

/// The numbers of a row of the table that are written out beforehand.
#[derive(Debug)]
pub struct CsvNumbers {
    pub sum_adjusted_pnl: String,
    pub sum_raw_pnl: String,
    pub avg_adjusted_bps: String,
    pub max_adjusted_bps: String,
}

/// A row of the table.
pub open spec fn csv_line(triangle: Seq<char>, stats: TrianglePnlView, numbers: CsvNumbers) -> Seq<char> {
    "\""@ + crate::text::quotes_doubled(triangle) + "\","@ + stats.start_asset + ","@
        + crate::text::digits(stats.samples) + ","@ + crate::text::digits(stats.positive) + ","@
        + numbers.sum_adjusted_pnl@ + ","@ + numbers.sum_raw_pnl@ + ","@
        + numbers.avg_adjusted_bps@ + ","@ + numbers.max_adjusted_bps@ + ","@
        + crate::text::digits(stats.last_timestamp_ms as nat)
}

/// A row of the table.
pub fn csv_row(triangle: &str, stats: &TrianglePnlStats, numbers: &CsvNumbers) -> (r: String)
    ensures
        r@ == csv_line(triangle@, stats@, *numbers),
{
    let mut out: String = "\"".to_owned();
    out.append(csv_escape(triangle).as_str());
    out.append("\",");
    out.append(stats.start_asset.as_str());
    out.append(",");
    out.append(number_text(stats.samples as u64).as_str());
    out.append(",");
    out.append(number_text(stats.positive_adjusted_samples as u64).as_str());
    out.append(",");
    out.append(numbers.sum_adjusted_pnl.as_str());
    out.append(",");
    out.append(numbers.sum_raw_pnl.as_str());
    out.append(",");
    out.append(numbers.avg_adjusted_bps.as_str());
    out.append(",");
    out.append(numbers.max_adjusted_bps.as_str());
    out.append(",");
    out.append(number_text(stats.last_timestamp_ms).as_str());
    out
}

/// A signal is taken into the report exactly where it passed the execution filter,
/// if that is asked for, is worthy, if that is asked for, and its adjusted profit
/// is not below the smallest.
pub proof fn law_wanted_signals(
    config: PnlReportConfigView,
    execution_filter_passed: bool,
    worthy: bool,
    adjusted_bps: FloatKey,
)
    ensures
        wanted(config, execution_filter_passed, worthy, adjusted_bps) <==> {
            &&& execution_filter_passed || !config.require_execution_passed
            &&& worthy || !config.require_worthy
            &&& !adjusted_bps.lt(config.min_adjusted_bps)
        },
{
}

/// What one more signal does to the figures of a triangle: it counts once, and
/// once more where its adjusted profit is above zero. Once a start asset is known
/// it stays, and the largest profits are the larger of what was and of what came;
/// before that, the signal brings the start asset, and the largest profits start
/// with it. The last time is the later one.
pub proof fn law_sample_is_added(stats: TrianglePnlView, start_asset: Seq<char>, sample: PnlSample)
    ensures
        ({
            let after = with_sample(stats, start_asset, sample);
            let positive = !sample.adjusted_bps.nan() && sample.adjusted_bps.key > 0;
            &&& after.samples == stats.samples + 1
            &&& positive ==> after.positive == stats.positive + 1
            &&& !positive ==> after.positive == stats.positive
            &&& after.last_timestamp_ms == sample.timestamp_ms || after.last_timestamp_ms
                == stats.last_timestamp_ms
            &&& after.last_timestamp_ms >= sample.timestamp_ms && after.last_timestamp_ms
                >= stats.last_timestamp_ms
            &&& stats.start_asset.len() > 0 ==> {
                &&& after.start_asset == stats.start_asset
                &&& after.max_bps == stats.max_bps.larger(sample.adjusted_bps)
                &&& after.max_pnl == stats.max_pnl.larger(sample.adjusted_pnl)
            }
            &&& stats.start_asset.len() == 0 ==> {
                &&& after.start_asset == start_asset
                &&& !sample.adjusted_bps.nan() ==> after.max_bps == sample.adjusted_bps
                &&& !sample.adjusted_pnl.nan() ==> after.max_pnl == sample.adjusted_pnl
            }
        }),
{
}

/// What one more line does to the counts: it counts once, once more where it holds
/// a signal, and once more where that is taken into the report. The figures stay.
pub proof fn law_line_is_counted(
    report: PnlReportView,
    config: PnlReportConfigView,
    line: PnlLine,
)
    ensures
        ({
            let after = with_line(report, config, line);
            &&& after.total_lines == report.total_lines + 1
            &&& line is Signal ==> after.parsed_lines == report.parsed_lines + 1
            &&& !(line is Signal) ==> after.parsed_lines == report.parsed_lines && after.considered
                == report.considered
            &&& line matches PnlLine::Signal { execution_filter_passed, worthy, adjusted_bps } ==> {
                let taken = (execution_filter_passed || !config.require_execution_passed) && (worthy
                    || !config.require_worthy) && !adjusted_bps.lt(config.min_adjusted_bps);
                &&& taken ==> after.considered == report.considered + 1
                &&& !taken ==> after.considered == report.considered
            }
            &&& after.by_triangle == report.by_triangle
        }),
{
}

/// Figures that were not begun are empty: no signals, no start asset and no time.
pub proof fn law_new_triangles_have_no_figures(
    by_triangle: Map<Seq<char>, TrianglePnlView>,
    name: Seq<char>,
)
    ensures
        by_triangle.dom().contains(name) ==> pnl_of(by_triangle, name) == by_triangle[name],
        !by_triangle.dom().contains(name) ==> {
            let none = pnl_of(by_triangle, name);
            &&& none.samples == 0 && none.positive == 0
            &&& none.start_asset.len() == 0
            &&& none.last_timestamp_ms == 0
        },
{
}

/// Texts one after the other, with a comma between each two.
pub open spec fn with_commas(fields: Seq<Seq<char>>) -> Seq<char>
    decreases fields.len(),
{
    if fields.len() == 0 {
        Seq::empty()
    } else if fields.len() == 1 {
        fields[0]
    } else {
        with_commas(fields.drop_last()) + seq![','] + fields.last()
    }
}

/// A row of the table has a field for each title, with commas between them: the
/// triangle in quotes, its start asset, its counts, the sums, the average and the
/// largest profit, and its last time.
pub proof fn law_row_has_a_field_per_title(
    triangle: Seq<char>,
    stats: TrianglePnlView,
    numbers: CsvNumbers,
)
    ensures
        csv_line(triangle, stats, numbers) == with_commas(
            seq![
                seq!['"'] + crate::text::quotes_doubled(triangle) + seq!['"'],
                stats.start_asset,
                crate::text::digits(stats.samples),
                crate::text::digits(stats.positive),
                numbers.sum_adjusted_pnl@,
                numbers.sum_raw_pnl@,
                numbers.avg_adjusted_bps@,
                numbers.max_adjusted_bps@,
                crate::text::digits(stats.last_timestamp_ms as nat),
            ],
        ),
{
    reveal_strlit("\"");
    reveal_strlit("\",");
    reveal_strlit(",");
    let f = seq![
        seq!['"'] + crate::text::quotes_doubled(triangle) + seq!['"'],
        stats.start_asset,
        crate::text::digits(stats.samples),
        crate::text::digits(stats.positive),
        numbers.sum_adjusted_pnl@,
        numbers.sum_raw_pnl@,
        numbers.avg_adjusted_bps@,
        numbers.max_adjusted_bps@,
        crate::text::digits(stats.last_timestamp_ms as nat),
    ];
    reveal_with_fuel(with_commas, 10);
    assert(f.drop_last() =~= f.take(8));
    assert(f.take(8).drop_last() =~= f.take(7));
    assert(f.take(7).drop_last() =~= f.take(6));
    assert(f.take(6).drop_last() =~= f.take(5));
    assert(f.take(5).drop_last() =~= f.take(4));
    assert(f.take(4).drop_last() =~= f.take(3));
    assert(f.take(3).drop_last() =~= f.take(2));
    assert(f.take(2).drop_last() =~= f.take(1));
    assert(","@ =~= seq![',']);
    assert("\""@ =~= seq!['"']);
    assert("\","@ =~= seq!['"'] + seq![',']);
    assert(with_commas(f.take(2)) == f[0] + seq![','] + f[1]);
    assert("\""@ + crate::text::quotes_doubled(triangle) + "\","@ + stats.start_asset =~= f[0] + seq![
        ',',
    ] + f[1]);
    assert(with_commas(f) =~= csv_line(triangle, stats, numbers));
}

proof fn lemma_options()
    ensures
        "--include-unworthy"@ != "--include-nonexecutable"@,
        "--include-unworthy"@ != "--top"@,
        "--include-unworthy"@ != "--min-adjusted-bps"@,
        "--include-unworthy"@ != "--csv"@,
        "--include-nonexecutable"@ != "--top"@,
        "--include-nonexecutable"@ != "--min-adjusted-bps"@,
        "--include-nonexecutable"@ != "--csv"@,
        "--top"@ != "--min-adjusted-bps"@,
        "--top"@ != "--csv"@,
        "--min-adjusted-bps"@ != "--csv"@,
        crate::cli::option_like("--include-unworthy"@),
        crate::cli::option_like("--include-nonexecutable"@),
        crate::cli::option_like("--top"@),
        crate::cli::option_like("--min-adjusted-bps"@),
        crate::cli::option_like("--csv"@),
{
    reveal_strlit("--");
    reveal_strlit("--include-unworthy");
    reveal_strlit("--include-nonexecutable");
    reveal_strlit("--top");
    reveal_strlit("--min-adjusted-bps");
    reveal_strlit("--csv");
    assert("--include-unworthy"@.len() != "--include-nonexecutable"@.len());
    assert("--include-unworthy"@.len() != "--top"@.len());
    assert("--include-unworthy"@[2] != "--min-adjusted-bps"@[2]);
    assert("--include-unworthy"@.len() != "--csv"@.len());
    assert("--include-nonexecutable"@.len() != "--top"@.len());
    assert("--include-nonexecutable"@.len() != "--min-adjusted-bps"@.len());
    assert("--include-nonexecutable"@.len() != "--csv"@.len());
    assert("--top"@.len() != "--min-adjusted-bps"@.len());
    assert("--top"@[2] != "--csv"@[2]);
    assert("--min-adjusted-bps"@.len() != "--csv"@.len());
}

/// How one argument counts: an option without a value makes its own choice and no
/// other, the first other text is the path, and a further one, or an option that
/// there is none of, is refused with its name.
pub proof fn law_arguments_count_one_by_one(
    arg: CliToken,
    rest: Seq<CliToken>,
    so_far: PnlReportConfigView,
    path_set: bool,
)
    ensures
        arg.text@ == "--include-unworthy"@
            ==> args_read(seq![arg] + rest, so_far, path_set) == args_read(
            rest,
            PnlReportConfigView { require_worthy: false, ..so_far },
            path_set,
        ),
        arg.text@ == "--include-nonexecutable"@
            ==> args_read(seq![arg] + rest, so_far, path_set) == args_read(
            rest,
            PnlReportConfigView { require_execution_passed: false, ..so_far },
            path_set,
        ),
        "--"@.is_prefix_of(arg.text@) && arg.text@ != "--include-unworthy"@
            && arg.text@ != "--include-nonexecutable"@
            && arg.text@ != "--top"@
            && arg.text@ != "--min-adjusted-bps"@
            && arg.text@ != "--csv"@ ==> args_read(
            seq![arg] + rest,
            so_far,
            path_set,
        ) == Err::<PnlReportConfigView, Seq<char>>("unknown option "@ + arg.text@),
        !"--"@.is_prefix_of(arg.text@) && path_set ==> args_read(seq![arg] + rest, so_far, path_set)
           
                == Err::<PnlReportConfigView, Seq<char>>("unexpected positional argument "@ + arg.text@),
        !"--"@.is_prefix_of(arg.text@) && !path_set
            ==> args_read(seq![arg] + rest, so_far, path_set)
            == args_read(rest, PnlReportConfigView { path: arg.text@, ..so_far }, true),
{
    lemma_options();
    let args = seq![arg] + rest;
    assert(args[0] == arg);
    assert(args.drop_first() =~= rest);
}

/// How an option with a value counts: the text behind it sets its own choice and no
/// other; without one, or with one that cannot be used, it is refused.
pub proof fn law_options_take_the_next_argument(
    arg: CliToken,
    value: CliToken,
    rest: Seq<CliToken>,
    so_far: PnlReportConfigView,
    path_set: bool,
)
    ensures
        arg.text@ == "--top"@ && crate::text::whole_number(value.text@, usize::MAX as nat) is None
            ==> args_read(seq![arg, value] + rest, so_far, path_set)
            == Err::<PnlReportConfigView, Seq<char>>("invalid integer for --top"@),
        arg.text@ == "--top"@ && crate::text::whole_number(value.text@, usize::MAX as nat) is Some
            ==> args_read(seq![arg, value] + rest, so_far, path_set) == args_read(
            rest,
            PnlReportConfigView {
                top_n: crate::text::whole_number(value.text@, usize::MAX as nat)->0 as usize,
                ..so_far
            },
            path_set,
        ),
        arg.text@ == "--min-adjusted-bps"@ && value.number is None
            ==> args_read(seq![arg, value] + rest, so_far, path_set)
            == Err::<PnlReportConfigView, Seq<char>>("invalid number for --min-adjusted-bps"@),
        arg.text@ == "--min-adjusted-bps"@ && value.number is Some
            ==> args_read(seq![arg, value] + rest, so_far, path_set) == args_read(
            rest,
            PnlReportConfigView { min_adjusted_bps: value.number->0, ..so_far },
            path_set,
        ),
        arg.text@ == "--csv"@ ==> args_read(seq![arg, value] + rest, so_far, path_set) == args_read(
            rest,
            PnlReportConfigView { csv_output_path: Some(value.text@), ..so_far },
            path_set,
        ),
        arg.text@ == "--top"@
            ==> args_read(seq![arg], so_far, path_set)
            == Err::<PnlReportConfigView, Seq<char>>("missing value for --top"@),
        arg.text@ == "--min-adjusted-bps"@
            ==> args_read(seq![arg], so_far, path_set)
            == Err::<PnlReportConfigView, Seq<char>>("missing value for --min-adjusted-bps"@),
        arg.text@ == "--csv"@
            ==> args_read(seq![arg], so_far, path_set)
            == Err::<PnlReportConfigView, Seq<char>>("missing value for --csv"@),
{
    lemma_options();
    let args = seq![arg, value] + rest;
    assert(args[0] == arg);
    assert(args[1] == value);
    assert(args.skip(2) =~= rest);
    assert(seq![arg][0] == arg);
}

/// What there is without arguments: the choices made so far, where they can be used,
/// which are these at first.
pub proof fn law_choices_without_arguments(so_far: PnlReportConfigView, path_set: bool)
    ensures
        so_far.top_n > 0
            ==> args_read(Seq::empty(), so_far, path_set) == Ok::<PnlReportConfigView, Seq<char>>(so_far),
        so_far.top_n == 0
            ==> args_read(Seq::empty(), so_far, path_set)
            == Err::<PnlReportConfigView, Seq<char>>("--top must be > 0"@),
        default_config().path == "data/triangle_signals.jsonl"@,
        default_config().top_n == 20,
        default_config().min_adjusted_bps.key == 0,
        default_config().require_worthy == true,
        default_config().require_execution_passed == true,
        default_config().csv_output_path == None::<Seq<char>>,
{
}

/// The subcommand is run exactly where the first argument names it and the others
/// can be used, and then with what they come to.
pub proof fn law_subcommand_is_named_first(args: Seq<CliToken>, request: CliRequest<PnlReportConfig>)
    requires
        requested(args, request),
    ensures
        request is Other <==> args.len() == 0 || args[0].text@ != "pnl-report"@,
        request matches CliRequest::Run(config) ==> args_read(args.skip(1), default_config(), false)
            == Ok::<PnlReportConfigView, Seq<char>>(config@),
        request matches CliRequest::Refused(message) ==> args_read(
            args.skip(1),
            default_config(),
            false,
        ) == Err::<PnlReportConfigView, Seq<char>>(message@),
{
    if args.len() > 0 {
        assert(args.skip(1) =~= args.drop_first());
        assert(crate::cli::token_texts(args)[0] == args[0].text@);
    }
}

} // verus!
