//! Summing up logged signals per triangle.

use vstd::prelude::*;

use crate::cli::is_command;
use crate::decimal::Decimal;
use crate::ranking::rank_decimals;
use crate::text_map::TextMap;
use crate::workers::OutOfRange;

verus! {

/// The file that the arguments of the program ask to be analyzed; `None` where
/// they are not for this subcommand.
pub fn path_from_cli_args(args: Vec<String>) -> (r: Option<String>)
    ensures
        r is Some <==> crate::cli::names_command(crate::text::texts(args@), "analyze"@),
        r matches Some(path) ==> path@ == if args@.len() > 1 {
            args@[1]@
        } else {
            "data/triangle_signals.jsonl"@
        },
{
    if !is_command(&args, "analyze") {
        return None;
    }
    if args.len() > 1 {
        Some(args[1].clone())
    } else {
        Some("data/triangle_signals.jsonl".to_owned())
    }
}

/// A number as it is written: a mantissa and a scale.
pub type Number = crate::decimal::Number;

/// The name of a triangle: its pairs, one after the other.
pub open spec fn triangle_name(pairs: [String; 3]) -> Seq<char> {
    pairs@[0]@ + " -> "@ + pairs@[1]@ + " -> "@ + pairs@[2]@
}

/// The name of a triangle: its pairs, one after the other.
pub fn name_of_triangle(pairs: &[String; 3]) -> (r: String)
    ensures
        r@ == triangle_name(*pairs),
{
    let mut out: String = pairs[0].clone();
    out.append(" -> ");
    out.append(pairs[1].as_str());
    out.append(" -> ");
    out.append(pairs[2].as_str());
    out
}

/// What the signals of a triangle come to.
#[derive(Debug, Clone, Copy)]
pub struct Stats {
    pub samples: usize,
    pub worthy_samples: usize,
    pub sum_best_profit_bps: Decimal,
    pub max_best_profit_bps: Option<Decimal>,
    pub sum_hit_rate: Decimal,
}

/// What the signals of a triangle come to.
pub struct StatsView {
    pub samples: nat,
    pub worthy: nat,
    pub sum_bps: Number,
    pub max_bps: Option<Number>,
    pub sum_hit: Number,
}

impl View for Stats {
    type V = StatsView;

    open spec fn view(&self) -> StatsView {
        StatsView {
            samples: self.samples as nat,
            worthy: self.worthy_samples as nat,
            sum_bps: self.sum_best_profit_bps@,
            max_bps: crate::decimal::number(self.max_best_profit_bps),
            sum_hit: self.sum_hit_rate@,
        }
    }
}

/// What no signals come to.
pub open spec fn no_stats() -> StatsView {
    StatsView { samples: 0, worthy: 0, sum_bps: (0, 0, false), max_bps: None, sum_hit: (0, 0, false) }
}

impl Default for Stats {
    fn default() -> (r: Stats)
        ensures
            r@ == no_stats(),
    {
        Stats {
            samples: 0,
            worthy_samples: 0,
            sum_best_profit_bps: Decimal::zero(),
            max_best_profit_bps: None,
            sum_hit_rate: Decimal::zero(),
        }
    }
}

/// The larger of two numbers; the first where they are equal.
pub open spec fn larger_number(a: Number, b: Number) -> Number {
    if crate::decimal::place(a) < crate::decimal::place(b) {
        b
    } else {
        a
    }
}

/// What is read of a signal in a log.
#[derive(Debug, Clone)]
pub struct LoggedSignal {
    pub triangle_pairs: [String; 3],
    pub worthy: bool,
    pub best_profit_bps: Decimal,
    pub hit_rate: Decimal,
}

/// What one more signal adds; `None` where a sum gets too large.
pub open spec fn with_signal(stats: StatsView, signal: LoggedSignal) -> Option<StatsView> {
    let bps = signal.best_profit_bps@;
    match (
        crate::decimal::total(stats.sum_bps, bps),
        crate::decimal::total(stats.sum_hit, signal.hit_rate@),
    ) {
        (Some(sum_bps), Some(sum_hit)) => Some(
            StatsView {
                samples: stats.samples + 1,
                worthy: stats.worthy + if signal.worthy {
                    1nat
                } else {
                    0nat
                },
                sum_bps,
                max_bps: Some(
                    match stats.max_bps {
                        Some(max) => larger_number(max, bps),
                        None => bps,
                    },
                ),
                sum_hit,
            },
        ),
        _ => None,
    }
}

impl Stats {
    /// Adds a signal.
    fn with(&self, signal: &LoggedSignal) -> (r: Option<Stats>)
        requires
            self.samples < usize::MAX,
            self.worthy_samples <= self.samples,
        ensures
            match r {
                Some(stats) => with_signal(self@, *signal) == Some(stats@),
                None => with_signal(self@, *signal) is None,
            },
    {
        let best_profit_bps: Decimal = signal.best_profit_bps;
        match (
            self.sum_best_profit_bps.checked_add(best_profit_bps),
            self.sum_hit_rate.checked_add(signal.hit_rate),
        ) {
            (Some(sum_best_profit_bps), Some(sum_hit_rate)) => Some(
                Stats {
                    samples: self.samples + 1,
                    worthy_samples: if signal.worthy {
                        self.worthy_samples + 1
                    } else {
                        self.worthy_samples
                    },
                    sum_best_profit_bps,
                    max_best_profit_bps: match self.max_best_profit_bps {
                        Some(current) => Some(current.max(best_profit_bps)),
                        None => Some(best_profit_bps),
                    },
                    sum_hit_rate,
                },
            ),
            _ => None,
        }
    }
}

/// The average of a sum; zero where nothing was summed up.
pub open spec fn average(sum: Number, count: nat) -> Option<Number> {
    if count == 0 {
        Some((0, 0, false))
    } else {
        crate::decimal::quotient(sum, (count as int, 0, false))
    }
}

/// The average of a sum; zero where nothing was summed up.
pub fn avg_decimal(sum: Decimal, count: usize) -> (r: Option<Decimal>)
    ensures
        crate::decimal::number(r) == average(sum@, count as nat),
{
    if count == 0 {
        Some(Decimal::zero())
    } else {
        sum.checked_div(Decimal::from_usize(count))
    }
}

/// A line of a log.
#[derive(Debug)]
pub enum SignalLine {
    /// Nothing but white space.
    Blank,
    /// Not a signal.
    Unreadable,
    Signal(LoggedSignal),
}

/// What the lines of a log come to.
pub struct AnalysisView {
    pub total_lines: nat,
    pub parsed_lines: nat,
    pub by_triangle: Map<Seq<char>, StatsView>,
}

/// What the signals of a triangle have come to so far.
pub open spec fn stats_of(by_triangle: Map<Seq<char>, StatsView>, name: Seq<char>) -> StatsView {
    if by_triangle.dom().contains(name) {
        by_triangle[name]
    } else {
        no_stats()
    }
}

/// What one more line adds; `None` where a sum gets too large.
pub open spec fn with_line(state: AnalysisView, line: SignalLine) -> Option<AnalysisView> {
    let total_lines = state.total_lines + 1;
    match line {
        SignalLine::Blank | SignalLine::Unreadable => Some(AnalysisView { total_lines, ..state }),
        SignalLine::Signal(signal) => {
            let name = triangle_name(signal.triangle_pairs);
            match with_signal(stats_of(state.by_triangle, name), signal) {
                Some(stats) => Some(
                    AnalysisView {
                        total_lines,
                        parsed_lines: state.parsed_lines + 1,
                        by_triangle: state.by_triangle.insert(name, stats),
                    },
                ),
                None => None,
            }
        },
    }
}

/// What the lines of a log come to, line by line.
#[derive(Debug)]
pub struct Analysis {
    total_lines: usize,
    parsed_lines: usize,
    by_triangle: TextMap<Stats>,
}

spec fn stats_views(by_triangle: Map<Seq<char>, Stats>) -> Map<Seq<char>, StatsView> {
    by_triangle.map_values(|s: Stats| s@)
}

impl View for Analysis {
    type V = AnalysisView;

    closed spec fn view(&self) -> AnalysisView {
        AnalysisView {
            total_lines: self.total_lines as nat,
            parsed_lines: self.parsed_lines as nat,
            by_triangle: stats_views(self.by_triangle@),
        }
    }
}

/// Whether the counts can be those of a log.
pub open spec fn counts_fit(state: AnalysisView) -> bool {
    &&& state.parsed_lines <= state.total_lines
    &&& forall|name: Seq<char>| #[trigger]
        state.by_triangle.dom().contains(name) ==> state.by_triangle[name].worthy
            <= state.by_triangle[name].samples <= state.parsed_lines
}

/// How many signals triangles have had, all together.
pub open spec fn samples_of(
    triangles: Seq<Seq<char>>,
    by_triangle: Map<Seq<char>, StatsView>,
) -> nat
    decreases triangles.len(),
{
    if triangles.len() == 0 {
        0
    } else {
        samples_of(triangles.drop_last(), by_triangle) + by_triangle[triangles.last()].samples
    }
}

/// Triangles with one more at the end, where it is not among them.
pub open spec fn with_triangle(triangles: Seq<Seq<char>>, name: Seq<char>) -> Seq<Seq<char>> {
    if triangles.contains(name) {
        triangles
    } else {
        triangles.push(name)
    }
}

/// The triangles after one more line.
pub open spec fn triangles_after(triangles: Seq<Seq<char>>, line: SignalLine) -> Seq<Seq<char>> {
    match line {
        SignalLine::Signal(signal) => with_triangle(triangles, triangle_name(signal.triangle_pairs)),
        _ => triangles,
    }
}

/// Whether a list of triangles and the counts of a log belong together: the list
/// holds each triangle of the log once, and the signals of all triangles add up
/// to the signals of the log.
pub open spec fn adds_up(triangles: Seq<Seq<char>>, state: AnalysisView) -> bool {
    &&& triangles.no_duplicates()
    &&& triangles.to_set() == state.by_triangle.dom()
    &&& samples_of(triangles, state.by_triangle) == state.parsed_lines
}

proof fn lemma_samples_of_others(
    triangles: Seq<Seq<char>>,
    by_triangle: Map<Seq<char>, StatsView>,
    name: Seq<char>,
    stats: StatsView,
)
    requires
        !triangles.contains(name),
    ensures
        samples_of(triangles, by_triangle.insert(name, stats)) == samples_of(
            triangles,
            by_triangle,
        ),
    decreases triangles.len(),
{
    if triangles.len() > 0 {
        let rest = triangles.drop_last();
        assert(triangles[triangles.len() - 1] != name);
        if rest.contains(name) {
            let i = choose|i: int| 0 <= i < rest.len() && rest[i] == name;
            assert(triangles[i] == name);
        }
        lemma_samples_of_others(rest, by_triangle, name, stats);
    }
}

proof fn lemma_samples_of_one(
    triangles: Seq<Seq<char>>,
    by_triangle: Map<Seq<char>, StatsView>,
    name: Seq<char>,
    stats: StatsView,
)
    requires
        triangles.no_duplicates(),
        triangles.contains(name),
        stats.samples == by_triangle[name].samples + 1,
    ensures
        samples_of(triangles, by_triangle.insert(name, stats)) == samples_of(
            triangles,
            by_triangle,
        ) + 1,
    decreases triangles.len(),
{
    let rest = triangles.drop_last();
    if triangles.last() == name {
        if rest.contains(name) {
            let i = choose|i: int| 0 <= i < rest.len() && rest[i] == name;
            assert(triangles[i] == triangles[triangles.len() - 1]);
        }
        lemma_samples_of_others(rest, by_triangle, name, stats);
    } else {
        let i = choose|i: int| 0 <= i < triangles.len() && triangles[i] == name;
        assert(rest[i] == name);
        lemma_samples_of_one(rest, by_triangle, name, stats);
    }
}

/// The signals of all triangles add up to the signals of the log, line after
/// line.
pub proof fn law_samples_add_up(
    triangles: Seq<Seq<char>>,
    state: AnalysisView,
    line: SignalLine,
    after: AnalysisView,
)
    requires
        adds_up(triangles, state),
        with_line(state, line) == Some(after),
    ensures
        adds_up(triangles_after(triangles, line), after),
{
    match line {
        SignalLine::Signal(signal) => {
            let name = triangle_name(signal.triangle_pairs);
            let stats = with_signal(stats_of(state.by_triangle, name), signal)->0;
            let next = triangles_after(triangles, line);
            assert(triangles.to_set().contains(name) <==> triangles.contains(name));
            if triangles.contains(name) {
                lemma_samples_of_one(triangles, state.by_triangle, name, stats);
                assert(next.to_set() =~= after.by_triangle.dom());
            } else {
                lemma_samples_of_others(triangles, state.by_triangle, name, stats);
                assert(next.drop_last() =~= triangles);
                assert forall|x: Seq<char>| next.to_set().contains(x) <==> after.by_triangle.dom().contains(
                    x,
                ) by {
                    crate::names::lemma_pushed(triangles, name, x);
                    assert(triangles.to_set().contains(x) <==> triangles.contains(x));
                }
                assert(next.to_set() =~= after.by_triangle.dom());
            }
        },
        _ => {},
    }
}

/// A row of the summary of a log.
#[derive(Debug)]
pub struct AnalysisRow {
    pub triangle: String,
    pub samples: usize,
    pub worthy_samples: usize,
    pub avg_best_profit_bps: Decimal,
    pub max_best_profit_bps: Decimal,
    pub avg_hit_rate: Decimal,
}

/// Whether a row shows what the signals of a triangle come to.
pub open spec fn row_shows(row: AnalysisRow, name: Seq<char>, stats: StatsView) -> bool {
    &&& row.triangle@ == name
    &&& row.samples == stats.samples
    &&& row.worthy_samples == stats.worthy
    &&& average(stats.sum_bps, stats.samples) == Some(row.avg_best_profit_bps@)
    &&& row.max_best_profit_bps@ == match stats.max_bps {
        Some(max) => max,
        None => (0int, 0int, false),
    }
    &&& average(stats.sum_hit, stats.samples) == Some(row.avg_hit_rate@)
}

/// Whether both averages of a triangle are numbers.
pub open spec fn has_averages(stats: StatsView) -> bool {
    average(stats.sum_bps, stats.samples) is Some && average(stats.sum_hit, stats.samples) is Some
}

/// The average profits of triangles in the order of numbers.
pub open spec fn average_places(
    names: Seq<Seq<char>>,
    by_triangle: Map<Seq<char>, StatsView>,
) -> Seq<int> {
    names.map_values(
        |name: Seq<char>|
            crate::decimal::place(
                average(by_triangle[name].sum_bps, by_triangle[name].samples)->0,
            ),
    )
}

impl Analysis {
    #[verifier::type_invariant]
    spec fn well_formed(self) -> bool {
        counts_fit(self@) && adds_up(self.triangles(), self@)
    }

    /// No lines.
    pub fn new() -> (r: Analysis)
        ensures
            r@.total_lines == 0,
            r@.parsed_lines == 0,
            r@.by_triangle == Map::<Seq<char>, StatsView>::empty(),
            r.triangles() == Seq::<Seq<char>>::empty(),
    {
        let by_triangle: TextMap<Stats> = TextMap::new();
        proof {
            assert(stats_views(by_triangle@) =~= Map::<Seq<char>, StatsView>::empty());
            assert(by_triangle.order().to_set() =~= stats_views(by_triangle@).dom());
        }
        Analysis { total_lines: 0, parsed_lines: 0, by_triangle }
    }

    /// Takes in one more line. Where a sum gets too large, what was taken in
    /// stays as it is.
    pub fn take(&mut self, line: SignalLine) -> (r: Result<(), OutOfRange>)
        requires
            old(self)@.total_lines < usize::MAX,
        ensures
            match r {
                Ok(_) => {
                    &&& with_line(old(self)@, line) == Some(final(self)@)
                    &&& final(self).triangles() == triangles_after(old(self).triangles(), line)
                },
                Err(_) => {
                    &&& with_line(old(self)@, line) is None
                    &&& final(self)@ == old(self)@
                    &&& final(self).triangles() == old(self).triangles()
                },
            },
    {
        proof {
            use_type_invariant(&*self);
        }
        let ghost start = self@;
        let ghost triangles = self.triangles();
        let signal: LoggedSignal = match line {
            SignalLine::Blank => {
                self.total_lines = self.total_lines + 1;
                return Ok(());
            },
            SignalLine::Unreadable => {
                self.total_lines = self.total_lines + 1;
                return Ok(());
            },
            SignalLine::Signal(signal) => signal,
        };
        let key: String = name_of_triangle(&signal.triangle_pairs);
        let ghost name = key@;
        let ghost before = self.by_triangle@;
        let stats: Stats = match self.by_triangle.get(key.as_str()) {
            Some(stats) => {
                proof {
                    assert(start.by_triangle.dom().contains(name));
                    assert(start.by_triangle[name] == stats@);
                }
                *stats
            },
            None => Stats::default(),
        };
        match stats.with(&signal) {
            Some(stats) => {
                let mut taken: Analysis = Analysis::new();
                std::mem::swap(self, &mut taken);
                let Analysis { total_lines, parsed_lines, mut by_triangle } = taken;
                by_triangle.insert(key, stats);
                proof {
                    let after = with_line(start, line)->0;
                    assert(stats_views(by_triangle@) =~= after.by_triangle);
                    law_samples_add_up(triangles, start, line, after);
                    assert(triangles.to_set().contains(name) <==> triangles.contains(name));
                }
                *self = Analysis {
                    total_lines: total_lines + 1,
                    parsed_lines: parsed_lines + 1,
                    by_triangle,
                };
                Ok(())
            },
            None => Err(OutOfRange),
        }
    }

    /// The triangles in the order in which they first came, each once.
    pub closed spec fn triangles(&self) -> Seq<Seq<char>> {
        self.by_triangle.order()
    }

    /// How many lines there were, and how many of them were signals.
    pub fn lines(&self) -> (r: (usize, usize))
        ensures
            r.0 == self@.total_lines,
            r.1 == self@.parsed_lines,
            counts_fit(self@),
            adds_up(self.triangles(), self@),
    {
        proof {
            use_type_invariant(self);
        }
        (self.total_lines, self.parsed_lines)
    }

    /// A row for each triangle, in the order in which they first came; `None`
    /// where an average is no number.
    fn unranked_rows(&self) -> (r: Option<Vec<AnalysisRow>>)
        ensures
            self.triangles().no_duplicates(),
            self.triangles().to_set() == self@.by_triangle.dom(),
            match r {
                Some(rows) => {
                    &&& rows@.len() == self.triangles().len()
                    &&& forall|i: int|
                        0 <= i < rows@.len() ==> row_shows(
                            #[trigger] rows@[i],
                            self.triangles()[i],
                            self@.by_triangle[self.triangles()[i]],
                        )
                },
                None => exists|i: int|
                    0 <= i < self.triangles().len() && !has_averages(
                        self@.by_triangle[#[trigger] self.triangles()[i]],
                    ),
            },
    {
        let count: usize = self.by_triangle.len();
        proof {
            assert(self@.by_triangle.dom() =~= self.by_triangle@.dom());
        }
        let mut rows: Vec<AnalysisRow> = Vec::new();
        let mut i: usize = 0;
        while i < count
            invariant
                i <= count,
                count == self.by_triangle.order().len(),
                rows@.len() == i,
                self.triangles().no_duplicates(),
                self.triangles().to_set() == self@.by_triangle.dom(),
                forall|j: int|
                    0 <= j < i ==> row_shows(
                        #[trigger] rows@[j],
                        self.triangles()[j],
                        self@.by_triangle[self.triangles()[j]],
                    ),
            decreases count - i,
        {
            let triangle: &String = self.by_triangle.key_at(i);
            let stats: &Stats = self.by_triangle.value_at(i);
            let ghost name = self.triangles()[i as int];
            proof {
                assert(self@.by_triangle[name] == stats@);
            }
            match (
                avg_decimal(stats.sum_best_profit_bps, stats.samples),
                avg_decimal(stats.sum_hit_rate, stats.samples),
            ) {
                (Some(avg_best_profit_bps), Some(avg_hit_rate)) => {
                    rows.push(
                        AnalysisRow {
                            triangle: triangle.clone(),
                            samples: stats.samples,
                            worthy_samples: stats.worthy_samples,
                            avg_best_profit_bps,
                            max_best_profit_bps: match stats.max_best_profit_bps {
                                Some(max) => max,
                                None => Decimal::zero(),
                            },
                            avg_hit_rate,
                        },
                    );
                },
                _ => {
                    proof {
                        assert(!has_averages(self@.by_triangle[self.triangles()[i as int]]));
                    }
                    return None;
                },
            }
            i = i + 1;
        }
        Some(rows)
    }

    /// A row for each triangle, from the highest average profit on, and the
    /// ranking that they stand in: `order[i]` is the place in
    /// [`Analysis::triangles`] of the triangle of the `i`-th row.
    pub fn rows(&self) -> (r: Option<(Vec<AnalysisRow>, Vec<usize>)>)
        ensures
            self.triangles().no_duplicates(),
            self.triangles().to_set() == self@.by_triangle.dom(),
            match r {
                Some((rows, order)) => {
                    &&& rows@.len() == self.triangles().len()
                    &&& crate::ranking::is_ranking(
                        average_places(self.triangles(), self@.by_triangle),
                        order@,
                    )
                    &&& forall|i: int|
                        0 <= i < rows@.len() ==> order@[i] < self.triangles().len() && row_shows(
                            #[trigger] rows@[i],
                            self.triangles()[order@[i] as int],
                            self@.by_triangle[self.triangles()[order@[i] as int]],
                        )
                },
                None => exists|i: int|
                    0 <= i < self.triangles().len() && !has_averages(
                        self@.by_triangle[#[trigger] self.triangles()[i]],
                    ),
            },
    {
        let unranked: Vec<AnalysisRow> = match self.unranked_rows() {
            Some(rows) => rows,
            None => {
                return None;
            },
        };
        let mut averages: Vec<Decimal> = Vec::new();
        for i in 0..unranked.len()
            invariant
                averages@.len() == i,
                forall|j: int|
                    0 <= j < i ==> #[trigger] averages@[j] == unranked@[j].avg_best_profit_bps,
        {
            averages.push(unranked[i].avg_best_profit_bps);
        }
        let order: Vec<usize> = rank_decimals(&averages);
        let ghost places = crate::ranking::decimal_places(averages@);
        proof {
            assert forall|j: int| 0 <= j < places.len() implies places[j] == average_places(
                self.triangles(),
                self@.by_triangle,
            )[j] by {
                assert(averages@[j] == unranked@[j].avg_best_profit_bps);
                assert(row_shows(
                    unranked@[j],
                    self.triangles()[j],
                    self@.by_triangle[self.triangles()[j]],
                ));
            }
            assert(places =~= average_places(self.triangles(), self@.by_triangle));
        }
        let mut rows: Vec<AnalysisRow> = Vec::new();
        let mut i: usize = 0;
        while i < order.len()
            invariant
                i <= order@.len(),
                rows@.len() == i,
                order@.len() == unranked@.len(),
                unranked@.len() == self.triangles().len(),
                places.len() == unranked@.len(),
                crate::ranking::is_ranking(places, order@),
                forall|j: int|
                    0 <= j < unranked@.len() ==> row_shows(
                        #[trigger] unranked@[j],
                        self.triangles()[j],
                        self@.by_triangle[self.triangles()[j]],
                    ),
                forall|j: int|
                    0 <= j < i ==> row_shows(
                        #[trigger] rows@[j],
                        self.triangles()[order@[j] as int],
                        self@.by_triangle[self.triangles()[order@[j] as int]],
                    ),
            decreases order@.len() - i,
        {
            let at: usize = order[i];
            let row: &AnalysisRow = &unranked[at];
            rows.push(
                AnalysisRow {
                    triangle: row.triangle.clone(),
                    samples: row.samples,
                    worthy_samples: row.worthy_samples,
                    avg_best_profit_bps: row.avg_best_profit_bps,
                    max_best_profit_bps: row.max_best_profit_bps,
                    avg_hit_rate: row.avg_hit_rate,
                },
            );
            i = i + 1;
        }
        Some((rows, order))
    }
}

/// What one more signal does to the figures of its triangle: it counts once, and
/// once more where it is worthy; its profit and its hit rate are added to the
/// sums, and the largest profit is one of those that came, none of which is above
/// it.
pub proof fn law_signal_is_added(stats: StatsView, signal: LoggedSignal)
    ensures
        with_signal(stats, signal) is None <==> crate::decimal::total(
            stats.sum_bps,
            signal.best_profit_bps@,
        ) is None || crate::decimal::total(stats.sum_hit, signal.hit_rate@) is None,
        with_signal(stats, signal) matches Some(after) ==> {
            &&& after.samples == stats.samples + 1
            &&& signal.worthy ==> after.worthy == stats.worthy + 1
            &&& !signal.worthy ==> after.worthy == stats.worthy
            &&& crate::decimal::total(stats.sum_bps, signal.best_profit_bps@) == Some(after.sum_bps)
            &&& crate::decimal::total(stats.sum_hit, signal.hit_rate@) == Some(after.sum_hit)
            &&& after.max_bps is Some
            &&& stats.max_bps is None ==> after.max_bps == Some(signal.best_profit_bps@)
            &&& stats.max_bps is Some ==> {
                let before = stats.max_bps->0;
                let now = after.max_bps->0;
                &&& now == before || now == signal.best_profit_bps@
                &&& crate::decimal::place(before) <= crate::decimal::place(now)
                &&& crate::decimal::place(signal.best_profit_bps@) <= crate::decimal::place(now)
                &&& crate::decimal::place(before) == crate::decimal::place(signal.best_profit_bps@)
                    ==> now == before
            }
        },
{
}

/// Where nothing is rounded, the sums of the figures grow by exactly what a signal
/// says.
pub proof fn law_sums_grow_by_the_signal(stats: StatsView, signal: LoggedSignal)
    requires
        crate::decimal::is_number(stats.sum_bps),
        crate::decimal::is_number(stats.sum_hit),
        crate::decimal::is_number(signal.best_profit_bps@),
        crate::decimal::is_number(signal.hit_rate@),
        crate::decimal::sum_is_exact(
            stats.sum_bps.0,
            stats.sum_bps.1,
            signal.best_profit_bps@.0,
            signal.best_profit_bps@.1,
        ),
        crate::decimal::sum_is_exact(
            stats.sum_hit.0,
            stats.sum_hit.1,
            signal.hit_rate@.0,
            signal.hit_rate@.1,
        ),
    ensures
        with_signal(stats, signal) matches Some(after) && {
            &&& crate::decimal::place(after.sum_bps) == crate::decimal::place(stats.sum_bps)
                + signal.best_profit_bps.amount()
            &&& crate::decimal::place(after.sum_hit) == crate::decimal::place(stats.sum_hit)
                + signal.hit_rate.amount()
        },
{
    crate::decimal::law_fitting_sums_are_exact(stats.sum_bps, signal.best_profit_bps@);
    crate::decimal::law_fitting_sums_are_exact(stats.sum_hit, signal.hit_rate@);
}

/// What one more line does: it counts once, and once more where it holds a signal,
/// which is added to the figures of its own triangle, or to none where that is
/// new. No other line changes any figures, and no figures of others change.
pub proof fn law_line_is_taken_in(state: AnalysisView, line: SignalLine, other: Seq<char>)
    ensures
        !(line is Signal) ==> with_line(state, line) == Some(
            AnalysisView {
                total_lines: state.total_lines + 1,
                parsed_lines: state.parsed_lines,
                by_triangle: state.by_triangle,
            },
        ),
        line matches SignalLine::Signal(signal) ==> {
            let name = signal.triangle_pairs@[0]@ + " -> "@ + signal.triangle_pairs@[1]@ + " -> "@
                + signal.triangle_pairs@[2]@;
            let nothing = StatsView {
                samples: 0,
                worthy: 0,
                sum_bps: (0, 0, false),
                max_bps: None,
                sum_hit: (0, 0, false),
            };
            let before = if state.by_triangle.dom().contains(name) {
                state.by_triangle[name]
            } else {
                nothing
            };
            &&& with_line(state, line) is Some <==> with_signal(before, signal) is Some
            &&& with_line(state, line) matches Some(after) ==> {
                &&& after.total_lines == state.total_lines + 1
                &&& after.parsed_lines == state.parsed_lines + 1
                &&& after.by_triangle.dom() == state.by_triangle.dom().insert(name)
                &&& with_signal(before, signal) == Some(after.by_triangle[name])
                &&& other != name && state.by_triangle.dom().contains(other)
                    ==> after.by_triangle[other] == state.by_triangle[other]
            }
        },
{
    if let SignalLine::Signal(signal) = line {
        if let Some(after) = with_line(state, line) {
            let name = triangle_name(signal.triangle_pairs);
            assert(after.by_triangle.dom() =~= state.by_triangle.dom().insert(name));
        }
    }
}

/// An average times the number of what was summed up is the sum, where it is a
/// decimal number; without anything it is zero.
pub proof fn law_average_makes_up_the_sum(sum: Number, count: nat)
    requires
        crate::decimal::in_range(sum.0, sum.1),
        crate::decimal::in_range(count as int, 0),
    ensures
        count == 0 ==> average(sum, count) == Some((0int, 0int, false)),
        count > 0 ==> average(sum, count) == crate::decimal::quotient(
            sum,
            (count as int, 0, false),
        ),
        count > 0 && crate::decimal::quotient_fits(sum, (count as int, 0, false)) ==> (average(
            sum,
            count,
        ) matches Some(a) && crate::decimal::place(a) * count == crate::decimal::place(sum)),
{
    let n = (count as int, 0int, false);
    if count > 0 && crate::decimal::quotient_fits(sum, n) {
        crate::decimal::law_fitting_quotients_are_exact(sum, n);
        crate::decimal::law_whole_numbers(count as int);
        let u = crate::decimal::pow10(crate::decimal::MAX_SCALE as nat);
        let a = crate::decimal::place(average(sum, count)->0);
        let s = crate::decimal::place(sum);
        let c = count as int;
        assert(a * c == s) by (nonlinear_arith)
            requires
                a * (c * u) == s * u,
                u > 0,
        ;
    }
}

/// What a row says of a triangle: its name, how many signals it had and how many
/// were worthy, both sums over the number of signals, and the largest profit.
pub proof fn law_row_tells_the_figures(row: AnalysisRow, name: Seq<char>, stats: StatsView)
    requires
        row_shows(row, name, stats),
        stats.samples > 0,
    ensures
        row.triangle@ == name,
        row.samples == stats.samples,
        row.worthy_samples == stats.worthy,
        crate::decimal::quotient(stats.sum_bps, (stats.samples as int, 0, false)) == Some(
            row.avg_best_profit_bps@,
        ),
        crate::decimal::quotient(stats.sum_hit, (stats.samples as int, 0, false)) == Some(
            row.avg_hit_rate@,
        ),
        stats.max_bps is Some ==> row.max_best_profit_bps@ == stats.max_bps->0,
{
}

/// The triangles of a log are ranked by the average profits of the triangles
/// themselves, place by place.
pub proof fn law_triangles_are_ranked_by_average(
    names: Seq<Seq<char>>,
    by_triangle: Map<Seq<char>, StatsView>,
    i: int,
)
    requires
        0 <= i < names.len(),
        by_triangle[names[i]].samples > 0,
    ensures
        average_places(names, by_triangle).len() == names.len(),
        average_places(names, by_triangle)[i] == crate::decimal::place(
            crate::decimal::quotient(
                by_triangle[names[i]].sum_bps,
                (by_triangle[names[i]].samples as int, 0, false),
            )->0,
        ),
{
}

/// The list of triangles grows by a triangle whose first signal came, at its end,
/// and by nothing else.
pub proof fn law_new_triangles_come_last(triangles: Seq<Seq<char>>, line: SignalLine)
    ensures
        line matches SignalLine::Signal(signal) ==> {
            let name = signal.triangle_pairs@[0]@ + " -> "@ + signal.triangle_pairs@[1]@ + " -> "@
                + signal.triangle_pairs@[2]@;
            &&& triangles.contains(name) ==> triangles_after(triangles, line) == triangles
            &&& !triangles.contains(name) ==> triangles_after(triangles, line) == triangles.push(
                name,
            )
        },
        !(line is Signal) ==> triangles_after(triangles, line) == triangles,
{
}

/// A triangle has its averages exactly where both sums can be divided by the number
/// of its signals.
pub proof fn law_averages_are_owed(stats: StatsView)
    requires
        stats.samples > 0,
    ensures
        has_averages(stats) <==> crate::decimal::quotient(
            stats.sum_bps,
            (stats.samples as int, 0, false),
        ) is Some && crate::decimal::quotient(
            stats.sum_hit,
            (stats.samples as int, 0, false),
        ) is Some,
{
}

} // verus!
