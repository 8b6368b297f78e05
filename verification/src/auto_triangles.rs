//! Making triangles from a list of assets and the symbols of the exchange.

use vstd::prelude::*;

use crate::config::{AutoTriangleGenerationConfig, PairRuleConfig, PairRuleView, TriangleConfig};
use crate::decimal::Decimal;
use crate::names::{add_name, sorted_copy};
use crate::text::{lowercase, same_string, same_text, text_precedes, trim};
use crate::text_map::TextMap;

verus! {

/// Three names in order.
pub type Names = (Seq<char>, Seq<char>, Seq<char>);

/// The names in an array.
pub open spec fn names_of(names: [String; 3]) -> Names {
    (names@[0]@, names@[1]@, names@[2]@)
}

/// The names of a triangle.
pub struct TriangleView {
    pub parts: Names,
    pub pairs: Names,
}

impl View for TriangleConfig {
    type V = TriangleView;

    open spec fn view(&self) -> TriangleView {
        TriangleView { parts: names_of(self.parts), pairs: names_of(self.pairs) }
    }
}

/// A demand of the exchange, by the texts under its keys.
#[derive(Debug)]
pub struct SymbolFilter {
    pub fields: TextMap<String>,
}

/// A symbol of the exchange.
#[derive(Debug)]
pub struct BinanceSymbol {
    pub symbol: String,
    pub status: String,
    pub base_asset: String,
    pub quote_asset: String,
    pub is_spot_trading_allowed: bool,
    pub filters: Vec<SymbolFilter>,
}

/// The number under a key of a demand.
pub open spec fn filter_number(filter: SymbolFilter, key: Seq<char>) -> Option<crate::decimal::Number> {
    if filter.fields@.dom().contains(key) {
        crate::decimal::number_in_text(filter.fields@[key]@)
    } else {
        None
    }
}

/// The number under a key of a demand.
pub fn parse_filter_num(filter: &SymbolFilter, key: &str) -> (r: Option<Decimal>)
    ensures
        crate::decimal::number(r) == filter_number(*filter, key@),
{
    match filter.fields.get(key) {
        Some(text) => Decimal::parse(text.as_str()),
        None => None,
    }
}

/// What is demanded of orders on a pair, once a demand is added to it.
pub open spec fn with_filter(rule: PairRuleView, filter: SymbolFilter) -> PairRuleView {
    let fields = filter.fields@;
    if !fields.dom().contains("filterType"@) {
        rule
    } else if fields["filterType"@]@ == "LOT_SIZE"@ {
        PairRuleView {
            min_qty: filter_number(filter, "minQty"@),
            qty_step: filter_number(filter, "stepSize"@),
            ..rule
        }
    } else if fields["filterType"@]@ == "MIN_NOTIONAL"@ {
        PairRuleView { min_notional: filter_number(filter, "minNotional"@), ..rule }
    } else if fields["filterType"@]@ == "NOTIONAL"@ && rule.min_notional is None {
        PairRuleView { min_notional: filter_number(filter, "minNotional"@), ..rule }
    } else {
        rule
    }
}

/// What the demands of the exchange come to.
pub open spec fn rule_of(filters: Seq<SymbolFilter>) -> PairRuleView
    decreases filters.len(),
{
    if filters.len() == 0 {
        PairRuleView { fee_bps: None, qty_step: None, min_qty: None, min_notional: None }
    } else {
        with_filter(rule_of(filters.drop_last()), filters.last())
    }
}

/// What the demands of the exchange come to.
pub fn pair_rule_from_filters(filters: &[SymbolFilter]) -> (r: PairRuleConfig)
    ensures
        r@ == rule_of(filters@),
{
    let mut pair_rule: PairRuleConfig = PairRuleConfig::default();
    for i in 0..filters.len()
        invariant
            pair_rule@ == rule_of(filters@.take(i as int)),
    {
        proof {
            assert(filters@.take(i + 1).drop_last() =~= filters@.take(i as int));
            assert(filters@.take(i + 1).last() == filters@[i as int]);
        }
        let filter: &SymbolFilter = &filters[i];
        if let Some(filter_type) = filter.fields.get("filterType") {
            if same_text(filter_type.as_str(), "LOT_SIZE") {
                pair_rule.min_qty = parse_filter_num(filter, "minQty");
                pair_rule.qty_step = parse_filter_num(filter, "stepSize");
            } else if same_text(filter_type.as_str(), "MIN_NOTIONAL") {
                pair_rule.min_notional = parse_filter_num(filter, "minNotional");
            } else if same_text(filter_type.as_str(), "NOTIONAL") {
                if pair_rule.min_notional.is_none() {
                    pair_rule.min_notional = parse_filter_num(filter, "minNotional");
                }
            }
        }
    }
    proof {
        assert(filters@.take(filters@.len() as int) =~= filters@);
    }
    pair_rule
}

/// Two names in their order.
pub open spec fn in_order(a: Seq<char>, b: Seq<char>) -> (Seq<char>, Seq<char>) {
    if crate::text::comes_before(b, a) {
        (b, a)
    } else {
        (a, b)
    }
}

/// Two names in their order: the same for both ways round.
pub fn unordered_key(a: &str, b: &str) -> (r: (String, String))
    ensures
        (r.0@, r.1@) == in_order(a@, b@),
{
    if text_precedes(b, a) {
        (b.to_owned(), a.to_owned())
    } else {
        (a.to_owned(), b.to_owned())
    }
}

/// A symbol that trades two assets for each other.
#[derive(Debug)]
pub struct PairEdge {
    key: (String, String),
    symbol: String,
    pair_rule: PairRuleConfig,
}

/// What an edge says.
pub struct EdgeView {
    pub key: (Seq<char>, Seq<char>),
    pub symbol: Seq<char>,
    pub pair_rule: PairRuleView,
}

impl View for PairEdge {
    type V = EdgeView;

    closed spec fn view(&self) -> EdgeView {
        EdgeView {
            key: (self.key.0@, self.key.1@),
            symbol: self.symbol@,
            pair_rule: self.pair_rule@,
        }
    }
}

/// What a list of edges says.
pub open spec fn edges_of(edges: Seq<PairEdge>) -> Seq<EdgeView> {
    edges.map_values(|e: PairEdge| e@)
}

/// The edge with a key.
pub open spec fn edge_with_key(edges: Seq<EdgeView>, key: (Seq<char>, Seq<char>)) -> Option<EdgeView>
    decreases edges.len(),
{
    if edges.len() == 0 {
        None
    } else if edges[0].key == key {
        Some(edges[0])
    } else {
        edge_with_key(edges.drop_first(), key)
    }
}

/// The edge between two assets.
pub open spec fn edge_between(edges: Seq<EdgeView>, a: Seq<char>, b: Seq<char>) -> Option<EdgeView> {
    edge_with_key(edges, in_order(a, b))
}

/// The first edge with a symbol.
pub open spec fn edge_with_symbol(edges: Seq<EdgeView>, symbol: Seq<char>) -> Option<EdgeView>
    decreases edges.len(),
{
    if edges.len() == 0 {
        None
    } else if edges[0].symbol == symbol {
        Some(edges[0])
    } else {
        edge_with_symbol(edges.drop_first(), symbol)
    }
}

fn find_edge<'a>(pair_edges: &'a Vec<PairEdge>, key: &(String, String)) -> (r: Option<&'a PairEdge>)
    ensures
        match r {
            Some(edge) => edge_with_key(edges_of(pair_edges@), (key.0@, key.1@)) == Some(edge@),
            None => edge_with_key(edges_of(pair_edges@), (key.0@, key.1@)) is None,
        },
{
    let ghost all = edges_of(pair_edges@);
    let ghost wanted = (key.0@, key.1@);
    let mut i: usize = 0;
    proof {
        assert(all.skip(0) =~= all);
    }
    while i < pair_edges.len()
        invariant
            i <= pair_edges@.len(),
            all == edges_of(pair_edges@),
            wanted == (key.0@, key.1@),
            edge_with_key(all, wanted) == edge_with_key(all.skip(i as int), wanted),
        decreases pair_edges@.len() - i,
    {
        let edge: &PairEdge = &pair_edges[i];
        proof {
            assert(all.skip(i as int)[0] == edge@);
            assert(all.skip(i as int).drop_first() =~= all.skip(i + 1));
        }
        if same_string(&edge.key.0, &key.0) && same_string(&edge.key.1, &key.1) {
            return Some(edge);
        }
        i = i + 1;
    }
    None
}

/// The first edge with a symbol.
pub fn find_edge_by_symbol<'a>(pair_edges: &'a Vec<PairEdge>, symbol: &String) -> (r: Option<
    &'a PairEdge,
>)
    ensures
        match r {
            Some(edge) => edge_with_symbol(edges_of(pair_edges@), symbol@) == Some(edge@),
            None => edge_with_symbol(edges_of(pair_edges@), symbol@) is None,
        },
{
    let ghost all = edges_of(pair_edges@);
    let mut i: usize = 0;
    proof {
        assert(all.skip(0) =~= all);
    }
    while i < pair_edges.len()
        invariant
            i <= pair_edges@.len(),
            all == edges_of(pair_edges@),
            edge_with_symbol(all, symbol@) == edge_with_symbol(all.skip(i as int), symbol@),
        decreases pair_edges@.len() - i,
    {
        let edge: &PairEdge = &pair_edges[i];
        proof {
            assert(all.skip(i as int)[0] == edge@);
            assert(all.skip(i as int).drop_first() =~= all.skip(i + 1));
        }
        if same_string(&edge.symbol, symbol) {
            return Some(edge);
        }
        i = i + 1;
    }
    None
}

/// Whether there is an edge between two assets.
pub fn has_pair(pair_edges: &Vec<PairEdge>, a: &str, b: &str) -> (r: bool)
    ensures
        r == (edge_between(edges_of(pair_edges@), a@, b@) is Some),
{
    find_edge(pair_edges, &unordered_key(a, b)).is_some()
}

/// The symbol that trades two assets for each other.
pub fn pair_for_assets(pair_edges: &Vec<PairEdge>, a: &str, b: &str) -> (r: Option<String>)
    ensures
        match r {
            Some(symbol) => edge_between(edges_of(pair_edges@), a@, b@) matches Some(edge)
                && edge.symbol == symbol@,
            None => edge_between(edges_of(pair_edges@), a@, b@) is None,
        },
{
    match find_edge(pair_edges, &unordered_key(a, b)) {
        Some(edge) => Some(edge.symbol.clone()),
        None => None,
    }
}

/// The order of the assets that a triangle is walked in, from a start that is
/// a number of places further on.
pub open spec fn rotated(order: Names, shift: int) -> Names {
    if shift % 3 == 0 {
        order
    } else if shift % 3 == 1 {
        (order.1, order.2, order.0)
    } else {
        (order.2, order.0, order.1)
    }
}

/// An order of assets, walked from a start that is a number of places further
/// on.
pub fn rotate3(order: &[String; 3], shift: usize) -> (r: [String; 3])
    ensures
        names_of(r) == rotated(names_of(*order), shift as int),
{
    if shift % 3 == 0 {
        [order[0].clone(), order[1].clone(), order[2].clone()]
    } else if shift % 3 == 1 {
        [order[1].clone(), order[2].clone(), order[0].clone()]
    } else {
        [order[2].clone(), order[0].clone(), order[1].clone()]
    }
}

/// The triangle that an order of assets makes: each pair trades an asset for
/// the one that follows it.
pub open spec fn triangle_of(order: Names, edges: Seq<EdgeView>) -> Option<TriangleView> {
    match (
        edge_between(edges, order.0, order.1),
        edge_between(edges, order.1, order.2),
        edge_between(edges, order.2, order.0),
    ) {
        (Some(first), Some(second), Some(third)) => Some(
            TriangleView { parts: order, pairs: (first.symbol, second.symbol, third.symbol) },
        ),
        _ => None,
    }
}

/// The triangle that an order of assets makes.
pub fn triangle_config_from_order(order: &[String; 3], pair_edges: &Vec<PairEdge>) -> (r: Option<
    TriangleConfig,
>)
    ensures
        match r {
            Some(triangle) => triangle_of(names_of(*order), edges_of(pair_edges@)) == Some(triangle@),
            None => triangle_of(names_of(*order), edges_of(pair_edges@)) is None,
        },
{
    let p1: String = match pair_for_assets(pair_edges, order[0].as_str(), order[1].as_str()) {
        Some(pair) => pair,
        None => {
            return None;
        },
    };
    let p2: String = match pair_for_assets(pair_edges, order[1].as_str(), order[2].as_str()) {
        Some(pair) => pair,
        None => {
            return None;
        },
    };
    let p3: String = match pair_for_assets(pair_edges, order[2].as_str(), order[0].as_str()) {
        Some(pair) => pair,
        None => {
            return None;
        },
    };
    Some(
        TriangleConfig {
            parts: [order[0].clone(), order[1].clone(), order[2].clone()],
            pairs: [p1, p2, p3],
        },
    )
}

/// Three names with bars between them.
pub open spec fn barred(names: Names) -> Seq<char> {
    names.0 + "|"@ + names.1 + "|"@ + names.2
}

/// The text by which triangles are told apart.
pub open spec fn key_of(triangle: TriangleView) -> Seq<char> {
    barred(triangle.parts) + "::"@ + barred(triangle.pairs)
}

fn barred_text(names: &[String; 3]) -> (r: String)
    ensures
        r@ == barred(names_of(*names)),
{
    let mut out: String = names[0].clone();
    out.append("|");
    out.append(names[1].as_str());
    out.append("|");
    out.append(names[2].as_str());
    out
}

/// The text by which triangles are told apart.
pub fn triangle_key(triangle: &TriangleConfig) -> (r: String)
    ensures
        r@ == key_of(triangle@),
{
    let mut out: String = barred_text(&triangle.parts);
    out.append("::");
    out.append(barred_text(&triangle.pairs).as_str());
    out
}

/// The orders in which a cycle is walked.
pub open spec fn starts(cycle: Names, all_starts: bool) -> Seq<Names> {
    if all_starts {
        seq![cycle, rotated(cycle, 1), rotated(cycle, 2)]
    } else {
        seq![cycle]
    }
}

/// The orders in which three assets are walked.
pub open spec fn orders(
    a: Seq<char>,
    b: Seq<char>,
    c: Seq<char>,
    reverse: bool,
    all_starts: bool,
) -> Seq<Names> {
    starts((a, b, c), all_starts) + if reverse {
        starts((a, c, b), all_starts)
    } else {
        Seq::empty()
    }
}

/// Whether three assets are all traded for each other.
pub open spec fn all_traded(edges: Seq<EdgeView>, a: Seq<char>, b: Seq<char>, c: Seq<char>) -> bool {
    edge_between(edges, a, b) is Some && edge_between(edges, b, c) is Some && edge_between(
        edges,
        c,
        a,
    ) is Some
}

/// How triangles are made: from which edges, and which ways round.
pub struct Making {
    pub edges: Seq<EdgeView>,
    pub reverse: bool,
    pub all_starts: bool,
}

/// The orders of three assets that are tried.
pub open spec fn tried(making: Making, a: Seq<char>, b: Seq<char>, c: Seq<char>) -> Seq<Names> {
    if all_traded(making.edges, a, b, c) {
        orders(a, b, c, making.reverse, making.all_starts)
    } else {
        Seq::empty()
    }
}

/// The orders with the first two names at `i` and `j` and the third from `k` on.
pub open spec fn tried_thirds(making: Making, names: Seq<Seq<char>>, i: int, j: int, k: int) -> Seq<
    Names,
>
    decreases names.len() - k,
{
    if k >= names.len() {
        Seq::empty()
    } else {
        tried(making, names[i], names[j], names[k]) + tried_thirds(making, names, i, j, k + 1)
    }
}

/// The orders with the first name at `i` and the second from `j` on.
pub open spec fn tried_seconds(making: Making, names: Seq<Seq<char>>, i: int, j: int) -> Seq<Names>
    decreases names.len() - j,
{
    if j >= names.len() {
        Seq::empty()
    } else {
        tried_thirds(making, names, i, j, j + 1) + tried_seconds(making, names, i, j + 1)
    }
}

/// The orders with the first name from `i` on.
pub open spec fn tried_firsts(making: Making, names: Seq<Seq<char>>, i: int) -> Seq<Names>
    decreases names.len() - i,
{
    if i >= names.len() {
        Seq::empty()
    } else {
        tried_seconds(making, names, i, i + 1) + tried_firsts(making, names, i + 1)
    }
}

/// Whether a list has a triangle with a key.
pub open spec fn has_key(triangles: Seq<TriangleView>, key: Seq<char>) -> bool {
    exists|i: int| 0 <= i < triangles.len() && key_of(#[trigger] triangles[i]) == key
}

/// A list with the triangle of one more order, where it makes a new one.
pub open spec fn with_order(
    triangles: Seq<TriangleView>,
    order: Names,
    edges: Seq<EdgeView>,
) -> Seq<TriangleView> {
    match triangle_of(order, edges) {
        Some(triangle) => if has_key(triangles, key_of(triangle)) {
            triangles
        } else {
            triangles.push(triangle)
        },
        None => triangles,
    }
}

/// The triangles that orders make, each once.
pub open spec fn made(orders: Seq<Names>, edges: Seq<EdgeView>) -> Seq<TriangleView>
    decreases orders.len(),
{
    if orders.len() == 0 {
        Seq::empty()
    } else {
        with_order(made(orders.drop_last(), edges), orders.last(), edges)
    }
}

/// The order of three names: by the first that differs.
pub open spec fn names_before(a: Names, b: Names) -> bool {
    if a.0 != b.0 {
        crate::text::comes_before(a.0, b.0)
    } else if a.1 != b.1 {
        crate::text::comes_before(a.1, b.1)
    } else {
        crate::text::comes_before(a.2, b.2)
    }
}

/// The order of triangles: by their assets, and by their pairs where those are
/// the same.
pub open spec fn triangle_before(a: TriangleView, b: TriangleView) -> bool {
    if a.parts != b.parts {
        names_before(a.parts, b.parts)
    } else {
        names_before(a.pairs, b.pairs)
    }
}

/// A sorted list with one more triangle in it.
pub open spec fn with_triangle(triangles: Seq<TriangleView>, triangle: TriangleView) -> Seq<TriangleView>
    decreases triangles.len(),
{
    if triangles.len() == 0 || !triangle_before(triangle, triangles.last()) {
        triangles.push(triangle)
    } else {
        with_triangle(triangles.drop_last(), triangle).push(triangles.last())
    }
}

/// Triangles in their order.
pub open spec fn sorted_triangles(triangles: Seq<TriangleView>) -> Seq<TriangleView>
    decreases triangles.len(),
{
    if triangles.len() == 0 {
        Seq::empty()
    } else {
        with_triangle(sorted_triangles(triangles.drop_last()), triangles.last())
    }
}

/// What a list of triangles says.
pub open spec fn triangles_of(triangles: Seq<TriangleConfig>) -> Seq<TriangleView> {
    triangles.map_values(|t: TriangleConfig| t@)
}

/// The triangles of a list of assets, each once and in order.
pub open spec fn all_triangles(assets: Seq<Seq<char>>, making: Making) -> Seq<TriangleView> {
    sorted_triangles(made(tried_firsts(making, crate::names::sorted_names(assets), 0), making.edges))
}

fn names_precede(a: &[String; 3], b: &[String; 3]) -> (r: bool)
    ensures
        r == names_before(names_of(*a), names_of(*b)),
{
    if !same_string(&a[0], &b[0]) {
        text_precedes(a[0].as_str(), b[0].as_str())
    } else if !same_string(&a[1], &b[1]) {
        text_precedes(a[1].as_str(), b[1].as_str())
    } else {
        text_precedes(a[2].as_str(), b[2].as_str())
    }
}

fn same_names(a: &[String; 3], b: &[String; 3]) -> (r: bool)
    ensures
        r == (names_of(*a) == names_of(*b)),
{
    same_string(&a[0], &b[0]) && same_string(&a[1], &b[1]) && same_string(&a[2], &b[2])
}

fn triangle_precedes(a: &TriangleConfig, b: &TriangleConfig) -> (r: bool)
    ensures
        r == triangle_before(a@, b@),
{
    if !same_names(&a.parts, &b.parts) {
        names_precede(&a.parts, &b.parts)
    } else {
        names_precede(&a.pairs, &b.pairs)
    }
}

/// Puts a triangle into a sorted list.
fn insert_triangle(triangles: &mut Vec<TriangleConfig>, triangle: TriangleConfig)
    ensures
        triangles_of(final(triangles)@) == with_triangle(triangles_of(old(triangles)@), triangle@),
{
    let ghost list = triangles_of(triangles@);
    let ghost items = triangles@;
    let ghost view = triangle@;
    let mut i: usize = triangles.len();
    proof {
        assert(with_triangle(list, view) + list.skip(i as int) =~= with_triangle(list, view));
        assert(list.take(i as int) =~= list);
    }
    while i > 0 && triangle_precedes(&triangle, &triangles[i - 1])
        invariant
            i <= triangles@.len(),
            triangles@ == items,
            list == triangles_of(triangles@),
            view == triangle@,
            with_triangle(list, view) == with_triangle(list.take(i as int), view) + list.skip(i as int),
        decreases i,
    {
        proof {
            let part = list.take(i as int);
            assert(part.last() == triangles@[i - 1]@);
            assert(part.drop_last() =~= list.take(i - 1));
            assert(with_triangle(list.take(i - 1), view).push(part.last()) + list.skip(i as int)
                =~= with_triangle(list.take(i - 1), view) + list.skip(i - 1));
        }
        i = i - 1;
    }
    proof {
        if i > 0 {
            assert(list.take(i as int).last() == triangles@[i - 1]@);
        }
    }
    triangles.insert(i, triangle);
    proof {
        assert(triangles_of(triangles@) =~= list.take(i as int).push(view) + list.skip(i as int));
    }
}

/// The triangles of a list in their order.
fn sort_triangles(triangles: Vec<TriangleConfig>) -> (r: Vec<TriangleConfig>)
    ensures
        triangles_of(r@) == sorted_triangles(triangles_of(triangles@)),
{
    let ghost items = triangles@;
    let ghost all = triangles_of(triangles@);
    let mut out: Vec<TriangleConfig> = Vec::new();
    proof {
        assert(triangles_of(out@) =~= sorted_triangles(all.take(0)));
    }
    for triangle in it: triangles
        invariant
            it.seq() == items,
            all == triangles_of(items),
            triangles_of(out@) == sorted_triangles(all.take(it.index() as int)),
    {
        proof {
            let i = it.index() as int;
            assert(all.take(i + 1).drop_last() =~= all.take(i));
            assert(all.take(i + 1).last() == triangle@);
        }
        insert_triangle(&mut out, triangle);
    }
    proof {
        assert(all.take(all.len() as int) =~= all);
    }
    out
}

/// The keys of a list of triangles.
spec fn keys_of(triangles: Seq<TriangleView>) -> Seq<Seq<char>> {
    triangles.map_values(|t: TriangleView| key_of(t))
}

/// Adds the triangle of an order, where it makes a new one.
fn add_order(
    triangles: &mut Vec<TriangleConfig>,
    seen: &mut Vec<String>,
    order: &[String; 3],
    pair_edges: &Vec<PairEdge>,
)
    requires
        crate::text::texts(old(seen)@) == keys_of(triangles_of(old(triangles)@)),
    ensures
        triangles_of(final(triangles)@) == with_order(
            triangles_of(old(triangles)@),
            names_of(*order),
            edges_of(pair_edges@),
        ),
        crate::text::texts(final(seen)@) == keys_of(triangles_of(final(triangles)@)),
{
    let triangle: TriangleConfig = match triangle_config_from_order(order, pair_edges) {
        Some(triangle) => triangle,
        None => {
            return;
        },
    };
    let key: String = triangle_key(&triangle);
    let ghost list = triangles_of(triangles@);
    let ghost keys = crate::text::texts(seen@);
    let mut i: usize = 0;
    while i < seen.len()
        invariant
            i <= seen@.len(),
            list == triangles_of(triangles@),
            keys == crate::text::texts(seen@),
            keys == keys_of(list),
            key@ == key_of(triangle@),
            triangles@ == old(triangles)@,
            seen@ == old(seen)@,
            triangle_of(names_of(*order), edges_of(pair_edges@)) == Some(triangle@),
            forall|j: int| 0 <= j < i ==> key_of(#[trigger] list[j]) != key@,
        decreases seen@.len() - i,
    {
        proof {
            assert(keys[i as int] == seen@[i as int]@);
            assert(keys_of(list).len() == list.len());
            assert(keys_of(list)[i as int] == key_of(list[i as int]));
        }
        if same_string(&seen[i], &key) {
            proof {
                assert(has_key(list, key@));
            }
            return;
        }
        i = i + 1;
    }
    proof {
        assert(list.len() == keys.len());
        assert(!has_key(list, key@));
    }
    let ghost view = triangle@;
    seen.push(key);
    triangles.push(triangle);
    proof {
        assert(triangles_of(triangles@) =~= list.push(view));
        assert(keys_of(list).len() == list.len());
        assert(crate::text::texts(seen@) =~= keys.push(key_of(view)));
        assert(keys_of(list.push(view)) =~= keys_of(list).push(key_of(view)));
    }
}

proof fn lemma_made_push(done: Seq<Names>, order: Names, edges: Seq<EdgeView>)
    ensures
        made(done.push(order), edges) == with_order(made(done, edges), order, edges),
{
    assert(done.push(order).drop_last() =~= done);
}

/// Adds the triangles of a cycle.
fn add_cycle(
    triangles: &mut Vec<TriangleConfig>,
    seen: &mut Vec<String>,
    cycle: &[String; 3],
    all_starts: bool,
    pair_edges: &Vec<PairEdge>,
    done: Ghost<Seq<Names>>,
)
    requires
        crate::text::texts(old(seen)@) == keys_of(triangles_of(old(triangles)@)),
        triangles_of(old(triangles)@) == made(done@, edges_of(pair_edges@)),
    ensures
        crate::text::texts(final(seen)@) == keys_of(triangles_of(final(triangles)@)),
        triangles_of(final(triangles)@) == made(
            done@ + starts(names_of(*cycle), all_starts),
            edges_of(pair_edges@),
        ),
{
    let ghost edges = edges_of(pair_edges@);
    let ghost names = names_of(*cycle);
    let ghost after = done@.push(names).push(rotated(names, 1)).push(rotated(names, 2));
    proof {
        lemma_made_push(done@, names, edges);
        lemma_made_push(done@.push(names), rotated(names, 1), edges);
        lemma_made_push(done@.push(names).push(rotated(names, 1)), rotated(names, 2), edges);
        assert(done@ + starts(names, true) =~= after);
        assert(done@ + starts(names, false) =~= done@.push(names));
    }
    if all_starts {
        add_order(triangles, seen, &rotate3(cycle, 0), pair_edges);
        add_order(triangles, seen, &rotate3(cycle, 1), pair_edges);
        add_order(triangles, seen, &rotate3(cycle, 2), pair_edges);
    } else {
        add_order(triangles, seen, cycle, pair_edges);
    }
}

/// Adds the triangles of three assets.
fn add_three(
    triangles: &mut Vec<TriangleConfig>,
    seen: &mut Vec<String>,
    a: &String,
    b: &String,
    c: &String,
    auto_cfg: &AutoTriangleGenerationConfig,
    pair_edges: &Vec<PairEdge>,
    done: Ghost<Seq<Names>>,
)
    requires
        crate::text::texts(old(seen)@) == keys_of(triangles_of(old(triangles)@)),
        triangles_of(old(triangles)@) == made(done@, edges_of(pair_edges@)),
    ensures
        crate::text::texts(final(seen)@) == keys_of(triangles_of(final(triangles)@)),
        triangles_of(final(triangles)@) == made(
            done@ + tried(making_of(*auto_cfg, edges_of(pair_edges@)), a@, b@, c@),
            edges_of(pair_edges@),
        ),
{
    let ghost making = making_of(*auto_cfg, edges_of(pair_edges@));
    if !has_pair(pair_edges, a.as_str(), b.as_str()) || !has_pair(
        pair_edges,
        b.as_str(),
        c.as_str(),
    ) || !has_pair(pair_edges, c.as_str(), a.as_str()) {
        proof {
            assert(done@ + tried(making, a@, b@, c@) =~= done@);
        }
        return;
    }
    let forth: [String; 3] = [a.clone(), b.clone(), c.clone()];
    add_cycle(triangles, seen, &forth, auto_cfg.include_all_starts, pair_edges, done);
    let ghost there = done@ + starts((a@, b@, c@), making.all_starts);
    if auto_cfg.include_reverse_cycles {
        let back: [String; 3] = [a.clone(), c.clone(), b.clone()];
        add_cycle(triangles, seen, &back, auto_cfg.include_all_starts, pair_edges, Ghost(there));
        proof {
            assert(done@ + tried(making, a@, b@, c@) =~= there + starts(
                (a@, c@, b@),
                making.all_starts,
            ));
        }
    } else {
        proof {
            assert(done@ + tried(making, a@, b@, c@) =~= there);
        }
    }
}

/// How a configuration has triangles made.
pub open spec fn making_of(config: AutoTriangleGenerationConfig, edges: Seq<EdgeView>) -> Making {
    Making {
        edges,
        reverse: config.include_reverse_cycles,
        all_starts: config.include_all_starts,
    }
}

/// The triangles of a list of assets, each once and in order.
pub fn enumerate_triangles(
    assets: &[String],
    auto_cfg: &AutoTriangleGenerationConfig,
    pair_edges: &Vec<PairEdge>,
) -> (r: Vec<TriangleConfig>)
    ensures
        triangles_of(r@) == all_triangles(
            crate::text::texts(assets@),
            making_of(*auto_cfg, edges_of(pair_edges@)),
        ),
{
    let names: Vec<String> = sorted_copy(assets);
    let ghost list = crate::text::texts(names@);
    let ghost edges = edges_of(pair_edges@);
    let ghost making = making_of(*auto_cfg, edges);
    let ghost total = tried_firsts(making, list, 0);
    let ghost mut done = Seq::<Names>::empty();
    let mut triangles: Vec<TriangleConfig> = Vec::new();
    let mut seen: Vec<String> = Vec::new();
    let mut i: usize = 0;
    proof {
        assert(done + total =~= total);
        assert(triangles_of(triangles@) =~= made(done, edges));
        assert(crate::text::texts(seen@) =~= keys_of(triangles_of(triangles@)));
    }
    while i < names.len()
        invariant
            i <= names@.len(),
            list == crate::text::texts(names@),
            edges == edges_of(pair_edges@),
            making == making_of(*auto_cfg, edges),
            total == tried_firsts(making, list, 0),
            crate::text::texts(seen@) == keys_of(triangles_of(triangles@)),
            triangles_of(triangles@) == made(done, edges),
            total == done + tried_firsts(making, list, i as int),
        decreases names@.len() - i,
    {
        let ghost after_i = tried_firsts(making, list, i + 1);
        let mut j: usize = i + 1;
        proof {
            assert(total =~= done + tried_seconds(making, list, i as int, j as int) + after_i);
        }
        while j < names.len()
            invariant
                i < j <= names@.len(),
                list == crate::text::texts(names@),
                edges == edges_of(pair_edges@),
                making == making_of(*auto_cfg, edges),
                crate::text::texts(seen@) == keys_of(triangles_of(triangles@)),
                triangles_of(triangles@) == made(done, edges),
                total == done + tried_seconds(making, list, i as int, j as int) + after_i,
            decreases names@.len() - j,
        {
            let ghost after_j = tried_seconds(making, list, i as int, j + 1);
            let mut k: usize = j + 1;
            proof {
                assert(total =~= done + tried_thirds(making, list, i as int, j as int, k as int)
                    + after_j + after_i);
            }
            while k < names.len()
                invariant
                    i < j < k <= names@.len(),
                    list == crate::text::texts(names@),
                    edges == edges_of(pair_edges@),
                    making == making_of(*auto_cfg, edges),
                    crate::text::texts(seen@) == keys_of(triangles_of(triangles@)),
                    triangles_of(triangles@) == made(done, edges),
                    total == done + tried_thirds(making, list, i as int, j as int, k as int)
                        + after_j + after_i,
                decreases names@.len() - k,
            {
                add_three(
                    &mut triangles,
                    &mut seen,
                    &names[i],
                    &names[j],
                    &names[k],
                    auto_cfg,
                    pair_edges,
                    Ghost(done),
                );
                proof {
                    let now = tried(making, list[i as int], list[j as int], list[k as int]);
                    assert(total =~= (done + now) + tried_thirds(
                        making,
                        list,
                        i as int,
                        j as int,
                        k + 1,
                    ) + after_j + after_i);
                    done = done + now;
                }
                k = k + 1;
            }
            proof {
                assert(total =~= done + after_j + after_i);
            }
            j = j + 1;
        }
        proof {
            assert(total =~= done + after_i);
        }
        i = i + 1;
    }
    proof {
        assert(total =~= done);
    }
    sort_triangles(triangles)
}

/// Whether a symbol can join two of the assets.
pub open spec fn usable(symbol: BinanceSymbol, assets: Seq<Seq<char>>) -> bool {
    let base = crate::text::lowered(symbol.base_asset@);
    let quote = crate::text::lowered(symbol.quote_asset@);
    &&& symbol.status@ == "TRADING"@
    &&& symbol.is_spot_trading_allowed
    &&& assets.contains(base)
    &&& assets.contains(quote)
    &&& base != quote
}

/// The edge that a symbol makes.
pub open spec fn edge_from(symbol: BinanceSymbol) -> EdgeView {
    EdgeView {
        key: in_order(
            crate::text::lowered(symbol.base_asset@),
            crate::text::lowered(symbol.quote_asset@),
        ),
        symbol: crate::text::lowered(symbol.symbol@),
        pair_rule: rule_of(symbol.filters@),
    }
}

/// The edges between assets: of the symbols that join the same two, the first.
pub open spec fn edges_from(symbols: Seq<BinanceSymbol>, assets: Seq<Seq<char>>) -> Seq<EdgeView>
    decreases symbols.len(),
{
    if symbols.len() == 0 {
        Seq::empty()
    } else {
        let before = edges_from(symbols.drop_last(), assets);
        let symbol = symbols.last();
        if usable(symbol, assets) && edge_with_key(before, edge_from(symbol).key) is None {
            before.push(edge_from(symbol))
        } else {
            before
        }
    }
}

fn contains_name(names: &[String], name: &String) -> (r: bool)
    ensures
        r == crate::text::texts(names@).contains(name@),
{
    let ghost all = crate::text::texts(names@);
    for i in 0..names.len()
        invariant
            all == crate::text::texts(names@),
            forall|j: int| 0 <= j < i ==> #[trigger] all[j] != name@,
    {
        if same_string(&names[i], name) {
            proof {
                assert(all[i as int] == name@);
            }
            return true;
        }
        proof {
            assert(all[i as int] == names@[i as int]@);
        }
    }
    false
}

/// The edges between assets that the symbols of the exchange make.
fn collect_edges(assets: &[String], symbols: Vec<BinanceSymbol>) -> (r: Vec<PairEdge>)
    ensures
        edges_of(r@) == edges_from(symbols@, crate::text::texts(assets@)),
{
    let ghost all = symbols@;
    let ghost names = crate::text::texts(assets@);
    let mut pair_edges: Vec<PairEdge> = Vec::new();
    proof {
        assert(edges_of(pair_edges@) =~= edges_from(all.take(0), names));
    }
    for symbol in it: symbols
        invariant
            it.seq() == all,
            names == crate::text::texts(assets@),
            edges_of(pair_edges@) == edges_from(all.take(it.index() as int), names),
    {
        let ghost before = edges_of(pair_edges@);
        proof {
            let i = it.index() as int;
            assert(all.take(i + 1).drop_last() =~= all.take(i));
            assert(all.take(i + 1).last() == symbol);
        }
        if same_text(symbol.status.as_str(), "TRADING") && symbol.is_spot_trading_allowed {
            let base: String = lowercase(symbol.base_asset.as_str());
            let quote: String = lowercase(symbol.quote_asset.as_str());
            if contains_name(assets, &base) && contains_name(assets, &quote) && !same_string(
                &base,
                &quote,
            ) {
                let key: (String, String) = unordered_key(base.as_str(), quote.as_str());
                if find_edge(&pair_edges, &key).is_none() {
                    let edge: PairEdge = PairEdge {
                        key,
                        symbol: lowercase(symbol.symbol.as_str()),
                        pair_rule: pair_rule_from_filters(symbol.filters.as_slice()),
                    };
                    let ghost view = edge@;
                    pair_edges.push(edge);
                    proof {
                        assert(edges_of(pair_edges@) =~= before.push(view));
                    }
                }
            }
        }
    }
    proof {
        assert(all.take(all.len() as int) =~= all);
    }
    pair_edges
}

/// Triangles with the streams and the demands that they need.
#[derive(Debug)]
pub struct GeneratedTriangleUniverse {
    pub depth_streams: Vec<String>,
    pub triangles: Vec<TriangleConfig>,
    pub pair_rules: TextMap<PairRuleConfig>,
    pub used_assets: Vec<String>,
}

/// At most a number of triangles; zero stands for no limit.
pub open spec fn limited(triangles: Seq<TriangleView>, max_triangles: usize) -> Seq<TriangleView> {
    if max_triangles > 0 && triangles.len() > max_triangles {
        triangles.take(max_triangles as int)
    } else {
        triangles
    }
}

/// The triangles that assets and symbols make.
pub open spec fn generated(
    assets: Seq<Seq<char>>,
    config: AutoTriangleGenerationConfig,
    symbols: Seq<BinanceSymbol>,
) -> Seq<TriangleView> {
    limited(
        all_triangles(assets, making_of(config, edges_from(symbols, assets))),
        config.max_triangles,
    )
}

/// The pairs of triangles, one triangle after the other.
pub open spec fn pairs_of(triangles: Seq<TriangleView>) -> Seq<Seq<char>>
    decreases triangles.len(),
{
    if triangles.len() == 0 {
        Seq::empty()
    } else {
        let pairs = triangles.last().pairs;
        pairs_of(triangles.drop_last()).push(pairs.0).push(pairs.1).push(pairs.2)
    }
}

/// The assets of triangles, one triangle after the other.
pub open spec fn parts_of(triangles: Seq<TriangleView>) -> Seq<Seq<char>>
    decreases triangles.len(),
{
    if triangles.len() == 0 {
        Seq::empty()
    } else {
        let parts = triangles.last().parts;
        parts_of(triangles.drop_last()).push(parts.0).push(parts.1).push(parts.2)
    }
}

/// What is demanded of orders on pairs.
pub open spec fn rules_for(pairs: Seq<Seq<char>>, edges: Seq<EdgeView>) -> Map<Seq<char>, PairRuleView> {
    Map::new(
        |pair: Seq<char>| pairs.contains(pair) && edge_with_symbol(edges, pair) is Some,
        |pair: Seq<char>| edge_with_symbol(edges, pair)->0.pair_rule,
    )
}

/// What demands on pairs say.
pub open spec fn rules_of(rules: Map<Seq<char>, PairRuleConfig>) -> Map<Seq<char>, PairRuleView> {
    rules.map_values(|rule: PairRuleConfig| rule@)
}

fn add_rule(rules: &mut TextMap<PairRuleConfig>, pair: &String, pair_edges: &Vec<PairEdge>, done: Ghost<
    Seq<Seq<char>>,
>)
    requires
        rules_of(old(rules)@) == rules_for(done@, edges_of(pair_edges@)),
    ensures
        rules_of(final(rules)@) == rules_for(done@.push(pair@), edges_of(pair_edges@)),
{
    let ghost edges = edges_of(pair_edges@);
    let ghost before = rules@;
    let ghost expected = rules_for(done@.push(pair@), edges);
    proof {
        assert forall|x: Seq<char>| #[trigger]
            done@.push(pair@).contains(x) <==> done@.contains(x) || x == pair@ by {
            crate::names::lemma_pushed(done@, pair@, x);
        }
    }
    match find_edge_by_symbol(pair_edges, pair) {
        Some(edge) => {
            rules.insert(pair.clone(), edge.pair_rule);
            proof {
                assert(rules_of(rules@) =~= rules_of(before).insert(pair@, edge@.pair_rule));
                assert(rules_of(before).insert(pair@, edge@.pair_rule) =~= expected);
            }
        },
        None => {
            proof {
                assert(rules_of(before) =~= expected);
            }
        },
    }
}

/// The triangles of a list of assets, as far as the symbols of the exchange
/// have them, with the streams and the demands that they need.
pub fn generate_from_exchange_info(
    assets: &[String],
    auto_cfg: &AutoTriangleGenerationConfig,
    symbols: Vec<BinanceSymbol>,
) -> (r: GeneratedTriangleUniverse)
    ensures
        ({
            let edges = edges_from(symbols@, crate::text::texts(assets@));
            let triangles = generated(crate::text::texts(assets@), *auto_cfg, symbols@);
            &&& triangles_of(r.triangles@) == triangles
            &&& crate::text::texts(r.depth_streams@) == crate::names::sorted_names(pairs_of(triangles))
            &&& crate::text::texts(r.used_assets@) == crate::names::sorted_names(parts_of(triangles))
            &&& rules_of(r.pair_rules@) == rules_for(pairs_of(triangles), edges)
        }),
{
    let pair_edges: Vec<PairEdge> = collect_edges(assets, symbols);
    let ghost edges = edges_of(pair_edges@);
    let mut triangles: Vec<TriangleConfig> = enumerate_triangles(assets, auto_cfg, &pair_edges);
    let ghost full = triangles_of(triangles@);
    if auto_cfg.max_triangles > 0 && triangles.len() > auto_cfg.max_triangles {
        triangles.truncate(auto_cfg.max_triangles);
    }
    let ghost all = triangles_of(triangles@);
    proof {
        assert(all =~= limited(full, auto_cfg.max_triangles));
    }
    let mut depth_streams: Vec<String> = Vec::new();
    let mut used_assets: Vec<String> = Vec::new();
    let mut pair_rules: TextMap<PairRuleConfig> = TextMap::new();
    proof {
        assert(crate::text::texts(depth_streams@) =~= crate::names::sorted_names(pairs_of(all.take(0))));
        assert(crate::text::texts(used_assets@) =~= crate::names::sorted_names(parts_of(all.take(0))));
        assert(rules_of(pair_rules@) =~= rules_for(pairs_of(all.take(0)), edges));
    }
    let mut i: usize = 0;
    while i < triangles.len()
        invariant
            i <= triangles@.len(),
            all == triangles_of(triangles@),
            edges == edges_of(pair_edges@),
            crate::text::texts(depth_streams@) == crate::names::sorted_names(pairs_of(all.take(i as int))),
            crate::text::texts(used_assets@) == crate::names::sorted_names(parts_of(all.take(i as int))),
            rules_of(pair_rules@) == rules_for(pairs_of(all.take(i as int)), edges),
        decreases triangles@.len() - i,
    {
        let triangle: &TriangleConfig = &triangles[i];
        let ghost pairs = pairs_of(all.take(i as int));
        let ghost parts = parts_of(all.take(i as int));
        let ghost view = triangle@;
        proof {
            assert(all.take(i + 1).drop_last() =~= all.take(i as int));
            assert(all.take(i + 1).last() == view);
            lemma_sorted_push(parts, view.parts.0);
            lemma_sorted_push(parts.push(view.parts.0), view.parts.1);
            lemma_sorted_push(parts.push(view.parts.0).push(view.parts.1), view.parts.2);
            lemma_sorted_push(pairs, view.pairs.0);
            lemma_sorted_push(pairs.push(view.pairs.0), view.pairs.1);
            lemma_sorted_push(pairs.push(view.pairs.0).push(view.pairs.1), view.pairs.2);
        }
        add_name(&mut used_assets, &triangle.parts[0]);
        add_name(&mut used_assets, &triangle.parts[1]);
        add_name(&mut used_assets, &triangle.parts[2]);
        add_name(&mut depth_streams, &triangle.pairs[0]);
        add_name(&mut depth_streams, &triangle.pairs[1]);
        add_name(&mut depth_streams, &triangle.pairs[2]);
        add_rule(&mut pair_rules, &triangle.pairs[0], &pair_edges, Ghost(pairs));
        add_rule(&mut pair_rules, &triangle.pairs[1], &pair_edges, Ghost(pairs.push(view.pairs.0)));
        add_rule(
            &mut pair_rules,
            &triangle.pairs[2],
            &pair_edges,
            Ghost(pairs.push(view.pairs.0).push(view.pairs.1)),
        );
        i = i + 1;
    }
    proof {
        assert(all.take(all.len() as int) =~= all);
    }
    GeneratedTriangleUniverse { depth_streams, triangles, pair_rules, used_assets }
}

proof fn lemma_sorted_push(names: Seq<Seq<char>>, name: Seq<char>)
    ensures
        crate::names::sorted_names(names.push(name)) == crate::names::with_name(crate::names::sorted_names(names), name),
{
    assert(names.push(name).drop_last() =~= names);
}

/// An asset without white space around it and in small letters.
pub open spec fn clean(asset: Seq<char>) -> Seq<char> {
    crate::text::lowered(crate::text::trimmed(asset))
}

/// Assets without white space around them and in small letters: those that
/// are something, each once, in the order in which they first come.
pub open spec fn cleaned(assets: Seq<Seq<char>>) -> Seq<Seq<char>>
    decreases assets.len(),
{
    if assets.len() == 0 {
        Seq::empty()
    } else {
        let before = cleaned(assets.drop_last());
        let asset = clean(assets.last());
        if asset.len() == 0 || before.contains(asset) {
            before
        } else {
            before.push(asset)
        }
    }
}

/// Assets without white space around them and in small letters, each once.
pub fn normalize_and_dedupe_assets(assets: &[String]) -> (r: Vec<String>)
    ensures
        crate::text::texts(r@) == cleaned(crate::text::texts(assets@)),
{
    let ghost all = crate::text::texts(assets@);
    let mut out: Vec<String> = Vec::new();
    proof {
        assert(crate::text::texts(out@) =~= cleaned(all.take(0)));
    }
    for i in 0..assets.len()
        invariant
            all == crate::text::texts(assets@),
            crate::text::texts(out@) == cleaned(all.take(i as int)),
    {
        let ghost before = crate::text::texts(out@);
        proof {
            assert(all.take(i + 1).drop_last() =~= all.take(i as int));
            assert(all.take(i + 1).last() == assets@[i as int]@);
        }
        let asset: String = lowercase(trim(assets[i].as_str()).as_str());
        if !asset.as_str().is_empty() && !contains_name(out.as_slice(), &asset) {
            let ghost name = asset@;
            out.push(asset);
            proof {
                assert(crate::text::texts(out@) =~= before.push(name));
            }
        }
    }
    proof {
        assert(all.take(all.len() as int) =~= all);
    }
    out
}

/// The assets that triangles are to be made from.
pub fn assets_to_use(auto_cfg: &AutoTriangleGenerationConfig) -> (r: Result<Vec<String>, String>)
    ensures
        r is Ok <==> cleaned(crate::text::texts(auto_cfg.assets@)).len() >= 3,
        match r {
            Ok(assets) => crate::text::texts(assets@) == cleaned(
                crate::text::texts(auto_cfg.assets@),
            ),
            Err(message) => message@
                == "auto_triangle_generation.assets must contain at least 3 unique assets"@,
        },
{
    let assets: Vec<String> = normalize_and_dedupe_assets(auto_cfg.assets.as_slice());
    proof {
        assert(crate::text::texts(assets@).len() == assets@.len());
    }
    if assets.len() < 3 {
        return Err(
            "auto_triangle_generation.assets must contain at least 3 unique assets".to_owned(),
        );
    }
    Ok(assets)
}

/// Refuses a universe without triangles.
pub fn non_empty_universe(universe: GeneratedTriangleUniverse) -> (r: Result<
    GeneratedTriangleUniverse,
    String,
>)
    ensures
        r is Ok <==> universe.triangles@.len() > 0,
        match r {
            Ok(same) => same == universe,
            Err(message) => message@
                == "no valid triangles generated from asset list and exchange symbols"@,
        },
{
    if universe.triangles.len() == 0 {
        return Err("no valid triangles generated from asset list and exchange symbols".to_owned());
    }
    Ok(universe)
}

proof fn lemma_names_order(a: Names, b: Names)
    ensures
        names_before(a, b) || names_before(b, a) || a == b,
        !(names_before(a, b) && names_before(b, a)),
        a == b ==> !names_before(a, b),
{
    crate::text::lemma_order_is_total(a.0, b.0);
    crate::text::lemma_order_is_total(a.1, b.1);
    crate::text::lemma_order_is_total(a.2, b.2);
}

proof fn lemma_names_order_carries(a: Names, b: Names, c: Names)
    requires
        names_before(a, b),
        names_before(b, c),
    ensures
        names_before(a, c),
{
    crate::text::lemma_order_is_total(a.0, c.0);
    crate::text::lemma_order_is_total(a.1, c.1);
    crate::text::lemma_order_is_total(a.2, c.2);
    crate::text::lemma_order_is_total(a.0, b.0);
    crate::text::lemma_order_is_total(b.0, c.0);
    crate::text::lemma_order_is_total(a.1, b.1);
    crate::text::lemma_order_is_total(b.1, c.1);
    if a.0 != b.0 && b.0 != c.0 {
        crate::text::lemma_order_is_transitive(a.0, b.0, c.0);
    } else if a.0 == b.0 && b.0 == c.0 {
        if a.1 != b.1 && b.1 != c.1 {
            crate::text::lemma_order_is_transitive(a.1, b.1, c.1);
        } else if a.1 == b.1 && b.1 == c.1 {
            crate::text::lemma_order_is_transitive(a.2, b.2, c.2);
        }
    }
}

/// Of two different triangles one comes before the other, and not both.
pub proof fn law_triangle_order_is_total(a: TriangleView, b: TriangleView)
    ensures
        triangle_before(a, b) || triangle_before(b, a) || a == b,
        !(triangle_before(a, b) && triangle_before(b, a)),
{
    lemma_names_order(a.parts, b.parts);
    lemma_names_order(a.pairs, b.pairs);
}

proof fn lemma_triangle_order_carries(a: TriangleView, b: TriangleView, c: TriangleView)
    requires
        triangle_before(a, b),
        triangle_before(b, c),
    ensures
        triangle_before(a, c),
{
    lemma_names_order(a.parts, b.parts);
    lemma_names_order(b.parts, c.parts);
    lemma_names_order(a.parts, c.parts);
    if a.parts != b.parts && b.parts != c.parts {
        lemma_names_order_carries(a.parts, b.parts, c.parts);
    } else if a.parts == b.parts && b.parts == c.parts {
        lemma_names_order_carries(a.pairs, b.pairs, c.pairs);
    }
}

/// Whether no triangle comes before one that stands ahead of it.
pub open spec fn triangles_in_order(triangles: Seq<TriangleView>) -> bool {
    forall|i: int, j: int|
        0 <= i < j < triangles.len() ==> !triangle_before(
            #[trigger] triangles[j],
            #[trigger] triangles[i],
        )
}

proof fn lemma_with_triangle(triangles: Seq<TriangleView>, triangle: TriangleView)
    requires
        triangles_in_order(triangles),
    ensures
        triangles_in_order(with_triangle(triangles, triangle)),
        with_triangle(triangles, triangle).to_multiset() == triangles.to_multiset().insert(triangle),
    decreases triangles.len(),
{
    broadcast use vstd::seq_lib::group_to_multiset_ensures;

    let after = with_triangle(triangles, triangle);
    if triangles.len() == 0 || !triangle_before(triangle, triangles.last()) {
        assert forall|i: int, j: int| 0 <= i < j < after.len() implies !triangle_before(
            #[trigger] after[j],
            #[trigger] after[i],
        ) by {
            if j == triangles.len() {
                let last = triangles.last();
                law_triangle_order_is_total(last, after[i]);
                if i < triangles.len() - 1 {
                    assert(!triangle_before(triangles[triangles.len() - 1], triangles[i]));
                }
                if triangle_before(triangle, after[i]) {
                    if after[i] != last {
                        lemma_triangle_order_carries(triangle, after[i], last);
                    }
                }
            }
        }
    } else {
        let rest = triangles.drop_last();
        let last = triangles.last();
        assert forall|i: int, j: int| 0 <= i < j < rest.len() implies !triangle_before(
            #[trigger] rest[j],
            #[trigger] rest[i],
        ) by {
            assert(!triangle_before(triangles[j], triangles[i]));
        }
        lemma_with_triangle(rest, triangle);
        let inner = with_triangle(rest, triangle);
        law_triangle_order_is_total(triangle, last);
        assert forall|i: int, j: int| 0 <= i < j < after.len() implies !triangle_before(
            #[trigger] after[j],
            #[trigger] after[i],
        ) by {
            if j == inner.len() {
                assert(inner.contains(inner[i]));
                assert(inner.to_multiset().count(inner[i]) > 0);
                if inner[i] != triangle {
                    assert(rest.to_multiset().count(inner[i]) > 0);
                    assert(rest.contains(inner[i]));
                    let k = choose|k: int| 0 <= k < rest.len() && rest[k] == inner[i];
                    assert(!triangle_before(triangles[triangles.len() - 1], triangles[k]));
                }
            } else {
                assert(!triangle_before(inner[j], inner[i]));
            }
        }
        assert(triangles =~= rest.push(last));
        assert(after.to_multiset() =~= triangles.to_multiset().insert(triangle));
    }
}

/// Sorting triangles puts them in order and keeps each as often as it was there.
pub proof fn law_sorted_triangles(triangles: Seq<TriangleView>)
    ensures
        triangles_in_order(sorted_triangles(triangles)),
        sorted_triangles(triangles).to_multiset() == triangles.to_multiset(),
    decreases triangles.len(),
{
    broadcast use vstd::seq_lib::group_to_multiset_ensures;

    if triangles.len() > 0 {
        law_sorted_triangles(triangles.drop_last());
        lemma_with_triangle(sorted_triangles(triangles.drop_last()), triangles.last());
        assert(triangles =~= triangles.drop_last().push(triangles.last()));
    } else {
        assert(triangles =~= Seq::<TriangleView>::empty());
    }
}

proof fn lemma_sorted_holds(triangles: Seq<TriangleView>, triangle: TriangleView)
    ensures
        sorted_triangles(triangles).contains(triangle) == triangles.contains(triangle),
{
    broadcast use vstd::seq_lib::group_to_multiset_ensures;

    law_sorted_triangles(triangles);
    assert(sorted_triangles(triangles).to_multiset().count(triangle)
        == triangles.to_multiset().count(triangle));
}

proof fn lemma_made(orders: Seq<Names>, edges: Seq<EdgeView>)
    ensures
        forall|t: TriangleView| #[trigger]
            made(orders, edges).contains(t) ==> orders.contains(t.parts) && triangle_of(
                t.parts,
                edges,
            ) == Some(t),
        made(orders, edges).no_duplicates(),
        forall|x: int|
            0 <= x < orders.len() ==> match triangle_of(#[trigger] orders[x], edges) {
                Some(t) => has_key(made(orders, edges), key_of(t)),
                None => true,
            },
    decreases orders.len(),
{
    if orders.len() > 0 {
        let rest = orders.drop_last();
        let before = made(rest, edges);
        let after = made(orders, edges);
        lemma_made(rest, edges);
        assert forall|t: TriangleView| #[trigger] after.contains(t) implies orders.contains(t.parts)
            && triangle_of(t.parts, edges) == Some(t) by {
            let k = choose|k: int| 0 <= k < after.len() && after[k] == t;
            if k < before.len() {
                assert(before[k] == t);
                assert(before.contains(t));
                let m = choose|m: int| 0 <= m < rest.len() && rest[m] == t.parts;
                assert(orders[m] == t.parts);
            } else {
                assert(orders[orders.len() - 1] == t.parts);
            }
        }
        assert forall|x: int| 0 <= x < orders.len() implies match triangle_of(
            #[trigger] orders[x],
            edges,
        ) {
            Some(t) => has_key(after, key_of(t)),
            None => true,
        } by {
            if let Some(t) = triangle_of(orders[x], edges) {
                if x < rest.len() {
                    assert(rest[x] == orders[x]);
                    let k = choose|k: int| 0 <= k < before.len() && key_of(#[trigger] before[k])
                        == key_of(t);
                    assert(after[k] == before[k]);
                } else if !has_key(before, key_of(t)) {
                    assert(after[before.len() as int] == t);
                } else {
                    assert(after == before);
                }
            }
        }
    }
}

/// Whether an order names three different assets of a list.
pub open spec fn is_order_of(order: Names, names: Seq<Seq<char>>) -> bool {
    &&& names.contains(order.0)
    &&& names.contains(order.1)
    &&& names.contains(order.2)
    &&& order.0 != order.1
    &&& order.1 != order.2
    &&& order.2 != order.0
}

spec fn are_orders_of(orders: Seq<Names>, names: Seq<Seq<char>>) -> bool {
    forall|x: int| 0 <= x < orders.len() ==> is_order_of(#[trigger] orders[x], names)
}

proof fn lemma_orders_joined(a: Seq<Names>, b: Seq<Names>, names: Seq<Seq<char>>)
    requires
        are_orders_of(a, names),
        are_orders_of(b, names),
    ensures
        are_orders_of(a + b, names),
{
    assert forall|x: int| 0 <= x < (a + b).len() implies is_order_of(#[trigger] (a + b)[x], names) by {
        if x < a.len() {
            assert((a + b)[x] == a[x]);
        } else {
            assert((a + b)[x] == b[x - a.len()]);
        }
    }
}

proof fn lemma_tried(making: Making, names: Seq<Seq<char>>, i: int, j: int, k: int)
    requires
        crate::names::strictly_sorted(names),
        0 <= i < j < k < names.len(),
    ensures
        are_orders_of(tried(making, names[i], names[j], names[k]), names),
{
    crate::text::lemma_order_is_total(names[i], names[j]);
    crate::text::lemma_order_is_total(names[j], names[k]);
    crate::text::lemma_order_is_total(names[i], names[k]);
    let there = starts((names[i], names[j], names[k]), making.all_starts);
    let back = starts((names[i], names[k], names[j]), making.all_starts);
    assert(are_orders_of(there, names));
    assert(are_orders_of(back, names));
    lemma_orders_joined(there, back, names);
    lemma_orders_joined(there, Seq::empty(), names);
}

proof fn lemma_tried_thirds(making: Making, names: Seq<Seq<char>>, i: int, j: int, k: int)
    requires
        crate::names::strictly_sorted(names),
        0 <= i < j < k,
    ensures
        are_orders_of(tried_thirds(making, names, i, j, k), names),
    decreases names.len() - k,
{
    if k < names.len() {
        lemma_tried(making, names, i, j, k);
        lemma_tried_thirds(making, names, i, j, k + 1);
        lemma_orders_joined(
            tried(making, names[i], names[j], names[k]),
            tried_thirds(making, names, i, j, k + 1),
            names,
        );
    }
}

proof fn lemma_tried_seconds(making: Making, names: Seq<Seq<char>>, i: int, j: int)
    requires
        crate::names::strictly_sorted(names),
        0 <= i < j,
    ensures
        are_orders_of(tried_seconds(making, names, i, j), names),
    decreases names.len() - j,
{
    if j < names.len() {
        lemma_tried_thirds(making, names, i, j, j + 1);
        lemma_tried_seconds(making, names, i, j + 1);
        lemma_orders_joined(
            tried_thirds(making, names, i, j, j + 1),
            tried_seconds(making, names, i, j + 1),
            names,
        );
    }
}

proof fn lemma_tried_firsts(making: Making, names: Seq<Seq<char>>, i: int)
    requires
        crate::names::strictly_sorted(names),
        0 <= i,
    ensures
        are_orders_of(tried_firsts(making, names, i), names),
    decreases names.len() - i,
{
    if i < names.len() {
        lemma_tried_seconds(making, names, i, i + 1);
        lemma_tried_firsts(making, names, i + 1);
        lemma_orders_joined(
            tried_seconds(making, names, i, i + 1),
            tried_firsts(making, names, i + 1),
            names,
        );
    }
}

/// Whether an order is tried for the three names at some places of a list.
pub open spec fn tried_at(
    making: Making,
    names: Seq<Seq<char>>,
    i: int,
    j: int,
    k: int,
    order: Names,
) -> bool {
    &&& 0 <= i < j < k < names.len()
    &&& tried(making, names[i], names[j], names[k]).contains(order)
}

proof fn lemma_in_either(a: Seq<Names>, b: Seq<Names>, order: Names)
    requires
        (a + b).contains(order),
    ensures
        a.contains(order) || b.contains(order),
{
    let x = choose|x: int| 0 <= x < (a + b).len() && (a + b)[x] == order;
    if x < a.len() {
        assert(a[x] == order);
    } else {
        assert(b[x - a.len()] == order);
    }
}

proof fn lemma_third_of(making: Making, names: Seq<Seq<char>>, i: int, j: int, from: int, order: Names) -> (k:
    int)
    requires
        0 <= i < j < from,
        tried_thirds(making, names, i, j, from).contains(order),
    ensures
        tried_at(making, names, i, j, k, order),
    decreases names.len() - from,
{
    let now = tried(making, names[i], names[j], names[from]);
    lemma_in_either(now, tried_thirds(making, names, i, j, from + 1), order);
    if now.contains(order) {
        from
    } else {
        lemma_third_of(making, names, i, j, from + 1, order)
    }
}

proof fn lemma_second_of(making: Making, names: Seq<Seq<char>>, i: int, from: int, order: Names) -> (r: (
    int,
    int,
))
    requires
        0 <= i < from,
        tried_seconds(making, names, i, from).contains(order),
    ensures
        tried_at(making, names, i, r.0, r.1, order),
    decreases names.len() - from,
{
    let now = tried_thirds(making, names, i, from, from + 1);
    lemma_in_either(now, tried_seconds(making, names, i, from + 1), order);
    if now.contains(order) {
        (from, lemma_third_of(making, names, i, from, from + 1, order))
    } else {
        lemma_second_of(making, names, i, from + 1, order)
    }
}

proof fn lemma_first_of(making: Making, names: Seq<Seq<char>>, from: int, order: Names) -> (r: (
    int,
    int,
    int,
))
    requires
        0 <= from,
        tried_firsts(making, names, from).contains(order),
    ensures
        tried_at(making, names, r.0, r.1, r.2, order),
    decreases names.len() - from,
{
    let now = tried_seconds(making, names, from, from + 1);
    lemma_in_either(now, tried_firsts(making, names, from + 1), order);
    if now.contains(order) {
        let rest = lemma_second_of(making, names, from, from + 1, order);
        (from, rest.0, rest.1)
    } else {
        lemma_first_of(making, names, from + 1, order)
    }
}

/// Every triangle that is made is a closed path: it goes over three different
/// assets of the list, in an order that is tried for them, and each of its pairs
/// is the symbol that trades an asset for the next, the third for the first.
pub proof fn law_triangles_are_closed(assets: Seq<Seq<char>>, making: Making, triangle: TriangleView)
    requires
        all_triangles(assets, making).contains(triangle),
    ensures
        is_order_of(triangle.parts, assets),
        exists|i: int, j: int, k: int|
            tried_at(making, crate::names::sorted_names(assets), i, j, k, triangle.parts),
        triangle_of(triangle.parts, making.edges) == Some(triangle),
{
    let names = crate::names::sorted_names(assets);
    let orders = tried_firsts(making, names, 0);
    crate::names::law_sorted_names(assets);
    lemma_tried_firsts(making, names, 0);
    lemma_made(orders, making.edges);
    lemma_sorted_holds(made(orders, making.edges), triangle);
    let x = choose|x: int| 0 <= x < orders.len() && orders[x] == triangle.parts;
    assert(is_order_of(orders[x], names));
    let at = lemma_first_of(making, names, 0, triangle.parts);
    assert(tried_at(making, names, at.0, at.1, at.2, triangle.parts));
}

/// No triangle is made twice.
pub proof fn law_triangles_differ(assets: Seq<Seq<char>>, making: Making)
    ensures
        all_triangles(assets, making).no_duplicates(),
        triangles_in_order(all_triangles(assets, making)),
{
    let triangles = made(tried_firsts(making, crate::names::sorted_names(assets), 0), making.edges);
    lemma_made(tried_firsts(making, crate::names::sorted_names(assets), 0), making.edges);
    law_sorted_triangles(triangles);
    triangles.lemma_multiset_has_no_duplicates();
    sorted_triangles(triangles).lemma_multiset_has_no_duplicates_conv();
}

proof fn lemma_thirds_hold(making: Making, names: Seq<Seq<char>>, i: int, j: int, from: int, k: int, order: Names)
    requires
        from <= k < names.len(),
        tried(making, names[i], names[j], names[k]).contains(order),
    ensures
        tried_thirds(making, names, i, j, from).contains(order),
    decreases k - from,
{
    let now = tried(making, names[i], names[j], names[from]);
    let later = tried_thirds(making, names, i, j, from + 1);
    if from == k {
        let x = choose|x: int| 0 <= x < now.len() && now[x] == order;
        assert((now + later)[x] == order);
    } else {
        lemma_thirds_hold(making, names, i, j, from + 1, k, order);
        let x = choose|x: int| 0 <= x < later.len() && later[x] == order;
        assert((now + later)[now.len() + x] == order);
    }
}

proof fn lemma_seconds_hold(making: Making, names: Seq<Seq<char>>, i: int, from: int, j: int, k: int, order: Names)
    requires
        from <= j < k < names.len(),
        tried(making, names[i], names[j], names[k]).contains(order),
    ensures
        tried_seconds(making, names, i, from).contains(order),
    decreases j - from,
{
    let now = tried_thirds(making, names, i, from, from + 1);
    let later = tried_seconds(making, names, i, from + 1);
    if from == j {
        lemma_thirds_hold(making, names, i, j, j + 1, k, order);
        let x = choose|x: int| 0 <= x < now.len() && now[x] == order;
        assert((now + later)[x] == order);
    } else {
        lemma_seconds_hold(making, names, i, from + 1, j, k, order);
        let x = choose|x: int| 0 <= x < later.len() && later[x] == order;
        assert((now + later)[now.len() + x] == order);
    }
}

proof fn lemma_firsts_hold(making: Making, names: Seq<Seq<char>>, from: int, i: int, j: int, k: int, order: Names)
    requires
        from <= i < j < k < names.len(),
        tried(making, names[i], names[j], names[k]).contains(order),
    ensures
        tried_firsts(making, names, from).contains(order),
    decreases i - from,
{
    let now = tried_seconds(making, names, from, from + 1);
    let later = tried_firsts(making, names, from + 1);
    if from == i {
        lemma_seconds_hold(making, names, i, i + 1, j, k, order);
        let x = choose|x: int| 0 <= x < now.len() && now[x] == order;
        assert((now + later)[x] == order);
    } else {
        lemma_firsts_hold(making, names, from + 1, i, j, k, order);
        let x = choose|x: int| 0 <= x < later.len() && later[x] == order;
        assert((now + later)[now.len() + x] == order);
    }
}

/// Whether no other order that is tried makes a triangle with the key of a
/// triangle.
pub open spec fn has_own_key(making: Making, names: Seq<Seq<char>>, triangle: TriangleView) -> bool {
    forall|i: int, j: int, k: int, other: Names| #[trigger]
        tried_at(making, names, i, j, k, other) && other != triangle.parts ==> match triangle_of(
            other,
            making.edges,
        ) {
            Some(t) => key_of(t) != key_of(triangle),
            None => true,
        }
}

/// No triangle is missed: every order of three assets that is tried makes a
/// triangle of the list, where the assets are traded for each other. Of triangles
/// that share a key one is in the list.
pub proof fn law_no_triangle_is_missed(
    assets: Seq<Seq<char>>,
    making: Making,
    i: int,
    j: int,
    k: int,
    order: Names,
    triangle: TriangleView,
)
    requires
        tried_at(making, crate::names::sorted_names(assets), i, j, k, order),
        triangle_of(order, making.edges) == Some(triangle),
    ensures
        has_key(all_triangles(assets, making), key_of(triangle)),
        has_own_key(making, crate::names::sorted_names(assets), triangle) ==> all_triangles(
            assets,
            making,
        ).contains(triangle),
{
    let names = crate::names::sorted_names(assets);
    let orders = tried_firsts(making, names, 0);
    lemma_firsts_hold(making, names, 0, i, j, k, order);
    lemma_made(orders, making.edges);
    let x = choose|x: int| 0 <= x < orders.len() && orders[x] == order;
    assert(triangle_of(orders[x], making.edges) is Some);
    let list = made(orders, making.edges);
    let key = key_of(triangle);
    let y = choose|y: int| 0 <= y < list.len() && key_of(#[trigger] list[y]) == key;
    assert(list.contains(list[y]));
    lemma_sorted_holds(list, list[y]);
    let all = all_triangles(assets, making);
    let z = choose|z: int| 0 <= z < all.len() && all[z] == list[y];
    assert(key_of(all[z]) == key);
    if has_own_key(making, names, triangle) {
        let found = all[z];
        assert(all.contains(found));
        law_triangles_are_closed(assets, making, found);
        let at = choose|a: int, b: int, c: int| tried_at(making, names, a, b, c, found.parts);
        assert(tried_at(making, names, at.0, at.1, at.2, found.parts));
        assert(found.parts == triangle.parts);
    }
}

proof fn lemma_pairs_of(triangles: Seq<TriangleView>, pair: Seq<char>)
    ensures
        pairs_of(triangles).contains(pair) <==> exists|i: int|
            0 <= i < triangles.len() && ((#[trigger] triangles[i]).pairs.0 == pair
                || triangles[i].pairs.1 == pair || triangles[i].pairs.2 == pair),
    decreases triangles.len(),
{
    if triangles.len() > 0 {
        let rest = triangles.drop_last();
        let pairs = triangles.last().pairs;
        lemma_pairs_of(rest, pair);
        crate::names::lemma_pushed(pairs_of(rest), pairs.0, pair);
        crate::names::lemma_pushed(pairs_of(rest).push(pairs.0), pairs.1, pair);
        crate::names::lemma_pushed(pairs_of(rest).push(pairs.0).push(pairs.1), pairs.2, pair);
        if pairs_of(rest).contains(pair) {
            let i = choose|i: int|
                0 <= i < rest.len() && ((#[trigger] rest[i]).pairs.0 == pair || rest[i].pairs.1
                    == pair || rest[i].pairs.2 == pair);
            assert(triangles[i] == rest[i]);
        }
        if pairs.0 == pair || pairs.1 == pair || pairs.2 == pair {
            assert(triangles[triangles.len() - 1].pairs == pairs);
        }
        if exists|i: int|
            0 <= i < triangles.len() && ((#[trigger] triangles[i]).pairs.0 == pair
                || triangles[i].pairs.1 == pair || triangles[i].pairs.2 == pair) {
            let i = choose|i: int|
                0 <= i < triangles.len() && ((#[trigger] triangles[i]).pairs.0 == pair
                    || triangles[i].pairs.1 == pair || triangles[i].pairs.2 == pair);
            if i < rest.len() {
                assert(rest[i] == triangles[i]);
            }
        }
    }
}

/// The streams of a universe are exactly the pairs of its triangles.
pub proof fn law_streams_are_the_pairs(triangles: Seq<TriangleView>, pair: Seq<char>)
    ensures
        crate::names::strictly_sorted(crate::names::sorted_names(pairs_of(triangles))),
        crate::names::sorted_names(pairs_of(triangles)).contains(pair) <==> exists|i: int|
            0 <= i < triangles.len() && ((#[trigger] triangles[i]).pairs.0 == pair
                || triangles[i].pairs.1 == pair || triangles[i].pairs.2 == pair),
{
    crate::names::law_sorted_names(pairs_of(triangles));
    lemma_pairs_of(triangles, pair);
}

proof fn lemma_edge_has_symbol(edges: Seq<EdgeView>, key: (Seq<char>, Seq<char>))
    ensures
        edge_with_key(edges, key) matches Some(edge) ==> edge_with_symbol(edges, edge.symbol) is Some,
    decreases edges.len(),
{
    if edges.len() > 0 {
        lemma_edge_has_symbol(edges.drop_first(), key);
    }
}

proof fn lemma_edge_with_symbol(edges: Seq<EdgeView>, symbol: Seq<char>)
    ensures
        edge_with_symbol(edges, symbol) matches Some(edge) ==> edges.contains(edge) && edge.symbol
            == symbol,
    decreases edges.len(),
{
    if edges.len() > 0 {
        if edges[0].symbol == symbol {
            assert(edges.contains(edges[0]));
        } else {
            let rest = edges.drop_first();
            lemma_edge_with_symbol(rest, symbol);
            if let Some(edge) = edge_with_symbol(rest, symbol) {
                let i = choose|i: int| 0 <= i < rest.len() && rest[i] == edge;
                assert(edges[i + 1] == edge);
            }
        }
    }
}

/// The demands of a universe are on exactly the pairs of its triangles, and each
/// is that of an edge with the symbol of the pair.
pub proof fn law_rules_are_of_the_pairs(
    assets: Seq<Seq<char>>,
    making: Making,
    triangles: Seq<TriangleView>,
    pair: Seq<char>,
)
    requires
        triangles.is_prefix_of(all_triangles(assets, making)),
    ensures
        ({
            let rules = rules_for(pairs_of(triangles), making.edges);
            &&& rules.dom().contains(pair) <==> pairs_of(triangles).contains(pair)
            &&& rules.dom().contains(pair) ==> exists|i: int|
                0 <= i < making.edges.len() && (#[trigger] making.edges[i]).symbol == pair
                    && making.edges[i].pair_rule == rules[pair]
        }),
{
    let all = all_triangles(assets, making);
    let edges = making.edges;
    let rules = rules_for(pairs_of(triangles), edges);
    lemma_pairs_of(triangles, pair);
    lemma_edge_with_symbol(edges, pair);
    if pairs_of(triangles).contains(pair) {
        let i = choose|i: int|
            0 <= i < triangles.len() && ((#[trigger] triangles[i]).pairs.0 == pair
                || triangles[i].pairs.1 == pair || triangles[i].pairs.2 == pair);
        let triangle = triangles[i];
        assert(all[i] == triangle);
        assert(all.contains(triangle));
        law_triangles_are_closed(assets, making, triangle);
        let order = triangle.parts;
        lemma_edge_has_symbol(edges, in_order(order.0, order.1));
        lemma_edge_has_symbol(edges, in_order(order.1, order.2));
        lemma_edge_has_symbol(edges, in_order(order.2, order.0));
        let edge = edge_with_symbol(edges, pair)->0;
        let k = choose|k: int| 0 <= k < edges.len() && edges[k] == edge;
        assert(edges[k].symbol == pair && edges[k].pair_rule == rules[pair]);
    }
}

/// A limit on the number of triangles is kept, and keeps the first of them.
pub proof fn law_limit_is_kept(triangles: Seq<TriangleView>, max_triangles: usize)
    ensures
        max_triangles > 0 ==> limited(triangles, max_triangles).len() <= max_triangles,
        limited(triangles, max_triangles).is_prefix_of(triangles),
        max_triangles == 0 ==> limited(triangles, max_triangles) == triangles,
{
}

proof fn lemma_clean_stays(assets: Seq<Seq<char>>)
    requires
        assets.no_duplicates(),
        forall|i: int|
            0 <= i < assets.len() ==> (#[trigger] assets[i]).len() > 0 && clean(assets[i])
                == assets[i],
    ensures
        cleaned(assets) == assets,
    decreases assets.len(),
{
    if assets.len() > 0 {
        let rest = assets.drop_last();
        let last = assets.last();
        assert(last == assets[assets.len() - 1]);
        lemma_clean_stays(rest);
        if rest.contains(last) {
            let i = choose|i: int| 0 <= i < rest.len() && rest[i] == last;
            assert(assets[i] == assets[assets.len() - 1]);
        }
        assert(rest.push(last) =~= assets);
    } else {
        assert(cleaned(assets) =~= assets);
    }
}

proof fn lemma_cleaned(assets: Seq<Seq<char>>, asset: Seq<char>)
    ensures
        cleaned(assets).no_duplicates(),
        cleaned(assets).contains(asset) <==> asset.len() > 0 && exists|i: int|
            0 <= i < assets.len() && clean(#[trigger] assets[i]) == asset,
    decreases assets.len(),
{
    if assets.len() > 0 {
        let rest = assets.drop_last();
        let last = clean(assets.last());
        lemma_cleaned(rest, asset);
        crate::names::lemma_pushed(cleaned(rest), last, asset);
        if exists|i: int| 0 <= i < rest.len() && clean(#[trigger] rest[i]) == asset {
            let i = choose|i: int| 0 <= i < rest.len() && clean(#[trigger] rest[i]) == asset;
            assert(clean(assets[i]) == asset);
        }
        if exists|i: int| 0 <= i < assets.len() && clean(#[trigger] assets[i]) == asset {
            let i = choose|i: int| 0 <= i < assets.len() && clean(#[trigger] assets[i]) == asset;
            if i < rest.len() {
                assert(clean(rest[i]) == asset);
            }
        }
        if asset == last {
            assert(clean(assets[assets.len() - 1]) == asset);
        }
    }
}

/// Cleaning assets keeps exactly the clean names of those that are something,
/// each once; cleaning them again changes nothing.
pub proof fn law_cleaned_assets(assets: Seq<Seq<char>>)
    ensures
        cleaned(assets).no_duplicates(),
        forall|asset: Seq<char>| #[trigger]
            cleaned(assets).contains(asset) <==> asset.len() > 0 && exists|i: int|
                0 <= i < assets.len() && clean(#[trigger] assets[i]) == asset,
        cleaned(cleaned(assets)) == cleaned(assets),
{
    assert forall|asset: Seq<char>| #[trigger]
        cleaned(assets).contains(asset) <==> asset.len() > 0 && exists|i: int|
            0 <= i < assets.len() && clean(#[trigger] assets[i]) == asset by {
        lemma_cleaned(assets, asset);
    }
    lemma_cleaned(assets, Seq::empty());
    let list = cleaned(assets);
    assert forall|i: int| 0 <= i < list.len() implies (#[trigger] list[i]).len() > 0 && clean(
        list[i],
    ) == list[i] by {
        assert(list.contains(list[i]));
        let j = choose|j: int| 0 <= j < assets.len() && clean(#[trigger] assets[j]) == list[i];
        crate::text::law_cleaning_twice(assets[j]);
    }
    lemma_clean_stays(list);
}

/// Whether a triangle of a list goes over three assets in an order.
pub open spec fn goes_over(
    triangles: Seq<TriangleView>,
    first: Seq<char>,
    second: Seq<char>,
    third: Seq<char>,
) -> bool {
    exists|i: int|
        0 <= i < triangles.len() && (#[trigger] triangles[i]).parts == (first, second, third)
}

/// Whether there is an edge whose key is two names, in this order.
pub open spec fn are_joined(edges: Seq<EdgeView>, first: Seq<char>, second: Seq<char>) -> bool {
    exists|i: int| 0 <= i < edges.len() && (#[trigger] edges[i]).key == (first, second)
}

/// Whether a name holds no character that parts the names in the text by which
/// triangles are told apart.
pub open spec fn is_plain(name: Seq<char>) -> bool {
    !name.contains('|') && !name.contains(':')
}

proof fn lemma_edge_is_found(edges: Seq<EdgeView>, key: (Seq<char>, Seq<char>))
    ensures
        edge_with_key(edges, key) is Some <==> exists|i: int|
            0 <= i < edges.len() && (#[trigger] edges[i]).key == key,
        edge_with_key(edges, key) is Some ==> exists|i: int|
            0 <= i < edges.len() && #[trigger] edges[i] == edge_with_key(edges, key)->0
                && edges[i].key == key && forall|j: int|
                0 <= j < i ==> (#[trigger] edges[j]).key != key,
    decreases edges.len(),
{
    if edges.len() > 0 {
        let rest = edges.drop_first();
        lemma_edge_is_found(rest, key);
        if edges[0].key != key {
            if edge_with_key(rest, key) is Some {
                let i = choose|i: int|
                    0 <= i < rest.len() && #[trigger] rest[i] == edge_with_key(rest, key)->0
                        && rest[i].key == key && forall|j: int|
                        0 <= j < i ==> (#[trigger] rest[j]).key != key;
                assert(edges[i + 1] == rest[i]);
                assert forall|j: int| 0 <= j < i + 1 implies (#[trigger] edges[j]).key != key by {
                    if j > 0 {
                        assert(rest[j - 1] == edges[j]);
                    }
                }
            }
            if exists|i: int| 0 <= i < edges.len() && (#[trigger] edges[i]).key == key {
                let i = choose|i: int| 0 <= i < edges.len() && (#[trigger] edges[i]).key == key;
                assert(rest[i - 1] == edges[i]);
            }
        }
    }
}

/// Two assets are traded for each other, whichever comes first, exactly where an
/// edge has them as its key, in their order; the first such edge counts.
pub proof fn law_edges_join_both_ways(edges: Seq<EdgeView>, a: Seq<char>, b: Seq<char>)
    requires
        crate::text::comes_before(a, b),
    ensures
        edge_between(edges, a, b) == edge_between(edges, b, a),
        edge_between(edges, a, b) is Some <==> are_joined(edges, a, b),
        edge_between(edges, a, b) is Some ==> exists|i: int|
            0 <= i < edges.len() && #[trigger] edges[i] == edge_between(edges, a, b)->0
                && edges[i].key == (a, b) && forall|j: int|
                0 <= j < i ==> (#[trigger] edges[j]).key != (a, b),
{
    crate::text::lemma_order_is_total(a, b);
    lemma_edge_is_found(edges, (a, b));
}

proof fn lemma_parted(x: Seq<char>, y: Seq<char>, other_x: Seq<char>, other_y: Seq<char>, mark: char)
    requires
        !x.contains(mark),
        !other_x.contains(mark),
        x + seq![mark] + y == other_x + seq![mark] + other_y,
    ensures
        x == other_x,
        y == other_y,
{
    let whole = x + seq![mark] + y;
    let other = other_x + seq![mark] + other_y;
    assert(whole[x.len() as int] == mark);
    assert(other[other_x.len() as int] == mark);
    if x.len() < other_x.len() {
        assert(other[x.len() as int] == other_x[x.len() as int]);
        assert(other_x.contains(mark));
    }
    if other_x.len() < x.len() {
        assert(whole[other_x.len() as int] == x[other_x.len() as int]);
        assert(x.contains(mark));
    }
    assert forall|i: int| 0 <= i < x.len() implies x[i] == other_x[i] by {
        assert(whole[i] == x[i]);
        assert(other[i] == other_x[i]);
    }
    assert(x =~= other_x);
    assert(whole.len() == other.len());
    assert forall|i: int| 0 <= i < y.len() implies y[i] == other_y[i] by {
        assert(whole[x.len() + 1 + i] == y[i]);
        assert(other[x.len() + 1 + i] == other_y[i]);
    }
    assert(y =~= other_y);
}

/// Triangles over plain names that share the text by which they are told apart
/// go over the same assets in the same order.
pub proof fn law_keys_tell_triangles_apart(a: TriangleView, b: TriangleView)
    requires
        is_plain(a.parts.0) && is_plain(a.parts.1) && is_plain(a.parts.2),
        is_plain(b.parts.0) && is_plain(b.parts.1) && is_plain(b.parts.2),
        key_of(a) == key_of(b),
    ensures
        a.parts == b.parts,
{
    reveal_strlit("|");
    reveal_strlit("::");
    let bar = seq!['|'];
    assert("|"@ =~= bar);
    let a_end = seq![':'] + barred(a.pairs);
    let b_end = seq![':'] + barred(b.pairs);
    let a_last = a.parts.2 + seq![':'] + a_end;
    let b_last = b.parts.2 + seq![':'] + b_end;
    let a_rest = a.parts.1 + bar + a_last;
    let b_rest = b.parts.1 + bar + b_last;
    assert("::"@ =~= seq![':'] + seq![':']);
    assert(key_of(a) =~= a.parts.0 + bar + a_rest);
    assert(key_of(b) =~= b.parts.0 + bar + b_rest);
    lemma_parted(a.parts.0, a_rest, b.parts.0, b_rest, '|');
    lemma_parted(a.parts.1, a_last, b.parts.1, b_last, '|');
    lemma_parted(a.parts.2, a_end, b.parts.2, b_end, ':');
}

proof fn lemma_goes_over(
    assets: Seq<Seq<char>>,
    making: Making,
    i: int,
    j: int,
    k: int,
    order: Names,
)
    requires
        forall|x: int| 0 <= x < assets.len() ==> is_plain(#[trigger] assets[x]),
        tried_at(making, crate::names::sorted_names(assets), i, j, k, order),
        triangle_of(order, making.edges) is Some,
        is_order_of(order, assets),
    ensures
        goes_over(all_triangles(assets, making), order.0, order.1, order.2),
{
    let triangle = triangle_of(order, making.edges)->0;
    law_no_triangle_is_missed(assets, making, i, j, k, order, triangle);
    let all = all_triangles(assets, making);
    let z = choose|z: int| 0 <= z < all.len() && key_of(#[trigger] all[z]) == key_of(triangle);
    assert(all.contains(all[z]));
    law_triangles_are_closed(assets, making, all[z]);
    lemma_plain_order(assets, all[z].parts);
    lemma_plain_order(assets, order);
    law_keys_tell_triangles_apart(all[z], triangle);
}

proof fn lemma_plain_order(assets: Seq<Seq<char>>, order: Names)
    requires
        forall|x: int| 0 <= x < assets.len() ==> is_plain(#[trigger] assets[x]),
        is_order_of(order, assets),
    ensures
        is_plain(order.0) && is_plain(order.1) && is_plain(order.2),
{
    let x = choose|x: int| 0 <= x < assets.len() && assets[x] == order.0;
    let y = choose|y: int| 0 <= y < assets.len() && assets[y] == order.1;
    let z = choose|z: int| 0 <= z < assets.len() && assets[z] == order.2;
    assert(is_plain(assets[x]) && is_plain(assets[y]) && is_plain(assets[z]));
}

proof fn lemma_place_of(names: Seq<Seq<char>>, a: Seq<char>, b: Seq<char>) -> (at: (int, int))
    requires
        crate::names::strictly_sorted(names),
        names.contains(a),
        names.contains(b),
        crate::text::comes_before(a, b),
    ensures
        0 <= at.0 < at.1 < names.len(),
        names[at.0] == a,
        names[at.1] == b,
{
    let i = choose|i: int| 0 <= i < names.len() && names[i] == a;
    let j = choose|j: int| 0 <= j < names.len() && names[j] == b;
    crate::text::lemma_order_is_total(a, b);
    if j < i {
        assert(crate::text::comes_before(names[j], names[i]));
    }
    (i, j)
}

/// Which triangles three assets of the list make that are all traded for each
/// other, by the choices of the configuration. In the order of their names, a
/// before b before c, the triangle over a, b and c is always made. Where all
/// starts are asked for, it is made from b and from c too. Where reverse cycles
/// are asked for, so is the triangle over a, c and b, and where both are, that
/// from all starts. No others are made of them.
pub proof fn law_triangles_by_the_choices(
    assets: Seq<Seq<char>>,
    config: AutoTriangleGenerationConfig,
    edges: Seq<EdgeView>,
    a: Seq<char>,
    b: Seq<char>,
    c: Seq<char>,
)
    requires
        forall|x: int| 0 <= x < assets.len() ==> is_plain(#[trigger] assets[x]),
        assets.contains(a),
        assets.contains(b),
        assets.contains(c),
        crate::text::comes_before(a, b),
        crate::text::comes_before(b, c),
        are_joined(edges, a, b),
        are_joined(edges, b, c),
        are_joined(edges, a, c),
    ensures
        ({
            let triangles = all_triangles(assets, making_of(config, edges));
            &&& goes_over(triangles, a, b, c)
            &&& goes_over(triangles, b, c, a) <==> config.include_all_starts
            &&& goes_over(triangles, c, a, b) <==> config.include_all_starts
            &&& goes_over(triangles, a, c, b) <==> config.include_reverse_cycles
            &&& goes_over(triangles, c, b, a) <==> config.include_reverse_cycles
                && config.include_all_starts
            &&& goes_over(triangles, b, a, c) <==> config.include_reverse_cycles
                && config.include_all_starts
        }),
{
    let making = making_of(config, edges);
    let names = crate::names::sorted_names(assets);
    crate::names::law_sorted_names(assets);
    crate::text::lemma_order_is_transitive(a, b, c);
    crate::text::lemma_order_is_total(a, b);
    crate::text::lemma_order_is_total(b, c);
    crate::text::lemma_order_is_total(a, c);
    let ij = lemma_place_of(names, a, b);
    let jk = lemma_place_of(names, b, c);
    assert(ij.1 == jk.0) by {
        if ij.1 < jk.0 {
            assert(crate::text::comes_before(names[ij.1], names[jk.0]));
        }
        if jk.0 < ij.1 {
            assert(crate::text::comes_before(names[jk.0], names[ij.1]));
        }
        crate::text::lemma_order_is_total(b, b);
    }
    law_edges_join_both_ways(edges, a, b);
    law_edges_join_both_ways(edges, b, c);
    law_edges_join_both_ways(edges, a, c);
    let i = ij.0;
    let j = ij.1;
    let k = jk.1;
    let there = starts((a, b, c), making.all_starts);
    let back = starts((a, c, b), making.all_starts);
    let list = tried(making, names[i], names[j], names[k]);
    assert(list[0] == (a, b, c));
    assert(tried_at(making, names, i, j, k, (a, b, c)));
    lemma_goes_over(assets, making, i, j, k, (a, b, c));
    if config.include_all_starts {
        assert(list[1] == (b, c, a));
        assert(list[2] == (c, a, b));
        lemma_goes_over(assets, making, i, j, k, (b, c, a));
        lemma_goes_over(assets, making, i, j, k, (c, a, b));
    }
    if config.include_reverse_cycles {
        assert(list[there.len() as int] == (a, c, b));
        lemma_goes_over(assets, making, i, j, k, (a, c, b));
        if config.include_all_starts {
            assert(list[4] == (c, b, a));
            assert(list[5] == (b, a, c));
            lemma_goes_over(assets, making, i, j, k, (c, b, a));
            lemma_goes_over(assets, making, i, j, k, (b, a, c));
        }
    }
    lemma_only_by_the_choices(assets, config, edges, (b, c, a));
    lemma_only_by_the_choices(assets, config, edges, (c, a, b));
    lemma_only_by_the_choices(assets, config, edges, (a, c, b));
    lemma_only_by_the_choices(assets, config, edges, (c, b, a));
    lemma_only_by_the_choices(assets, config, edges, (b, a, c));
}

proof fn lemma_only_by_the_choices(
    assets: Seq<Seq<char>>,
    config: AutoTriangleGenerationConfig,
    edges: Seq<EdgeView>,
    order: Names,
)
    ensures
        goes_over(all_triangles(assets, making_of(config, edges)), order.0, order.1, order.2) ==> {
            &&& is_order_of(order, assets)
            &&& config.include_all_starts || (crate::text::comes_before(order.0, order.1)
                && crate::text::comes_before(order.0, order.2))
            &&& config.include_reverse_cycles || (crate::text::comes_before(order.0, order.1)
                && crate::text::comes_before(order.1, order.2)) || (crate::text::comes_before(
                order.1,
                order.2,
            ) && crate::text::comes_before(order.2, order.0)) || (crate::text::comes_before(
                order.2,
                order.0,
            ) && crate::text::comes_before(order.0, order.1))
        },
{
    let making = making_of(config, edges);
    let all = all_triangles(assets, making);
    if goes_over(all, order.0, order.1, order.2) {
        let z = choose|z: int| 0 <= z < all.len() && (#[trigger] all[z]).parts == order;
        assert(all.contains(all[z]));
        law_triangles_are_closed(assets, making, all[z]);
        let names = crate::names::sorted_names(assets);
        crate::names::law_sorted_names(assets);
        let at = choose|i: int, j: int, k: int| tried_at(making, names, i, j, k, order);
        let (x, y, w) = (names[at.0], names[at.1], names[at.2]);
        assert(tried_at(making, names, at.0, at.1, at.2, order));
        assert(crate::text::comes_before(x, y));
        assert(crate::text::comes_before(y, w));
        assert(crate::text::comes_before(x, w));
        let list = tried(making, x, y, w);
        let n = choose|n: int| 0 <= n < list.len() && list[n] == order;
        assert(list.len() <= 6);
        assert(list[n] == order);
        if config.include_all_starts {
            assert(n == 0 || n == 1 || n == 2 || n == 3 || n == 4 || n == 5);
        } else {
            assert(n == 0 || n == 1);
        }
    }
}

/// Where all starts are asked for, every triangle is made from each of its
/// assets, whether or not reverse cycles are asked for.
pub proof fn law_every_start_is_made(
    assets: Seq<Seq<char>>,
    config: AutoTriangleGenerationConfig,
    edges: Seq<EdgeView>,
    a: Seq<char>,
    b: Seq<char>,
    c: Seq<char>,
)
    requires
        forall|x: int| 0 <= x < assets.len() ==> is_plain(#[trigger] assets[x]),
        config.include_all_starts,
        goes_over(all_triangles(assets, making_of(config, edges)), a, b, c),
    ensures
        goes_over(all_triangles(assets, making_of(config, edges)), b, c, a),
        goes_over(all_triangles(assets, making_of(config, edges)), c, a, b),
{
    let making = making_of(config, edges);
    let all = all_triangles(assets, making);
    let order = (a, b, c);
    let z = choose|z: int| 0 <= z < all.len() && (#[trigger] all[z]).parts == order;
    assert(all.contains(all[z]));
    law_triangles_are_closed(assets, making, all[z]);
    lemma_only_by_the_choices(assets, config, edges, order);
    crate::text::lemma_order_is_total(a, b);
    crate::text::lemma_order_is_total(b, c);
    crate::text::lemma_order_is_total(a, c);
    lemma_joined(edges, a, b);
    lemma_joined(edges, b, c);
    lemma_joined(edges, c, a);
    if crate::text::comes_before(a, b) {
        if crate::text::comes_before(b, c) {
            crate::text::lemma_order_is_transitive(a, b, c);
            law_triangles_by_the_choices(assets, config, edges, a, b, c);
        } else if crate::text::comes_before(a, c) {
            law_triangles_by_the_choices(assets, config, edges, a, c, b);
        } else {
            law_triangles_by_the_choices(assets, config, edges, c, a, b);
        }
    } else {
        if crate::text::comes_before(a, c) {
            crate::text::lemma_order_is_transitive(b, a, c);
            law_triangles_by_the_choices(assets, config, edges, b, a, c);
        } else if crate::text::comes_before(b, c) {
            law_triangles_by_the_choices(assets, config, edges, b, c, a);
        } else {
            law_triangles_by_the_choices(assets, config, edges, c, b, a);
        }
    }
}

proof fn lemma_joined(edges: Seq<EdgeView>, a: Seq<char>, b: Seq<char>)
    requires
        edge_between(edges, a, b) is Some,
        a != b,
    ensures
        crate::text::comes_before(a, b) ==> are_joined(edges, a, b),
        crate::text::comes_before(b, a) ==> are_joined(edges, b, a),
{
    crate::text::lemma_order_is_total(a, b);
    if crate::text::comes_before(a, b) {
        law_edges_join_both_ways(edges, a, b);
    } else {
        law_edges_join_both_ways(edges, b, a);
    }
}

/// Every triangle that is made goes over three different assets of the list, one
/// of which comes first in the order of names. It starts there unless all starts
/// are asked for, and goes on in the order of names, but for where it starts,
/// unless reverse cycles are asked for. Each of its pairs is the symbol of the
/// first edge between two assets, one after the other.
pub proof fn law_only_chosen_triangles(
    assets: Seq<Seq<char>>,
    config: AutoTriangleGenerationConfig,
    edges: Seq<EdgeView>,
    i: int,
)
    requires
        0 <= i < all_triangles(assets, making_of(config, edges)).len(),
    ensures
        ({
            let triangle = all_triangles(assets, making_of(config, edges))[i];
            let (a, b, c) = triangle.parts;
            &&& assets.contains(a) && assets.contains(b) && assets.contains(c)
            &&& a != b && b != c && c != a
            &&& config.include_all_starts || (crate::text::comes_before(a, b)
                && crate::text::comes_before(a, c))
            &&& config.include_reverse_cycles || (crate::text::comes_before(a, b)
                && crate::text::comes_before(b, c)) || (crate::text::comes_before(b, c)
                && crate::text::comes_before(c, a)) || (crate::text::comes_before(c, a)
                && crate::text::comes_before(a, b))
            &&& is_symbol_between(edges, a, b, triangle.pairs.0)
            &&& is_symbol_between(edges, b, c, triangle.pairs.1)
            &&& is_symbol_between(edges, c, a, triangle.pairs.2)
        }),
{
    let making = making_of(config, edges);
    let all = all_triangles(assets, making);
    let triangle = all[i];
    assert(all.contains(triangle));
    law_triangles_are_closed(assets, making, triangle);
    let (a, b, c) = triangle.parts;
    assert(goes_over(all, a, b, c));
    lemma_only_by_the_choices(assets, config, edges, triangle.parts);
    lemma_symbol_between(edges, a, b);
    lemma_symbol_between(edges, b, c);
    lemma_symbol_between(edges, c, a);
}

/// Whether a symbol is that of the first edge that has two assets as its key, in
/// whichever order.
pub open spec fn is_symbol_between(
    edges: Seq<EdgeView>,
    a: Seq<char>,
    b: Seq<char>,
    symbol: Seq<char>,
) -> bool {
    let key = if crate::text::comes_before(a, b) {
        (a, b)
    } else {
        (b, a)
    };
    exists|i: int|
        0 <= i < edges.len() && (#[trigger] edges[i]).key == key && edges[i].symbol == symbol
            && forall|j: int| 0 <= j < i ==> (#[trigger] edges[j]).key != key
}

proof fn lemma_symbol_between(edges: Seq<EdgeView>, a: Seq<char>, b: Seq<char>)
    requires
        a != b,
        edge_between(edges, a, b) is Some,
    ensures
        is_symbol_between(edges, a, b, edge_between(edges, a, b)->0.symbol),
{
    crate::text::lemma_order_is_total(a, b);
    if crate::text::comes_before(a, b) {
        law_edges_join_both_ways(edges, a, b);
    } else {
        law_edges_join_both_ways(edges, b, a);
    }
    let edge = edge_between(edges, a, b)->0;
    let key = in_order(a, b);
    let i = choose|i: int|
        0 <= i < edges.len() && #[trigger] edges[i] == edge && edges[i].key == key && forall|j: int|
            0 <= j < i ==> (#[trigger] edges[j]).key != key;
    assert(edges[i].symbol == edge.symbol);
}

/// Whatever the names, the triangles that three assets owe by the choices of the
/// configuration are in the list, or others that share the text by which
/// triangles are told apart.
pub proof fn law_triangles_by_the_choices_or_their_like(
    assets: Seq<Seq<char>>,
    config: AutoTriangleGenerationConfig,
    edges: Seq<EdgeView>,
    a: Seq<char>,
    b: Seq<char>,
    c: Seq<char>,
    ab: Seq<char>,
    bc: Seq<char>,
    ca: Seq<char>,
)
    requires
        assets.contains(a),
        assets.contains(b),
        assets.contains(c),
        crate::text::comes_before(a, b),
        crate::text::comes_before(b, c),
        edge_between(edges, a, b) matches Some(edge) && edge.symbol == ab,
        edge_between(edges, b, c) matches Some(edge) && edge.symbol == bc,
        edge_between(edges, a, c) matches Some(edge) && edge.symbol == ca,
    ensures
        ({
            let triangles = all_triangles(assets, making_of(config, edges));
            let there = a + "|"@ + b + "|"@ + c + "::"@ + (ab + "|"@ + bc + "|"@ + ca);
            let there_from_b = b + "|"@ + c + "|"@ + a + "::"@ + (bc + "|"@ + ca + "|"@ + ab);
            let there_from_c = c + "|"@ + a + "|"@ + b + "::"@ + (ca + "|"@ + ab + "|"@ + bc);
            let back = a + "|"@ + c + "|"@ + b + "::"@ + (ca + "|"@ + bc + "|"@ + ab);
            let back_from_c = c + "|"@ + b + "|"@ + a + "::"@ + (bc + "|"@ + ab + "|"@ + ca);
            let back_from_b = b + "|"@ + a + "|"@ + c + "::"@ + (ab + "|"@ + ca + "|"@ + bc);
            &&& has_key(triangles, there)
            &&& config.include_all_starts ==> has_key(triangles, there_from_b) && has_key(
                triangles,
                there_from_c,
            )
            &&& config.include_reverse_cycles ==> has_key(triangles, back)
            &&& config.include_reverse_cycles && config.include_all_starts ==> has_key(
                triangles,
                back_from_c,
            ) && has_key(triangles, back_from_b)
        }),
{
    let making = making_of(config, edges);
    let names = crate::names::sorted_names(assets);
    crate::names::law_sorted_names(assets);
    crate::text::lemma_order_is_transitive(a, b, c);
    crate::text::lemma_order_is_total(a, b);
    crate::text::lemma_order_is_total(b, c);
    crate::text::lemma_order_is_total(a, c);
    let ij = lemma_place_of(names, a, b);
    let jk = lemma_place_of(names, b, c);
    assert(ij.1 == jk.0) by {
        if ij.1 < jk.0 {
            assert(crate::text::comes_before(names[ij.1], names[jk.0]));
        }
        if jk.0 < ij.1 {
            assert(crate::text::comes_before(names[jk.0], names[ij.1]));
        }
        crate::text::lemma_order_is_total(b, b);
    }
    law_edges_join_both_ways(edges, a, b);
    law_edges_join_both_ways(edges, b, c);
    law_edges_join_both_ways(edges, a, c);
    let i = ij.0;
    let j = ij.1;
    let k = jk.1;
    let there = starts((a, b, c), making.all_starts);
    let list = tried(making, names[i], names[j], names[k]);
    assert(list[0] == (a, b, c));
    assert(tried_at(making, names, i, j, k, (a, b, c)));
    let forth = triangle_of((a, b, c), edges)->0;
    law_no_triangle_is_missed(assets, making, i, j, k, (a, b, c), forth);
    if config.include_all_starts {
        assert(list[1] == (b, c, a));
        assert(list[2] == (c, a, b));
        let second = triangle_of((b, c, a), edges)->0;
        let third = triangle_of((c, a, b), edges)->0;
        law_no_triangle_is_missed(assets, making, i, j, k, (b, c, a), second);
        law_no_triangle_is_missed(assets, making, i, j, k, (c, a, b), third);
    }
    if config.include_reverse_cycles {
        assert(list[there.len() as int] == (a, c, b));
        let first = triangle_of((a, c, b), edges)->0;
        law_no_triangle_is_missed(assets, making, i, j, k, (a, c, b), first);
        if config.include_all_starts {
            assert(list[4] == (c, b, a));
            assert(list[5] == (b, a, c));
            let second = triangle_of((c, b, a), edges)->0;
            let third = triangle_of((b, a, c), edges)->0;
            law_no_triangle_is_missed(assets, making, i, j, k, (c, b, a), second);
            law_no_triangle_is_missed(assets, making, i, j, k, (b, a, c), third);
        }
    }
}

proof fn lemma_parts_of(triangles: Seq<TriangleView>, asset: Seq<char>)
    ensures
        parts_of(triangles).contains(asset) <==> exists|i: int|
            0 <= i < triangles.len() && ((#[trigger] triangles[i]).parts.0 == asset
                || triangles[i].parts.1 == asset || triangles[i].parts.2 == asset),
    decreases triangles.len(),
{
    if triangles.len() > 0 {
        let rest = triangles.drop_last();
        let parts = triangles.last().parts;
        lemma_parts_of(rest, asset);
        crate::names::lemma_pushed(parts_of(rest), parts.0, asset);
        crate::names::lemma_pushed(parts_of(rest).push(parts.0), parts.1, asset);
        crate::names::lemma_pushed(parts_of(rest).push(parts.0).push(parts.1), parts.2, asset);
        if parts_of(rest).contains(asset) {
            let i = choose|i: int|
                0 <= i < rest.len() && ((#[trigger] rest[i]).parts.0 == asset || rest[i].parts.1
                    == asset || rest[i].parts.2 == asset);
            assert(triangles[i] == rest[i]);
        }
        if parts.0 == asset || parts.1 == asset || parts.2 == asset {
            assert(triangles[triangles.len() - 1].parts == parts);
        }
        if exists|i: int|
            0 <= i < triangles.len() && ((#[trigger] triangles[i]).parts.0 == asset
                || triangles[i].parts.1 == asset || triangles[i].parts.2 == asset) {
            let i = choose|i: int|
                0 <= i < triangles.len() && ((#[trigger] triangles[i]).parts.0 == asset
                    || triangles[i].parts.1 == asset || triangles[i].parts.2 == asset);
            if i < rest.len() {
                assert(rest[i] == triangles[i]);
            }
        }
    }
}

/// The used assets of a universe are exactly the assets of its triangles.
pub proof fn law_used_assets_are_the_parts(triangles: Seq<TriangleView>, asset: Seq<char>)
    ensures
        crate::names::strictly_sorted(crate::names::sorted_names(parts_of(triangles))),
        crate::names::sorted_names(parts_of(triangles)).contains(asset) <==> exists|i: int|
            0 <= i < triangles.len() && ((#[trigger] triangles[i]).parts.0 == asset
                || triangles[i].parts.1 == asset || triangles[i].parts.2 == asset),
{
    crate::names::law_sorted_names(parts_of(triangles));
    lemma_parts_of(triangles, asset);
}

/// The triangles of a universe are the first ones of all, as many as the limit
/// allows; zero is no limit.
pub proof fn law_generated_are_the_first(
    assets: Seq<Seq<char>>,
    config: AutoTriangleGenerationConfig,
    symbols: Seq<BinanceSymbol>,
)
    ensures
        ({
            let all = all_triangles(assets, making_of(config, edges_from(symbols, assets)));
            let kept = generated(assets, config, symbols);
            &&& config.max_triangles == 0 || all.len() <= config.max_triangles ==> kept == all
            &&& config.max_triangles > 0 && all.len() > config.max_triangles ==> kept.len()
                == config.max_triangles
            &&& forall|i: int| 0 <= i < kept.len() ==> #[trigger] kept[i] == all[i]
        }),
{
}

/// Whether a symbol of the exchange can be used for two assets of a list: it is
/// trading, on the spot market too, and it is made of the two, in small letters.
pub open spec fn joins(
    symbol: BinanceSymbol,
    assets: Seq<Seq<char>>,
    a: Seq<char>,
    b: Seq<char>,
) -> bool {
    let base = crate::text::lowered(symbol.base_asset@);
    let quote = crate::text::lowered(symbol.quote_asset@);
    &&& symbol.status@ == "TRADING"@
    &&& symbol.is_spot_trading_allowed
    &&& assets.contains(a) && assets.contains(b)
    &&& (base == a && quote == b) || (base == b && quote == a)
}

/// The edges between assets are made by the symbols that can be used: two assets
/// are joined exactly where a symbol joins them, and the edge that counts has the
/// name of the first such symbol, in small letters, and its demands.
pub proof fn law_edges_are_the_symbols(
    symbols: Seq<BinanceSymbol>,
    assets: Seq<Seq<char>>,
    a: Seq<char>,
    b: Seq<char>,
)
    requires
        crate::text::comes_before(a, b),
    ensures
        are_joined(edges_from(symbols, assets), a, b) <==> exists|i: int|
            0 <= i < symbols.len() && joins(#[trigger] symbols[i], assets, a, b),
        forall|i: int|
            0 <= i < symbols.len() && joins(#[trigger] symbols[i], assets, a, b) && (forall|j: int|
                0 <= j < i ==> !joins(#[trigger] symbols[j], assets, a, b)) ==> {
                let edge = edge_between(edges_from(symbols, assets), a, b);
                &&& edge is Some
                &&& edge->0.symbol == crate::text::lowered(symbols[i].symbol@)
                &&& edge->0.pair_rule == rule_of(symbols[i].filters@)
            },
    decreases symbols.len(),
{
    let edges = edges_from(symbols, assets);
    crate::text::lemma_order_is_total(a, b);
    law_edges_join_both_ways(edges, a, b);
    if symbols.len() > 0 {
        let rest = symbols.drop_last();
        let before = edges_from(rest, assets);
        let symbol = symbols.last();
        law_edges_are_the_symbols(rest, assets, a, b);
        law_edges_join_both_ways(before, a, b);
        let base = crate::text::lowered(symbol.base_asset@);
        let quote = crate::text::lowered(symbol.quote_asset@);
        crate::text::lemma_order_is_total(base, quote);
        assert(symbol == symbols[symbols.len() - 1]);
        assert forall|i: int| 0 <= i < rest.len() implies rest[i] == #[trigger] symbols[i] by {}
        assert(joins(symbol, assets, a, b) <==> usable(symbol, assets) && edge_from(symbol).key == (
            a,
            b,
        ));
        if edges != before {
            lemma_edge_pushed(before, edge_from(symbol), (a, b));
        }
        if exists|i: int| 0 <= i < rest.len() && joins(#[trigger] rest[i], assets, a, b) {
            let i = choose|i: int| 0 <= i < rest.len() && joins(#[trigger] rest[i], assets, a, b);
            assert(joins(symbols[i], assets, a, b));
        }
        if exists|i: int| 0 <= i < symbols.len() && joins(#[trigger] symbols[i], assets, a, b) {
            let i = choose|i: int|
                0 <= i < symbols.len() && joins(#[trigger] symbols[i], assets, a, b);
            if i < rest.len() {
                assert(joins(rest[i], assets, a, b));
            }
        }
        assert forall|i: int|
            0 <= i < symbols.len() && joins(#[trigger] symbols[i], assets, a, b) && (forall|j: int|
                0 <= j < i ==> !joins(#[trigger] symbols[j], assets, a, b)) implies {
            let edge = edge_between(edges, a, b);
            &&& edge is Some
            &&& edge->0.symbol == crate::text::lowered(symbols[i].symbol@)
            &&& edge->0.pair_rule == rule_of(symbols[i].filters@)
        } by {
            if i < rest.len() {
                assert(joins(rest[i], assets, a, b));
                assert forall|j: int| 0 <= j < i implies !joins(#[trigger] rest[j], assets, a, b) by {
                    assert(rest[j] == symbols[j]);
                }
            } else {
                assert forall|j: int| 0 <= j < rest.len() implies !joins(
                    #[trigger] rest[j],
                    assets,
                    a,
                    b,
                ) by {
                    assert(rest[j] == symbols[j]);
                }
            }
        }
    }
}

proof fn lemma_edge_pushed(edges: Seq<EdgeView>, edge: EdgeView, key: (Seq<char>, Seq<char>))
    ensures
        edge_with_key(edges, key) is Some ==> edge_with_key(edges.push(edge), key) == edge_with_key(
            edges,
            key,
        ),
        edge_with_key(edges, key) is None && edge.key == key ==> edge_with_key(edges.push(edge), key)
            == Some(edge),
        edge_with_key(edges, key) is None && edge.key != key ==> edge_with_key(edges.push(edge), key)
            is None,
    decreases edges.len(),
{
    let after = edges.push(edge);
    if edges.len() == 0 {
        assert(after.drop_first() =~= Seq::<EdgeView>::empty());
        assert(edge_with_key(after.drop_first(), key) is None);
    } else {
        assert(after[0] == edges[0]);
        assert(after.drop_first() =~= edges.drop_first().push(edge));
        lemma_edge_pushed(edges.drop_first(), edge, key);
    }
}

/// Whether a demand is of a type.
pub open spec fn is_filter(filter: SymbolFilter, kind: Seq<char>) -> bool {
    filter.fields@.dom().contains("filterType"@) && filter.fields@["filterType"@]@ == kind
}

/// Where the demands on a pair come from. The smallest quantity and the step are
/// those of the last lot size, if there is any. The smallest notional is that of
/// the last demand of its own type, as long as that is a number; without a demand
/// of that type, it is the first number among those of the other type. There is
/// no fee among them.
pub proof fn law_demands_are_those_of_the_filters(filters: Seq<SymbolFilter>, i: int)
    requires
        0 <= i < filters.len(),
    ensures
        rule_of(filters).fee_bps is None,
        (forall|j: int| 0 <= j < filters.len() ==> !is_filter(#[trigger] filters[j], "LOT_SIZE"@))
            ==> rule_of(filters).min_qty is None && rule_of(filters).qty_step is None,
        is_filter(filters[i], "LOT_SIZE"@) && (forall|j: int|
            i < j < filters.len() ==> !is_filter(#[trigger] filters[j], "LOT_SIZE"@)) ==> {
            &&& rule_of(filters).min_qty == filter_number(filters[i], "minQty"@)
            &&& rule_of(filters).qty_step == filter_number(filters[i], "stepSize"@)
        },
        (forall|j: int|
            0 <= j < filters.len() ==> !is_filter(#[trigger] filters[j], "MIN_NOTIONAL"@)
                && !is_filter(filters[j], "NOTIONAL"@)) ==> rule_of(filters).min_notional is None,
        is_filter(filters[i], "MIN_NOTIONAL"@) && filter_number(filters[i], "minNotional"@) is Some
            && (forall|j: int|
            i < j < filters.len() ==> !is_filter(#[trigger] filters[j], "MIN_NOTIONAL"@))
            ==> rule_of(filters).min_notional == filter_number(filters[i], "minNotional"@),
        (forall|j: int|
            0 <= j < filters.len() ==> !is_filter(#[trigger] filters[j], "MIN_NOTIONAL"@))
            && is_filter(filters[i], "NOTIONAL"@) && filter_number(filters[i], "minNotional"@)
            is Some && (forall|j: int|
            0 <= j < i && is_filter(#[trigger] filters[j], "NOTIONAL"@) ==> filter_number(
                filters[j],
                "minNotional"@,
            ) is None) ==> rule_of(filters).min_notional == filter_number(
            filters[i],
            "minNotional"@,
        ),
    decreases filters.len(),
{
    reveal_strlit("LOT_SIZE");
    reveal_strlit("MIN_NOTIONAL");
    reveal_strlit("NOTIONAL");
    let rest = filters.drop_last();
    let last = filters.last();
    assert(last == filters[filters.len() - 1]);
    assert forall|j: int| 0 <= j < rest.len() implies rest[j] == #[trigger] filters[j] by {}
    assert("LOT_SIZE"@.len() == 8 && "MIN_NOTIONAL"@.len() == 12);
    assert("NOTIONAL"@[0] == 'N' && "LOT_SIZE"@[0] == 'L' && "MIN_NOTIONAL"@[0] == 'M');
    if rest.len() == 0 {
        assert(rule_of(rest) == PairRuleView {
            fee_bps: None,
            qty_step: None,
            min_qty: None,
            min_notional: None,
        });
    } else {
        if i < rest.len() {
            law_demands_are_those_of_the_filters(rest, i);
        } else {
            law_demands_are_those_of_the_filters(rest, 0);
            lemma_no_number_before(rest);
        }
        assert forall|j: int| 0 <= j < rest.len() implies rest[j] == #[trigger] filters[j] by {}
    }
}

proof fn lemma_no_number_before(filters: Seq<SymbolFilter>)
    ensures
        (forall|j: int|
            0 <= j < filters.len() ==> !is_filter(#[trigger] filters[j], "MIN_NOTIONAL"@) && (
            is_filter(filters[j], "NOTIONAL"@) ==> filter_number(filters[j], "minNotional"@) is None))
            ==> rule_of(filters).min_notional is None,
    decreases filters.len(),
{
    if filters.len() > 0 {
        let rest = filters.drop_last();
        lemma_no_number_before(rest);
        assert(filters.last() == filters[filters.len() - 1]);
        assert forall|j: int| 0 <= j < rest.len() implies rest[j] == #[trigger] filters[j] by {}
    }
}

/// Triangles come in the order of their first assets, those with the same first
/// asset in that of their second ones, and so on with their third ones and then
/// with their pairs.
pub proof fn law_triangles_come_by_their_names(
    assets: Seq<Seq<char>>,
    config: AutoTriangleGenerationConfig,
    edges: Seq<EdgeView>,
    i: int,
    j: int,
)
    requires
        0 <= i < j < all_triangles(assets, making_of(config, edges)).len(),
    ensures
        ({
            let all = all_triangles(assets, making_of(config, edges));
            let (a, b) = (all[i], all[j]);
            ||| crate::text::comes_before(a.parts.0, b.parts.0)
            ||| a.parts.0 == b.parts.0 && crate::text::comes_before(a.parts.1, b.parts.1)
            ||| a.parts.0 == b.parts.0 && a.parts.1 == b.parts.1 && crate::text::comes_before(
                a.parts.2,
                b.parts.2,
            )
        }),
{
    let making = making_of(config, edges);
    let all = all_triangles(assets, making);
    let (a, b) = (all[i], all[j]);
    law_triangles_differ(assets, making);
    assert(all.contains(a));
    assert(all.contains(b));
    law_triangles_are_closed(assets, making, a);
    law_triangles_are_closed(assets, making, b);
    law_triangle_order_is_total(a, b);
    assert(!triangle_before(b, a));
    assert(a != b);
    assert(a.parts != b.parts);
}

/// An asset is cleaned by taking the white space around it off and making its
/// letters small. A list is cleaned asset by asset: one more is added at the end,
/// cleaned, unless nothing is left of it or it is there already.
pub proof fn law_assets_are_cleaned_in_order(assets: Seq<Seq<char>>, asset: Seq<char>)
    ensures
        ({
            let name = crate::text::lowered(crate::text::trimmed(asset));
            &&& clean(asset) == name
            &&& cleaned(Seq::empty()) == Seq::<Seq<char>>::empty()
            &&& name.len() == 0 || cleaned(assets).contains(name) ==> cleaned(assets.push(asset))
                == cleaned(assets)
            &&& name.len() > 0 && !cleaned(assets).contains(name) ==> cleaned(assets.push(asset))
                == cleaned(assets).push(name)
        }),
{
    assert(assets.push(asset).drop_last() =~= assets);
}

/// Every edge joins two different assets of the list, in the order of their names.
pub proof fn law_edges_join_two_assets(
    symbols: Seq<BinanceSymbol>,
    assets: Seq<Seq<char>>,
    i: int,
)
    requires
        0 <= i < edges_from(symbols, assets).len(),
    ensures
        ({
            let key = edges_from(symbols, assets)[i].key;
            assets.contains(key.0) && assets.contains(key.1) && crate::text::comes_before(
                key.0,
                key.1,
            )
        }),
    decreases symbols.len(),
{
    if symbols.len() > 0 {
        let before = edges_from(symbols.drop_last(), assets);
        if i < before.len() {
            law_edges_join_two_assets(symbols.drop_last(), assets, i);
        } else {
            let symbol = symbols.last();
            crate::text::lemma_order_is_total(
                crate::text::lowered(symbol.base_asset@),
                crate::text::lowered(symbol.quote_asset@),
            );
        }
    }
}

/// The demands of a universe on a pair are those of the first edge with the pair's
/// symbol.
pub proof fn law_demands_are_those_of_the_first_edge(
    pairs: Seq<Seq<char>>,
    edges: Seq<EdgeView>,
    i: int,
)
    requires
        0 <= i < edges.len(),
        pairs.contains(edges[i].symbol),
        forall|j: int| 0 <= j < i ==> (#[trigger] edges[j]).symbol != edges[i].symbol,
    ensures
        rules_for(pairs, edges).dom().contains(edges[i].symbol),
        rules_for(pairs, edges)[edges[i].symbol] == edges[i].pair_rule,
{
    lemma_first_with_symbol(edges, i);
}

proof fn lemma_first_with_symbol(edges: Seq<EdgeView>, i: int)
    requires
        0 <= i < edges.len(),
        forall|j: int| 0 <= j < i ==> (#[trigger] edges[j]).symbol != edges[i].symbol,
    ensures
        edge_with_symbol(edges, edges[i].symbol) == Some(edges[i]),
    decreases edges.len(),
{
    if i > 0 {
        let rest = edges.drop_first();
        assert(edges[0].symbol != edges[i].symbol);
        assert(rest[i - 1] == edges[i]);
        assert forall|j: int| 0 <= j < i - 1 implies (#[trigger] rest[j]).symbol
            != rest[i - 1].symbol by {
            assert(rest[j] == edges[j + 1]);
        }
        lemma_first_with_symbol(rest, i - 1);
    }
}

/// An order of three assets walked from the next one, and from the one after that.
pub proof fn law_rotations(order: Names, shift: int)
    requires
        shift >= 0,
    ensures
        rotated(order, 0) == order,
        rotated(order, 1) == (order.1, order.2, order.0),
        rotated(order, 2) == (order.2, order.0, order.1),
        rotated(rotated(order, shift), 1) == rotated(order, shift + 1),
        rotated(order, shift + 3) == rotated(order, shift),
{
    assert((shift + 1) % 3 == (shift % 3 + 1) % 3) by (nonlinear_arith)
        requires
            shift >= 0,
    ;
    assert((shift + 3) % 3 == shift % 3) by (nonlinear_arith)
        requires
            shift >= 0,
    ;
}

/// An order of assets makes a triangle exactly where each asset is traded for the
/// one that follows it, and the third for the first; its pairs are the symbols, in
/// that order.
pub proof fn law_orders_make_triangles(order: Names, edges: Seq<EdgeView>)
    ensures
        triangle_of(order, edges) is Some <==> edge_between(edges, order.0, order.1) is Some
            && edge_between(edges, order.1, order.2) is Some && edge_between(
            edges,
            order.2,
            order.0,
        ) is Some,
        triangle_of(order, edges) matches Some(triangle) ==> {
            &&& triangle.parts == order
            &&& triangle.pairs.0 == edge_between(edges, order.0, order.1)->0.symbol
            &&& triangle.pairs.1 == edge_between(edges, order.1, order.2)->0.symbol
            &&& triangle.pairs.2 == edge_between(edges, order.2, order.0)->0.symbol
        },
{
}

/// The number under a key of a demand is the one that its text writes; there is
/// none without the key or where the text writes none.
pub proof fn law_demand_numbers(filter: SymbolFilter, key: Seq<char>)
    ensures
        filter.fields@.dom().contains(key) ==> filter_number(filter, key)
            == crate::decimal::number_in_text(filter.fields@[key]@),
        !filter.fields@.dom().contains(key) ==> filter_number(filter, key) is None,
{
}

} // verus!
