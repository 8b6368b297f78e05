//! Putting rows in the order of what they came to, the highest first.

use vstd::prelude::*;

use crate::decimal::Decimal;
use crate::float_key::FloatKey;

verus! {

/// Whether `order` lists all rows once, from the highest place on, and rows of
/// one place in the order in which they stand.
pub open spec fn is_ranking(places: Seq<int>, order: Seq<usize>) -> bool {
    &&& order.len() == places.len()
    &&& forall|i: int| 0 <= i < order.len() ==> (#[trigger] order[i]) < places.len()
    &&& forall|i: int, j: int|
        0 <= i < j < order.len() ==> comes_first(
            places,
            #[trigger] order[i] as int,
            #[trigger] order[j] as int,
        )
}

/// Whether a row is ranked ahead of another.
pub open spec fn comes_first(places: Seq<int>, a: int, b: int) -> bool {
    places[a] > places[b] || (places[a] == places[b] && a < b)
}

/// A ranking lists no row twice.
pub proof fn law_ranking_lists_each_row_once(places: Seq<int>, order: Seq<usize>)
    requires
        is_ranking(places, order),
    ensures
        order.no_duplicates(),
{
}

/// There is only one ranking.
pub proof fn law_ranking_is_unique(places: Seq<int>, a: Seq<usize>, b: Seq<usize>)
    requires
        is_ranking(places, a),
        is_ranking(places, b),
    ensures
        a == b,
{
    assert forall|i: int| 0 <= i < a.len() implies a[i] == b[i] by {
        lemma_same_prefix(places, a, b, i + 1);
    }
    assert(a =~= b);
}

/// A ranking leaves no row out.
proof fn lemma_every_row_is_listed(places: Seq<int>, order: Seq<usize>, row: int)
    requires
        is_ranking(places, order),
        0 <= row < places.len(),
    ensures
        exists|i: int| 0 <= i < order.len() && #[trigger] order[i] == row,
{
    let rows = order.map_values(|x: usize| x as int);
    law_ranking_lists_each_row_once(places, order);
    assert(rows.no_duplicates());
    let all = vstd::set_lib::set_int_range(0, places.len() as int);
    vstd::set_lib::lemma_int_range(0, places.len() as int);
    rows.unique_seq_to_set();
    assert(rows.to_set().subset_of(all));
    vstd::set_lib::lemma_subset_equality(rows.to_set(), all);
    assert(rows.to_set().contains(row));
    let i = choose|i: int| 0 <= i < rows.len() && rows[i] == row;
    assert(order[i] == row);
}

proof fn lemma_same_prefix(places: Seq<int>, a: Seq<usize>, b: Seq<usize>, n: int)
    requires
        is_ranking(places, a),
        is_ranking(places, b),
        0 <= n <= a.len(),
    ensures
        forall|i: int| 0 <= i < n ==> a[i] == b[i],
    decreases n,
{
    if n > 0 {
        lemma_same_prefix(places, a, b, n - 1);
        let k = n - 1;
        if a[k] != b[k] {
            lemma_every_row_is_listed(places, b, a[k] as int);
            let i = choose|i: int| 0 <= i < b.len() && #[trigger] b[i] == a[k];
            lemma_every_row_is_listed(places, a, b[k] as int);
            let j = choose|j: int| 0 <= j < a.len() && #[trigger] a[j] == b[k];
            if i < k {
                assert(a[i] == b[i]);
                assert(comes_first(places, a[i] as int, a[k] as int));
            }
            if j < k {
                assert(a[j] == b[j]);
                assert(comes_first(places, b[j] as int, b[k] as int));
            }
            assert(comes_first(places, b[k] as int, b[i] as int));
            assert(comes_first(places, a[k] as int, a[j] as int));
        }
    }
}

proof fn lemma_ranked_in(places: Seq<int>, order: Seq<usize>, n: usize, at: int)
    requires
        n < places.len(),
        is_ranking(places.take(n as int), order),
        0 <= at <= order.len(),
        forall|i: int| 0 <= i < at ==> places[(#[trigger] order[i]) as int] >= places[n as int],
        forall|i: int|
            at <= i < order.len() ==> places[(#[trigger] order[i]) as int] < places[n as int],
    ensures
        is_ranking(places.take(n + 1), order.insert(at, n)),
{
    let before = places.take(n as int);
    let now = places.take(n + 1);
    let after = order.insert(at, n);
    assert forall|i: int, j: int| 0 <= i < j < after.len() implies comes_first(
        now,
        #[trigger] after[i] as int,
        #[trigger] after[j] as int,
    ) by {
        let a = if i < at {
            i
        } else {
            i - 1
        };
        let b = if j < at {
            j
        } else {
            j - 1
        };
        if i != at && j != at {
            assert(comes_first(before, order[a] as int, order[b] as int));
        } else if i == at {
            assert(places[order[b] as int] < places[n as int]);
        } else {
            assert(places[order[a] as int] >= places[n as int]);
            assert(order[a] < before.len());
        }
    }
}

/// The places of floating-point numbers in the total order.
pub open spec fn float_places(values: Seq<FloatKey>) -> Seq<int> {
    values.map_values(|v: FloatKey| v.key as int)
}

/// Ranks rows by floating-point numbers, in the total order.
pub fn rank_floats(values: &Vec<FloatKey>) -> (r: Vec<usize>)
    ensures
        is_ranking(float_places(values@), r@),
{
    let ghost places = float_places(values@);
    let mut order: Vec<usize> = Vec::new();
    let mut n: usize = 0;
    while n < values.len()
        invariant
            n <= values@.len(),
            places == float_places(values@),
            is_ranking(places.take(n as int), order@),
        decreases values@.len() - n,
    {
        let mut at: usize = order.len();
        while at > 0 && values[order[at - 1]].key < values[n].key
            invariant
                at <= order@.len(),
                n < values@.len(),
                places == float_places(values@),
                is_ranking(places.take(n as int), order@),
                forall|i: int|
                    at <= i < order@.len() ==> places[(#[trigger] order@[i]) as int]
                        < places[n as int],
            decreases at,
        {
            at = at - 1;
        }
        proof {
            assert forall|i: int| 0 <= i < at implies places[(#[trigger] order@[i]) as int]
                >= places[n as int] by {
                let before = places.take(n as int);
                assert(places[order@[at - 1] as int] >= places[n as int]);
                if i < at - 1 {
                    assert(comes_first(before, order@[i] as int, order@[at - 1] as int));
                }
            }
            lemma_ranked_in(places, order@, n, at as int);
        }
        order.insert(at, n);
        n = n + 1;
    }
    proof {
        assert(places.take(n as int) =~= places);
    }
    order
}

/// The places of decimal numbers in the order of numbers.
pub open spec fn decimal_places(values: Seq<Decimal>) -> Seq<int> {
    values.map_values(|v: Decimal| v.amount())
}

/// Ranks rows by decimal numbers.
pub fn rank_decimals(values: &Vec<Decimal>) -> (r: Vec<usize>)
    ensures
        is_ranking(decimal_places(values@), r@),
{
    let ghost places = decimal_places(values@);
    let mut order: Vec<usize> = Vec::new();
    let mut n: usize = 0;
    while n < values.len()
        invariant
            n <= values@.len(),
            places == decimal_places(values@),
            is_ranking(places.take(n as int), order@),
        decreases values@.len() - n,
    {
        let mut at: usize = order.len();
        while at > 0 && values[order[at - 1]].below(values[n])
            invariant
                at <= order@.len(),
                n < values@.len(),
                places == decimal_places(values@),
                is_ranking(places.take(n as int), order@),
                forall|i: int|
                    at <= i < order@.len() ==> places[(#[trigger] order@[i]) as int]
                        < places[n as int],
            decreases at,
        {
            at = at - 1;
        }
        proof {
            assert forall|i: int| 0 <= i < at implies places[(#[trigger] order@[i]) as int]
                >= places[n as int] by {
                let before = places.take(n as int);
                assert(places[order@[at - 1] as int] >= places[n as int]);
                if i < at - 1 {
                    assert(comes_first(before, order@[i] as int, order@[at - 1] as int));
                }
            }
            lemma_ranked_in(places, order@, n, at as int);
        }
        order.insert(at, n);
        n = n + 1;
    }
    proof {
        assert(places.take(n as int) =~= places);
    }
    order
}

/// A ranking lists every row once, none behind a row with a lower place, and of
/// rows with the same place the one that stands first ahead.
pub proof fn law_ranking_goes_down(places: Seq<int>, order: Seq<usize>, row: int)
    requires
        is_ranking(places, order),
        0 <= row < places.len(),
    ensures
        order.len() == places.len(),
        exists|i: int| 0 <= i < order.len() && #[trigger] order[i] == row,
        forall|i: int, j: int|
            0 <= i < j < order.len() ==> order[i] != order[j] && places[(#[trigger] order[i]) as int]
                >= places[(#[trigger] order[j]) as int],
        forall|i: int, j: int|
            0 <= i < j < order.len() && places[(#[trigger] order[i]) as int] == places[(
            #[trigger] order[j]) as int] ==> order[i] < order[j],
{
    lemma_every_row_is_listed(places, order, row);
    assert forall|i: int, j: int| 0 <= i < j < order.len() implies order[i] != order[j] && places[(
    #[trigger] order[i]) as int] >= places[(#[trigger] order[j]) as int] by {
        assert(comes_first(places, order[i] as int, order[j] as int));
    }
    assert forall|i: int, j: int|
        0 <= i < j < order.len() && places[(#[trigger] order[i]) as int] == places[(
        #[trigger] order[j]) as int] implies order[i] < order[j] by {
        assert(comes_first(places, order[i] as int, order[j] as int));
    }
}

/// Rows are ranked by the numbers themselves: floating-point numbers by their
/// keys, and decimal numbers by their amounts, place by place.
pub proof fn law_rows_are_ranked_by_their_numbers(
    floats: Seq<FloatKey>,
    decimals: Seq<Decimal>,
    i: int,
)
    ensures
        float_places(floats).len() == floats.len(),
        decimal_places(decimals).len() == decimals.len(),
        0 <= i < floats.len() ==> float_places(floats)[i] == floats[i].key,
        0 <= i < decimals.len() ==> decimal_places(decimals)[i] == crate::decimal::place(decimals[i]@),
{
}

} // verus!
