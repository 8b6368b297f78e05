//! Lists of names in their order.

use vstd::prelude::*;

use crate::text::{same_string, text_precedes};

verus! {

/// A sorted list of names with one more name in it; the same list where it
/// holds the name already.
pub open spec fn with_name(names: Seq<Seq<char>>, name: Seq<char>) -> Seq<Seq<char>>
    decreases names.len(),
{
    if names.len() == 0 {
        seq![name]
    } else if names.last() == name {
        names
    } else if crate::text::comes_before(names.last(), name) {
        names.push(name)
    } else {
        with_name(names.drop_last(), name).push(names.last())
    }
}

/// Names in their order, each once.
pub open spec fn sorted_names(names: Seq<Seq<char>>) -> Seq<Seq<char>>
    decreases names.len(),
{
    if names.len() == 0 {
        Seq::empty()
    } else {
        with_name(sorted_names(names.drop_last()), names.last())
    }
}

/// Puts a name into a sorted list.
pub fn add_name(names: &mut Vec<String>, name: &String)
    ensures
        crate::text::texts(final(names)@) == with_name(crate::text::texts(old(names)@), name@),
{
    let ghost list = crate::text::texts(names@);
    let ghost strings = names@;
    let mut i: usize = names.len();
    proof {
        assert(list.take(i as int) + list.skip(i as int) =~= list);
        assert(with_name(list, name@) + list.skip(i as int) =~= with_name(list, name@));
        assert(list.take(i as int) =~= list);
    }
    while i > 0 && !same_string(&names[i - 1], name) && !text_precedes(
        names[i - 1].as_str(),
        name.as_str(),
    )
        invariant
            i <= names@.len(),
            names@ == strings,
            list == crate::text::texts(names@),
            with_name(list, name@) == with_name(list.take(i as int), name@) + list.skip(i as int),
        decreases i,
    {
        proof {
            let part = list.take(i as int);
            assert(part.last() == names@[i - 1]@);
            assert(part.drop_last() =~= list.take(i - 1));
            assert(with_name(list.take(i - 1), name@).push(part.last()) + list.skip(i as int)
                =~= with_name(list.take(i - 1), name@) + list.skip(i - 1));
        }
        i = i - 1;
    }
    proof {
        if i > 0 {
            assert(list.take(i as int).last() == names@[i - 1]@);
        }
    }
    if i > 0 && same_string(&names[i - 1], name) {
        proof {
            assert(list.take(i as int) + list.skip(i as int) =~= list);
        }
        return;
    }
    names.insert(i, name.clone());
    proof {
        assert(crate::text::texts(names@) =~= list.take(i as int).push(name@) + list.skip(i as int));
        assert(list.take(0).push(name@) =~= seq![name@]);
    }
}

/// Whether names are in their order, each once.
pub open spec fn strictly_sorted(names: Seq<Seq<char>>) -> bool {
    forall|i: int, j: int|
        0 <= i < j < names.len() ==> crate::text::comes_before(#[trigger] names[i], #[trigger] names[j])
}

proof fn lemma_with_name(names: Seq<Seq<char>>, name: Seq<char>)
    requires
        strictly_sorted(names),
    ensures
        strictly_sorted(with_name(names, name)),
        forall|x: Seq<char>|
            #[trigger] with_name(names, name).contains(x) <==> names.contains(x) || x == name,
    decreases names.len(),
{
    let after = with_name(names, name);
    if names.len() == 0 {
        assert(after[0] == name);
    } else if names.last() == name {
        assert(names[names.len() - 1] == name);
    } else {
        let last = names.last();
        crate::text::lemma_order_is_total(last, name);
        if crate::text::comes_before(last, name) {
            assert forall|i: int, j: int| 0 <= i < j < after.len() implies crate::text::comes_before(
                #[trigger] after[i],
                #[trigger] after[j],
            ) by {
                if j == names.len() && i < names.len() - 1 {
                    assert(crate::text::comes_before(names[i], names[names.len() - 1]));
                    crate::text::lemma_order_is_transitive(names[i], last, name);
                }
            }
            assert forall|x: Seq<char>|
                after.contains(x) <==> names.contains(x) || x == name by {
                lemma_pushed(names, name, x);
            }
        } else {
            let rest = names.drop_last();
            assert forall|i: int, j: int| 0 <= i < j < rest.len() implies crate::text::comes_before(
                #[trigger] rest[i],
                #[trigger] rest[j],
            ) by {
                assert(crate::text::comes_before(names[i], names[j]));
            }
            lemma_with_name(rest, name);
            let inner = with_name(rest, name);
            assert forall|i: int, j: int| 0 <= i < j < after.len() implies crate::text::comes_before(
                #[trigger] after[i],
                #[trigger] after[j],
            ) by {
                if j == inner.len() {
                    assert(inner.contains(inner[i]));
                    if inner[i] != name {
                        let k = choose|k: int| 0 <= k < rest.len() && rest[k] == inner[i];
                        assert(crate::text::comes_before(names[k], names[names.len() - 1]));
                    }
                } else {
                    assert(crate::text::comes_before(inner[i], inner[j]));
                }
            }
            assert(names =~= rest.push(last));
            assert forall|x: Seq<char>|
                after.contains(x) <==> names.contains(x) || x == name by {
                lemma_pushed(rest, last, x);
                lemma_pushed(inner, last, x);
            }
        }
    }
}

pub proof fn lemma_pushed(names: Seq<Seq<char>>, name: Seq<char>, x: Seq<char>)
    ensures
        names.push(name).contains(x) <==> names.contains(x) || x == name,
{
    let after = names.push(name);
    if names.contains(x) {
        let k = choose|k: int| 0 <= k < names.len() && names[k] == x;
        assert(after[k] == x);
    }
    if x == name {
        assert(after[names.len() as int] == x);
    }
    if after.contains(x) {
        let k = choose|k: int| 0 <= k < after.len() && after[k] == x;
        if k < names.len() {
            assert(names[k] == x);
        }
    }
}

/// Sorting names keeps exactly the names that were there, each once and in
/// order.
pub proof fn law_sorted_names(names: Seq<Seq<char>>)
    ensures
        strictly_sorted(sorted_names(names)),
        forall|x: Seq<char>| #[trigger] sorted_names(names).contains(x) <==> names.contains(x),
    decreases names.len(),
{
    if names.len() > 0 {
        law_sorted_names(names.drop_last());
        lemma_with_name(sorted_names(names.drop_last()), names.last());
        assert(names =~= names.drop_last().push(names.last()));
        assert forall|x: Seq<char>| sorted_names(names).contains(x) <==> names.contains(x) by {
            lemma_pushed(names.drop_last(), names.last(), x);
        }
    }
}

/// The names of a list in their order, each once.
pub fn sorted_copy(names: &[String]) -> (r: Vec<String>)
    ensures
        crate::text::texts(r@) == sorted_names(crate::text::texts(names@)),
{
    let mut out: Vec<String> = Vec::new();
    let ghost all = crate::text::texts(names@);
    proof {
        assert(crate::text::texts(out@) =~= sorted_names(all.take(0)));
    }
    for i in 0..names.len()
        invariant
            all == crate::text::texts(names@),
            crate::text::texts(out@) == sorted_names(all.take(i as int)),
    {
        proof {
            assert(all.take(i + 1).drop_last() =~= all.take(i as int));
            assert(all.take(i + 1).last() == names@[i as int]@);
        }
        add_name(&mut out, &names[i]);
    }
    proof {
        assert(all.take(all.len() as int) =~= all);
    }
    out
}

} // verus!
