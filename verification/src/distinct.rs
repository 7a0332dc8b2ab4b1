//! Lists that stand for sets: selection from a sequence, in order of first occurrence and
//! without repetition.

use crate::text::strings_view;
use vstd::prelude::*;

verus! {

/// What `pick` yields on the items of `items`, in order, where it yields something.
pub open spec fn picks<A, B>(items: Seq<A>, pick: spec_fn(A) -> Option<B>) -> Seq<B>
    decreases items.len(),
{
    if items.len() == 0 {
        Seq::empty()
    } else {
        let before = picks(items.drop_last(), pick);
        match pick(items.last()) {
            Some(b) => before.push(b),
            None => before,
        }
    }
}

/// The items of `items` that satisfy `keep`, each once, in order of first occurrence.
pub open spec fn distinct<T>(items: Seq<T>, keep: spec_fn(T) -> bool) -> Seq<T>
    decreases items.len(),
{
    if items.len() == 0 {
        Seq::empty()
    } else {
        let before = distinct(items.drop_last(), keep);
        if keep(items.last()) && !before.contains(items.last()) {
            before.push(items.last())
        } else {
            before
        }
    }
}

/// The items of `items` whose flag, in the same place of `flags`, is set: in order and
/// with repetition. An item without a flag counts as not marked.
pub open spec fn marked<T>(items: Seq<T>, flags: Seq<bool>) -> Seq<T>
    decreases items.len(),
{
    if items.len() == 0 {
        Seq::empty()
    } else {
        let before = marked(items.drop_last(), flags);
        if items.len() <= flags.len() && flags[items.len() - 1] {
            before.push(items.last())
        } else {
            before
        }
    }
}

/// The predicate that keeps everything.
pub open spec fn all<T>() -> spec_fn(T) -> bool {
    |t: T| true
}

/// The views of a vector of pairs of strings.
pub open spec fn pairs_view(items: Seq<(String, String)>) -> Seq<(Seq<char>, Seq<char>)> {
    items.map_values(|p: (String, String)| (p.0@, p.1@))
}

/// `distinct` holds exactly the items that occur in `items` and satisfy `keep`.
pub proof fn lemma_distinct_contains<T>(items: Seq<T>, keep: spec_fn(T) -> bool, x: T)
    ensures
        distinct(items, keep).contains(x) <==> items.contains(x) && keep(x),
    decreases items.len(),
{
    if items.len() == 0 {
    } else {
        let init = items.drop_last();
        let before = distinct(init, keep);
        let after = distinct(items, keep);
        lemma_distinct_contains(init, keep, x);
        if after.contains(x) {
            let j = choose|j: int| 0 <= j < after.len() && after[j] == x;
            if j < before.len() {
                assert(before[j] == x);
                let i = choose|i: int| 0 <= i < init.len() && init[i] == x;
                assert(items[i] == x);
            } else {
                assert(x == items.last());
                assert(items[items.len() - 1] == x);
            }
        }
        if items.contains(x) && keep(x) {
            let i = choose|i: int| 0 <= i < items.len() && items[i] == x;
            if i < init.len() {
                assert(init[i] == x);
                let j = choose|j: int| 0 <= j < before.len() && before[j] == x;
                assert(after[j] == x);
            } else if before.contains(x) {
                let j = choose|j: int| 0 <= j < before.len() && before[j] == x;
                assert(after[j] == x);
            } else {
                assert(after == before.push(x));
                assert(after[before.len() as int] == x);
            }
        }
    }
}

/// Selecting among the marked items by `keep` is selecting among all items by `both`,
/// where `both` holds of an item exactly if it is marked and kept.
pub proof fn lemma_marked_distinct<T>(
    items: Seq<T>,
    flags: Seq<bool>,
    keep: spec_fn(T) -> bool,
    both: spec_fn(T) -> bool,
)
    requires
        items.len() <= flags.len(),
        forall|i: int|
            0 <= i < items.len() ==> both(#[trigger] items[i]) == (flags[i] && keep(items[i])),
    ensures
        distinct(marked(items, flags), keep) == distinct(items, both),
    decreases items.len(),
{
    if items.len() > 0 {
        let init = items.drop_last();
        assert forall|i: int| 0 <= i < init.len() implies both(#[trigger] init[i]) == (flags[i]
            && keep(init[i])) by {
            assert(init[i] == items[i]);
        }
        lemma_marked_distinct(init, flags, keep, both);
        let last = items.len() - 1;
        assert(items.last() == items[last]);
        if flags[last] {
            assert(marked(init, flags).push(items.last()).drop_last() =~= marked(init, flags));
        }
    }
}

/// Nothing occurs twice in `distinct`.
pub proof fn lemma_distinct_no_duplicates<T>(items: Seq<T>, keep: spec_fn(T) -> bool)
    ensures
        distinct(items, keep).no_duplicates(),
    decreases items.len(),
{
    if items.len() > 0 {
        lemma_distinct_no_duplicates(items.drop_last(), keep);
    }
}

/// Whether `items` holds a string equal to `item`.
pub fn contains_string(items: &Vec<String>, item: &String) -> (res: bool)
    ensures
        res == strings_view(items@).contains(item@),
{
    let mut i: usize = 0;
    while i < items.len()
        invariant
            i <= items.len(),
            forall|j: int| 0 <= j < i ==> strings_view(items@)[j] != item@,
        decreases items.len() - i,
    {
        if items[i] == *item {
            assert(strings_view(items@)[i as int] == item@);
            return true;
        }
        i += 1;
    }
    false
}

/// Whether `items` holds a pair equal to `item`.
pub fn contains_pair(items: &Vec<(String, String)>, item: &(String, String)) -> (res: bool)
    ensures
        res == pairs_view(items@).contains((item.0@, item.1@)),
{
    let mut i: usize = 0;
    while i < items.len()
        invariant
            i <= items.len(),
            forall|j: int| 0 <= j < i ==> pairs_view(items@)[j] != (item.0@, item.1@),
        decreases items.len() - i,
    {
        if items[i].0 == item.0 && items[i].1 == item.1 {
            assert(pairs_view(items@)[i as int] == (item.0@, item.1@));
            return true;
        }
        i += 1;
    }
    false
}

/// The strings of `items` whose flag is set, each once, in order of first occurrence.
/// `keep` says what the flags stand for.
pub(crate) fn keep_distinct(
    items: &Vec<String>,
    flags: &Vec<bool>,
    Ghost(keep): Ghost<spec_fn(Seq<char>) -> bool>,
) -> (res: Vec<String>)
    requires
        flags@.len() == items@.len(),
        forall|i: int| 0 <= i < items@.len() ==> flags@[i] == keep(#[trigger] items@[i]@),
    ensures
        strings_view(res@) == distinct(strings_view(items@), keep),
{
    let ghost all_items = strings_view(items@);
    let mut out: Vec<String> = Vec::new();
    let mut i: usize = 0;
    assert(strings_view(out@) =~= distinct(all_items.take(0), keep));
    while i < items.len()
        invariant
            i <= items@.len(),
            flags@.len() == items@.len(),
            all_items == strings_view(items@),
            forall|j: int| 0 <= j < items@.len() ==> flags@[j] == keep(#[trigger] items@[j]@),
            strings_view(out@) == distinct(all_items.take(i as int), keep),
        decreases items@.len() - i,
    {
        let ghost before = strings_view(out@);
        proof {
            assert(all_items.take(i + 1).drop_last() =~= all_items.take(i as int));
            assert(all_items.take(i + 1).last() == items@[i as int]@);
        }
        if flags[i] && !contains_string(&out, &items[i]) {
            out.push(items[i].clone());
            assert(strings_view(out@) =~= before.push(all_items[i as int]));
        }
        i += 1;
    }
    assert(all_items.take(i as int) =~= all_items);
    out
}

/// The strings of `items`, each once, in order of first occurrence.
pub fn distinct_strings(items: &Vec<String>) -> (res: Vec<String>)
    ensures
        strings_view(res@) == distinct(strings_view(items@), all()),
{
    let mut flags: Vec<bool> = Vec::new();
    let mut i: usize = 0;
    while i < items.len()
        invariant
            i <= items@.len(),
            flags@.len() == i,
            forall|j: int| 0 <= j < i ==> flags@[j],
        decreases items@.len() - i,
    {
        flags.push(true);
        i += 1;
    }
    keep_distinct(items, &flags, Ghost(all()))
}

/// The pairs of `items`, each once, in order of first occurrence.
pub fn distinct_pairs(items: &Vec<(String, String)>) -> (res: Vec<(String, String)>)
    ensures
        pairs_view(res@) == distinct(pairs_view(items@), all()),
{
    let ghost all_items = pairs_view(items@);
    let mut out: Vec<(String, String)> = Vec::new();
    let mut i: usize = 0;
    assert(pairs_view(out@) =~= distinct(all_items.take(0), all()));
    while i < items.len()
        invariant
            i <= items@.len(),
            all_items == pairs_view(items@),
            pairs_view(out@) == distinct(all_items.take(i as int), all()),
        decreases items@.len() - i,
    {
        let ghost before = pairs_view(out@);
        proof {
            assert(all_items.take(i + 1).drop_last() =~= all_items.take(i as int));
            assert(all_items.take(i + 1).last() == (items@[i as int].0@, items@[i as int].1@));
        }
        if !contains_pair(&out, &items[i]) {
            out.push((items[i].0.clone(), items[i].1.clone()));
            assert(pairs_view(out@) =~= before.push(all_items[i as int]));
        }
        i += 1;
    }
    assert(all_items.take(i as int) =~= all_items);
    out
}

} // verus!
