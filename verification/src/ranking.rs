//! Keeping the best few of many.

use vstd::prelude::*;
use vstd::relations::{sorted_by, total_ordering};
use vstd::seq_lib::lemma_sorted_unique;

verus! {

/// A value that is ranked among its like.
pub trait Ranked: View + Sized {
    /// `a` ranks no later than `b`.
    spec fn no_later(a: Self::V, b: Self::V) -> bool;

    proof fn ranking_laws(a: Self::V, b: Self::V, c: Self::V)
        ensures
            Self::no_later(a, a),
            Self::no_later(a, b) && Self::no_later(b, a) ==> a == b,
            Self::no_later(a, b) && Self::no_later(b, c) ==> Self::no_later(a, c),
            Self::no_later(a, b) || Self::no_later(b, a),
    ;

    fn ranks_no_later(&self, other: &Self) -> (answer: bool)
        ensures
            answer == Self::no_later(self@, other@),
    ;
}

pub open spec fn views_of<T: View>(list: Seq<T>) -> Seq<T::V> {
    list.map_values(|item: T| item@)
}

/// The list in ranking order.
pub open spec fn ranked<T: Ranked>(list: Seq<T::V>) -> Seq<T::V> {
    list.sort_by(|a: T::V, b: T::V| T::no_later(a, b))
}

/// The first `limit` of the list in ranking order.
pub open spec fn best<T: Ranked>(list: Seq<T::V>, limit: int) -> Seq<T::V> {
    if ranked::<T>(list).len() <= limit {
        ranked::<T>(list)
    } else {
        ranked::<T>(list).take(limit)
    }
}

proof fn ranking_is_total<T: Ranked>()
    ensures
        total_ordering(|a: T::V, b: T::V| T::no_later(a, b)),
{
    let leq = |a: T::V, b: T::V| T::no_later(a, b);
    assert forall|a: T::V| #[trigger] leq(a, a) by {
        T::ranking_laws(a, a, a);
    }
    assert forall|a: T::V, b: T::V| #[trigger] leq(a, b) && #[trigger] leq(b, a) implies a
        == b by {
        T::ranking_laws(a, b, a);
    }
    assert forall|a: T::V, b: T::V, c: T::V| #[trigger] leq(a, b) && #[trigger] leq(
        b,
        c,
    ) implies leq(a, c) by {
        T::ranking_laws(a, b, c);
    }
    assert forall|a: T::V, b: T::V| #[trigger] leq(a, b) || #[trigger] leq(b, a) by {
        T::ranking_laws(a, b, a);
    }
}

/// A ranked list holds the same items, each ranked no later than the next.
pub proof fn ranked_is_sorted<T: Ranked>(list: Seq<T::V>)
    ensures
        ranked::<T>(list).len() == list.len(),
        ranked::<T>(list).to_multiset() == list.to_multiset(),
        forall|i: int, j: int|
            0 <= i < j < list.len() ==> T::no_later(
                #[trigger] ranked::<T>(list)[i],
                #[trigger] ranked::<T>(list)[j],
            ),
{
    let leq = |a: T::V, b: T::V| T::no_later(a, b);
    ranking_is_total::<T>();
    list.lemma_sort_by_ensures(leq);
    list.to_multiset_ensures();
    ranked::<T>(list).to_multiset_ensures();
    assert forall|i: int, j: int| 0 <= i < j < list.len() implies T::no_later(
        #[trigger] ranked::<T>(list)[i],
        #[trigger] ranked::<T>(list)[j],
    ) by {
        assert(leq(ranked::<T>(list)[i], ranked::<T>(list)[j]));
    }
}

/// A sorted list with one more item put where it belongs.
proof fn ranked_grows<T: Ranked>(list: Seq<T::V>, item: T::V, place: int)
    requires
        0 <= place <= list.len(),
        forall|i: int| 0 <= i < place ==> T::no_later(#[trigger] ranked::<T>(list)[i], item),
        forall|i: int|
            place <= i < list.len() ==> T::no_later(item, #[trigger] ranked::<T>(list)[i]),
    ensures
        ranked::<T>(list.push(item)) == ranked::<T>(list).insert(place, item),
{
    let leq = |a: T::V, b: T::V| T::no_later(a, b);
    let before = ranked::<T>(list);
    let after = before.insert(place, item);
    ranked_is_sorted::<T>(list);
    ranked_is_sorted::<T>(list.push(item));
    ranking_is_total::<T>();
    assert forall|i: int, j: int| 0 <= i < j < after.len() implies #[trigger] leq(
        after[i],
        after[j],
    ) by {
        let oi = if i < place { i } else { i - 1 };
        let oj = if j < place { j } else { j - 1 };
        if i == place {
            assert(after[j] == before[oj]);
        } else if j == place {
            assert(after[i] == before[oi]);
        } else {
            assert(after[i] == before[oi]);
            assert(after[j] == before[oj]);
        }
    }
    assert(sorted_by(after, leq));
    let full = ranked::<T>(list.push(item));
    assert forall|i: int, j: int| 0 <= i < j < full.len() implies #[trigger] leq(
        full[i],
        full[j],
    ) by {
        assert(T::no_later(full[i], full[j]));
    }
    assert(sorted_by(full, leq));
    before.to_multiset_ensures();
    list.to_multiset_ensures();
    vstd::seq_lib::to_multiset_insert(before, place, item);
    assert(list.push(item).to_multiset() =~= list.to_multiset().insert(item));
    lemma_sorted_unique(full, after, leq);
}

/// Takes one more item among the best: puts it where it ranks and drops what
/// then exceeds the limit.
pub(crate) fn keep_best<T: Ranked>(kept: &mut Vec<T>, item: T, limit: usize, all: Ghost<Seq<T::V>>)
    requires
        views_of(old(kept)@) == best::<T>(all@, limit as int),
        old(kept)@.len() < usize::MAX,
    ensures
        views_of(final(kept)@) == best::<T>(all@.push(item@), limit as int),
{
    let mut place: usize = 0;
    let ghost before = views_of(kept@);
    let ghost whole = ranked::<T>(all@);
    let ghost new_item = item@;
    proof {
        ranked_is_sorted::<T>(all@);
    }
    while place < kept.len() && kept[place].ranks_no_later(&item)
        invariant
            place <= kept@.len(),
            before == views_of(kept@),
            before == best::<T>(all@, limit as int),
            whole == ranked::<T>(all@),
            new_item == item@,
            forall|i: int| 0 <= i < place ==> T::no_later(#[trigger] before[i], new_item),
        decreases kept.len() - place,
    {
        assert(before[place as int] == kept@[place as int]@);
        place += 1;
    }
    proof {
        ranked_is_sorted::<T>(all@);
        assert(before.len() == kept@.len());
        assert(before =~= if whole.len() <= limit { whole } else { whole.take(limit as int) });
        assert forall|i: int| 0 <= i < place implies T::no_later(
            #[trigger] whole[i],
            new_item,
        ) by {
            assert(before[i] == whole[i]);
        }
        if place < kept@.len() {
            assert(before[place as int] == kept@[place as int]@);
            assert(whole[place as int] == before[place as int]);
            T::ranking_laws(whole[place as int], new_item, new_item);
            assert forall|i: int| place <= i < whole.len() implies T::no_later(
                new_item,
                #[trigger] whole[i],
            ) by {
                if i > place {
                    assert(T::no_later(whole[place as int], whole[i]));
                    T::ranking_laws(new_item, whole[place as int], whole[i]);
                }
            }
            ranked_grows::<T>(all@, new_item, place as int);
        } else if whole.len() <= limit {
            ranked_grows::<T>(all@, new_item, place as int);
        }
    }
    kept.insert(place, item);
    assert(views_of(kept@) =~= before.insert(place as int, new_item));
    if kept.len() > limit {
        let ghost longer = kept@;
        let _ = kept.pop();
        assert(views_of(kept@) =~= views_of(longer).drop_last());
    }
    proof {
        ranked_is_sorted::<T>(all@.push(new_item));
        let after = ranked::<T>(all@.push(new_item));
        if place < before.len() || whole.len() <= limit {
            assert(after == whole.insert(place as int, new_item));
            assert(views_of(kept@) =~= best::<T>(all@.push(new_item), limit as int));
        } else {
            full_list_stands::<T>(all@, new_item, limit as int);
            assert(views_of(kept@) =~= before);
        }
    }
}

/// Where the best are all ranked no later than a new item, they stay.
proof fn full_list_stands<T: Ranked>(list: Seq<T::V>, item: T::V, limit: int)
    requires
        0 <= limit < list.len(),
        forall|i: int| 0 <= i < limit ==> T::no_later(#[trigger] ranked::<T>(list)[i], item),
    ensures
        best::<T>(list.push(item), limit) == best::<T>(list, limit),
{
    let whole = ranked::<T>(list);
    ranked_is_sorted::<T>(list);
    ranked_is_sorted::<T>(list.push(item));
    let place = first_later::<T>(whole, item, limit);
    ranked_grows::<T>(list, item, place);
    assert(whole.insert(place, item).take(limit) =~= whole.take(limit));
}

/// The first place, from `start` on, whose item ranks after `item`.
proof fn first_later<T: Ranked>(whole: Seq<T::V>, item: T::V, start: int) -> (place: int)
    requires
        0 <= start <= whole.len(),
        forall|i: int| 0 <= i < start ==> T::no_later(#[trigger] whole[i], item),
        forall|i: int, j: int|
            0 <= i < j < whole.len() ==> T::no_later(#[trigger] whole[i], #[trigger] whole[j]),
    ensures
        start <= place <= whole.len(),
        forall|i: int| 0 <= i < place ==> T::no_later(#[trigger] whole[i], item),
        forall|i: int| place <= i < whole.len() ==> T::no_later(item, #[trigger] whole[i]),
    decreases whole.len() - start,
{
    if start == whole.len() {
        start
    } else {
        T::ranking_laws(whole[start], item, item);
        if T::no_later(whole[start], item) {
            first_later::<T>(whole, item, start + 1)
        } else {
            assert forall|i: int| start <= i < whole.len() implies T::no_later(
                item,
                #[trigger] whole[i],
            ) by {
                if i > start {
                    assert(T::no_later(whole[start], whole[i]));
                    T::ranking_laws(item, whole[start], whole[i]);
                }
            }
            start
        }
    }
}

} // verus!
