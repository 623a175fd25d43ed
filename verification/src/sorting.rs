//! Stable sorting, as inserting one item after the other.
use vstd::prelude::*;

verus! {

/// The first place in `list` whose item comes after `item`.
pub open spec fn place<T>(list: Seq<T>, item: T, before: spec_fn(T, T) -> bool) -> int
    decreases list.len(),
{
    if list.len() == 0 || before(item, list[0]) {
        0
    } else {
        1 + place(list.skip(1), item, before)
    }
}

/// `list` with `item` put in behind all that does not come after it.
pub open spec fn inserted<T>(list: Seq<T>, item: T, before: spec_fn(T, T) -> bool) -> Seq<T> {
    list.insert(place(list, item, before), item)
}

/// The items of `list` in the order `before`, those that tie as they stood.
pub open spec fn ordered<T>(list: Seq<T>, before: spec_fn(T, T) -> bool) -> Seq<T>
    decreases list.len(),
{
    if list.len() == 0 {
        list
    } else {
        inserted(ordered(list.drop_last(), before), list.last(), before)
    }
}

/// `before` orders the items up to ties.
pub open spec fn weak_order<T>(before: spec_fn(T, T) -> bool) -> bool {
    &&& forall|a: T, b: T| #[trigger] before(a, b) ==> !before(b, a)
    &&& forall|a: T, b: T, c: T|
        !#[trigger] before(b, a) && !#[trigger] before(c, b) ==> !before(c, a)
}

/// No item of `list` comes before one that stands in front of it.
pub open spec fn in_order<T>(list: Seq<T>, before: spec_fn(T, T) -> bool) -> bool {
    forall|i: int, j: int| 0 <= i < j < list.len() ==> !before(#[trigger] list[j], #[trigger] list[i])
}

/// Every item in front of the place of `item` does not come after it, and the
/// one at that place does.
pub proof fn lemma_place<T>(list: Seq<T>, item: T, before: spec_fn(T, T) -> bool)
    ensures
        0 <= place(list, item, before) <= list.len(),
        forall|j: int|
            0 <= j < place(list, item, before) ==> !before(item, #[trigger] list[j]),
        place(list, item, before) < list.len() ==> before(
            item,
            list[place(list, item, before)],
        ),
    decreases list.len(),
{
    if list.len() > 0 && !before(item, list[0]) {
        let rest = list.skip(1);
        lemma_place(rest, item, before);
        let at = place(rest, item, before);
        assert forall|j: int| 0 <= j < at + 1 implies !before(item, #[trigger] list[j]) by {
            if j > 0 {
                assert(list[j] == rest[j - 1]);
            }
        }
        if at < rest.len() {
            assert(list[at + 1] == rest[at]);
        }
    }
}

/// Putting an item in keeps the order.
pub proof fn lemma_inserted_in_order<T>(list: Seq<T>, item: T, before: spec_fn(T, T) -> bool)
    requires
        weak_order(before),
        in_order(list, before),
    ensures
        in_order(inserted(list, item, before), before),
{
    lemma_place(list, item, before);
    let at = place(list, item, before);
    let out = inserted(list, item, before);
    assert forall|i: int, j: int| 0 <= i < j < out.len() implies !before(
        #[trigger] out[j],
        #[trigger] out[i],
    ) by {
        if j < at {
            assert(!before(list[j], list[i]));
        } else if j == at {
            assert(!before(item, list[i]));
        } else if i == at {
            assert(before(item, list[at]));
            assert(!before(list[at], item));
            if j - 1 > at {
                assert(!before(list[j - 1], list[at]));
            }
        } else if i < at {
            assert(!before(list[j - 1], list[i]));
        } else {
            assert(!before(list[j - 1], list[i - 1]));
        }
    }
}

/// Sorting puts the items in order.
pub proof fn law_ordered_in_order<T>(list: Seq<T>, before: spec_fn(T, T) -> bool)
    requires
        weak_order(before),
    ensures
        in_order(ordered(list, before), before),
    decreases list.len(),
{
    if list.len() > 0 {
        law_ordered_in_order(list.drop_last(), before);
        lemma_inserted_in_order(ordered(list.drop_last(), before), list.last(), before);
    }
}

/// Sorting keeps every item as often as it was there.
pub proof fn law_ordered_keeps_items<T>(list: Seq<T>, before: spec_fn(T, T) -> bool)
    ensures
        ordered(list, before).to_multiset() == list.to_multiset(),
        ordered(list, before).len() == list.len(),
        forall|item: T| #[trigger] ordered(list, before).contains(item) <==> list.contains(item),
    decreases list.len(),
{
    if list.len() > 0 {
        let rest = ordered(list.drop_last(), before);
        law_ordered_keeps_items(list.drop_last(), before);
        lemma_place(rest, list.last(), before);
        vstd::seq_lib::to_multiset_insert(rest, place(rest, list.last(), before), list.last());
        assert(list.drop_last().push(list.last()) =~= list);
        vstd::seq_lib::to_multiset_build(list.drop_last(), list.last());
    }
    assert forall|item: T| #[trigger]
        ordered(list, before).contains(item) <==> list.contains(item) by {
        vstd::seq_lib::to_multiset_contains(list, item);
        vstd::seq_lib::to_multiset_contains(ordered(list, before), item);
    }
}

/// The items of `list` that tie with `item`, as they stand.
pub open spec fn tied<T>(list: Seq<T>, item: T, before: spec_fn(T, T) -> bool) -> Seq<T>
    decreases list.len(),
{
    if list.len() == 0 {
        list
    } else if before(item, list.last()) || before(list.last(), item) {
        tied(list.drop_last(), item, before)
    } else {
        tied(list.drop_last(), item, before).push(list.last())
    }
}

proof fn lemma_tied_of_sum<T>(a: Seq<T>, b: Seq<T>, item: T, before: spec_fn(T, T) -> bool)
    ensures
        tied(a + b, item, before) == tied(a, item, before) + tied(b, item, before),
    decreases b.len(),
{
    if b.len() == 0 {
        assert(a + b =~= a);
        assert(tied(a, item, before) + tied(b, item, before) =~= tied(a, item, before));
    } else {
        lemma_tied_of_sum(a, b.drop_last(), item, before);
        assert((a + b).drop_last() =~= a + b.drop_last());
        assert(tied(a + b, item, before) =~= tied(a, item, before) + tied(b, item, before));
    }
}

proof fn lemma_none_tied<T>(list: Seq<T>, item: T, before: spec_fn(T, T) -> bool)
    requires
        forall|i: int|
            0 <= i < list.len() ==> before(item, #[trigger] list[i]) || before(list[i], item),
    ensures
        tied(list, item, before).len() == 0,
    decreases list.len(),
{
    if list.len() > 0 {
        assert(list[list.len() - 1] == list.last());
        assert forall|i: int| 0 <= i < list.drop_last().len() implies before(
            item,
            #[trigger] list.drop_last()[i],
        ) || before(list.drop_last()[i], item) by {
            assert(list.drop_last()[i] == list[i]);
        }
        lemma_none_tied(list.drop_last(), item, before);
    }
}

proof fn lemma_tied_inserted<T>(list: Seq<T>, new: T, item: T, before: spec_fn(T, T) -> bool)
    requires
        weak_order(before),
        in_order(list, before),
    ensures
        tied(inserted(list, new, before), item, before) == tied(list.push(new), item, before),
{
    lemma_place(list, new, before);
    let at = place(list, new, before);
    let head = list.take(at);
    let tail = list.skip(at);
    let one = seq![new];
    assert(inserted(list, new, before) =~= head + one + tail);
    assert(list =~= head + tail);
    lemma_tied_of_sum(head + one, tail, item, before);
    lemma_tied_of_sum(head, one, item, before);
    lemma_tied_of_sum(head, tail, item, before);
    assert(list.push(new).drop_last() =~= list);
    let nothing = Seq::<T>::empty();
    assert(one.drop_last() =~= nothing);
    assert(tied(nothing, item, before) == nothing);
    assert(one.last() == new && list.push(new).last() == new);
    let ties = !before(item, new) && !before(new, item);
    if ties {
        assert forall|i: int| 0 <= i < tail.len() implies before(item, #[trigger] tail[i])
            || before(tail[i], item) by {
            assert(tail[i] == list[at + i]);
            assert(before(new, list[at]));
            if i > 0 {
                assert(!before(list[at + i], list[at]));
            }
            if !before(item, tail[i]) {
                assert(!before(new, item));
                assert(!before(item, tail[i]));
                assert(!before(new, list[at + i]));
                assert(!before(new, list[at]));
            }
        }
        lemma_none_tied(tail, item, before);
        assert(tied(tail, item, before) =~= Seq::<T>::empty());
        assert(tied(inserted(list, new, before), item, before) =~= tied(
            list.push(new),
            item,
            before,
        ));
    } else {
        assert(tied(one, item, before) =~= Seq::<T>::empty());
        assert(tied(inserted(list, new, before), item, before) =~= tied(
            list.push(new),
            item,
            before,
        ));
    }
}

/// Sorting leaves the items that tie in the order in which they stood.
pub proof fn law_ordered_is_stable<T>(list: Seq<T>, item: T, before: spec_fn(T, T) -> bool)
    requires
        weak_order(before),
    ensures
        tied(ordered(list, before), item, before) == tied(list, item, before),
    decreases list.len(),
{
    if list.len() > 0 {
        let rest = list.drop_last();
        law_ordered_is_stable(rest, item, before);
        law_ordered_in_order(rest, before);
        lemma_tied_inserted(ordered(rest, before), list.last(), item, before);
        assert(ordered(rest, before).push(list.last()).drop_last() =~= ordered(rest, before));
    }
}

} // verus!
