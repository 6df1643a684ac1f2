//! What holds of the list over any run of its operations, stated over the
//! sequences that the contracts of those operations speak of.

use crate::linked_list::{front, rest, LinkedList};
use vstd::prelude::*;
use vstd::std_specs::cmp::PartialEqSpec;

verus! {

/// The values of a list that held `values` and then took each value of
/// `pushed` at its front, in the order of `pushed`.
pub open spec fn after_pushes<T>(values: Seq<T>, pushed: Seq<T>) -> Seq<T>
    decreases pushed.len(),
{
    if pushed.len() == 0 {
        values
    } else {
        seq![pushed.last()] + after_pushes(values, pushed.drop_last())
    }
}

/// The values of a list that held `values` and then gave up its first value
/// `count` times.
pub open spec fn after_pops<T>(values: Seq<T>, count: nat) -> Seq<T>
    decreases count,
{
    if count == 0 {
        values
    } else {
        rest(after_pops(values, (count - 1) as nat))
    }
}

/// Values pushed at the front come to stand in front of what the list held,
/// the last pushed first.
pub proof fn law_pushes_stand_reversed<T>(values: Seq<T>, pushed: Seq<T>)
    ensures
        after_pushes(values, pushed) == pushed.reverse() + values,
    decreases pushed.len(),
{
    if pushed.len() > 0 {
        law_pushes_stand_reversed(values, pushed.drop_last());
        assert(pushed.reverse() =~= seq![pushed.last()] + pushed.drop_last().reverse());
    }
}

/// A list that was empty and took the values of `pushed` at its front, one
/// after the other, holds as many values as were pushed, the last pushed
/// first and the first pushed last.
pub proof fn law_pushes_onto_empty<T>(pushed: Seq<T>)
    ensures
        after_pushes(Seq::<T>::empty(), pushed).len() == pushed.len(),
        forall|i: int|
            0 <= i < pushed.len() ==> #[trigger] after_pushes(Seq::<T>::empty(), pushed)[i]
                == pushed[pushed.len() - 1 - i],
{
    law_pushes_stand_reversed(Seq::<T>::empty(), pushed);
}

/// Taking the first value off right after a push hands that value back and
/// leaves the list as it was before the push.
pub proof fn law_pop_undoes_push<T>(values: Seq<T>, value: T)
    ensures
        front(seq![value] + values) == Some(value),
        rest(seq![value] + values) == values,
{
}

/// After `count` values were taken off the front, the list holds what
/// stood behind them; nothing, once as many were taken as it held.
pub proof fn law_pops_skip<T>(values: Seq<T>, count: nat)
    ensures
        count <= values.len() ==> after_pops(values, count) == values.skip(count as int),
        count >= values.len() ==> after_pops(values, count).len() == 0,
    decreases count,
{
    if count > 0 {
        let before: nat = (count - 1) as nat;
        law_pops_skip(values, before);
        if count <= values.len() {
            assert(values.skip(before as int).skip(1) =~= values.skip(count as int));
        }
    }
}

/// Taking the first value off until none is left hands out every value of
/// the list, from the head to the tail: as many as the list held, and then
/// the list is empty and gives no value.
pub proof fn law_pops_drain_in_order<T>(values: Seq<T>)
    ensures
        forall|k: nat|
            k < values.len() ==> front(#[trigger] after_pops(values, k)) == Some(values[k as int]),
        after_pops(values, values.len()).len() == 0,
        front(after_pops(values, values.len())) is None,
{
    assert forall|k: nat| k < values.len() implies front(#[trigger] after_pops(values, k)) == Some(
        values[k as int],
    ) by {
        law_pops_skip(values, k);
    }
    law_pops_skip(values, values.len());
}

/// Clones that are equal to what they were made from make a copy of a list
/// that holds the very values of the list.
pub proof fn law_exact_clones_give_equal_list<T: Clone>(source: Seq<T>, copy: Seq<T>)
    requires
        copy.len() == source.len(),
        forall|i: int| 0 <= i < source.len() ==> cloned::<T>(#[trigger] source[i], copy[i]),
        forall|a: T, b: T| #[trigger] cloned::<T>(a, b) ==> a == b,
    ensures
        copy == source,
{
}

/// One change to a list: a value put at its front, its first value taken
/// off, or the release of the list with all that it holds.
pub enum Change<T> {
    PushFront(T),
    PopFront,
    Release,
}

/// One step in the life of a list and a copy of it: a change to the list,
/// or a change to the copy.
pub enum Step<T> {
    ToSource(Change<T>),
    ToCopy(Change<T>),
}

/// The values of a list that held `values` and then went through `change`.
pub open spec fn after_change<T>(values: Seq<T>, change: Change<T>) -> Seq<T> {
    match change {
        Change::PushFront(value) => seq![value] + values,
        Change::PopFront => rest(values),
        Change::Release => Seq::empty(),
    }
}

/// The values of a list that held `values` and then went through each
/// change of `changes`, in order.
pub open spec fn after_changes<T>(values: Seq<T>, changes: Seq<Change<T>>) -> Seq<T>
    decreases changes.len(),
{
    if changes.len() == 0 {
        values
    } else {
        after_change(after_changes(values, changes.drop_last()), changes.last())
    }
}

/// What a list and a copy of it hold, the list first, after each step of
/// `steps`, in order. The two share no link, and each operation changes the
/// list that it is called on and no other: so a step changes the values of
/// the one that it names and keeps those of the other.
pub open spec fn after_steps<T>(source: Seq<T>, copy: Seq<T>, steps: Seq<Step<T>>) -> (
    Seq<T>,
    Seq<T>,
)
    decreases steps.len(),
{
    if steps.len() == 0 {
        (source, copy)
    } else {
        let before = after_steps(source, copy, steps.drop_last());
        match steps.last() {
            Step::ToSource(change) => (after_change(before.0, change), before.1),
            Step::ToCopy(change) => (before.0, after_change(before.1, change)),
        }
    }
}

/// The changes that `steps` makes to the list, in order.
pub open spec fn changes_to_source<T>(steps: Seq<Step<T>>) -> Seq<Change<T>>
    decreases steps.len(),
{
    if steps.len() == 0 {
        Seq::empty()
    } else {
        match steps.last() {
            Step::ToSource(change) => changes_to_source(steps.drop_last()).push(change),
            Step::ToCopy(_) => changes_to_source(steps.drop_last()),
        }
    }
}

/// The changes that `steps` makes to the copy, in order.
pub open spec fn changes_to_copy<T>(steps: Seq<Step<T>>) -> Seq<Change<T>>
    decreases steps.len(),
{
    if steps.len() == 0 {
        Seq::empty()
    } else {
        match steps.last() {
            Step::ToSource(_) => changes_to_copy(steps.drop_last()),
            Step::ToCopy(change) => changes_to_copy(steps.drop_last()).push(change),
        }
    }
}

/// However changes to a list and changes to its copy follow one another,
/// each of the two holds what its own changes alone make of its own values.
pub proof fn law_source_and_copy_change_apart<T>(
    source: Seq<T>,
    copy: Seq<T>,
    steps: Seq<Step<T>>,
)
    ensures
        after_steps(source, copy, steps).0 == after_changes(source, changes_to_source(steps)),
        after_steps(source, copy, steps).1 == after_changes(copy, changes_to_copy(steps)),
    decreases steps.len(),
{
    if steps.len() > 0 {
        law_source_and_copy_change_apart(source, copy, steps.drop_last());
        match steps.last() {
            Step::ToSource(change) => {
                let earlier = changes_to_source(steps.drop_last());
                assert(earlier.push(change).drop_last() =~= earlier);
            },
            Step::ToCopy(change) => {
                let earlier = changes_to_copy(steps.drop_last());
                assert(earlier.push(change).drop_last() =~= earlier);
            },
        }
    }
}

/// Whatever is done to a list after it was copied (values pushed, values
/// taken off, the list released), the copy keeps its length and goes on to
/// hold, at each position, the clone of the value that the list held there
/// when it was copied.
pub proof fn law_copy_outlasts_changes_to_source<T: Clone>(
    source: Seq<T>,
    copy: Seq<T>,
    steps: Seq<Step<T>>,
)
    requires
        copy.len() == source.len(),
        forall|i: int| 0 <= i < source.len() ==> cloned::<T>(#[trigger] source[i], copy[i]),
        changes_to_copy(steps).len() == 0,
    ensures
        after_steps(source, copy, steps).1 == copy,
        after_steps(source, copy, steps).1.len() == source.len(),
        forall|i: int|
            0 <= i < source.len() ==> cloned::<T>(
                #[trigger] source[i],
                after_steps(source, copy, steps).1[i],
            ),
{
    law_source_and_copy_change_apart(source, copy, steps);
}

/// Whatever is done to the copy of a list, the list goes on to hold the
/// values that it held when it was copied.
pub proof fn law_source_outlasts_changes_to_copy<T>(
    source: Seq<T>,
    copy: Seq<T>,
    steps: Seq<Step<T>>,
)
    requires
        changes_to_source(steps).len() == 0,
    ensures
        after_steps(source, copy, steps).0 == source,
{
    law_source_and_copy_change_apart(source, copy, steps);
}

/// A list equals itself, where every value of `T` equals itself.
pub proof fn law_eq_reflexive<T: PartialEq>(list: LinkedList<T>)
    requires
        forall|x: T| #[trigger] x.eq_spec(&x),
    ensures
        list.eq_spec(&list),
{
}

/// Equality of lists does not depend on the side a list stands on, where
/// that of `T` does not.
pub proof fn law_eq_symmetric<T: PartialEq>(a: LinkedList<T>, b: LinkedList<T>)
    requires
        forall|x: T, y: T| #[trigger] x.eq_spec(&y) == y.eq_spec(&x),
    ensures
        a.eq_spec(&b) == b.eq_spec(&a),
{
}

/// Lists of different lengths are not equal.
pub proof fn law_eq_needs_equal_lengths<T: PartialEq>(a: LinkedList<T>, b: LinkedList<T>)
    requires
        a@.len() != b@.len(),
    ensures
        !a.eq_spec(&b),
{
}

/// Lists that differ at one position are not equal.
pub proof fn law_eq_needs_equal_values<T: PartialEq>(a: LinkedList<T>, b: LinkedList<T>, at: int)
    requires
        0 <= at < a@.len(),
        at < b@.len(),
        !a@[at].eq_spec(&b@[at]),
    ensures
        !a.eq_spec(&b),
{
}

/// Where two values of `T` are equal just when they are the same value, two
/// lists are equal just when they hold the same values in the same order.
pub proof fn law_eq_is_same_values<T: PartialEq>(a: LinkedList<T>, b: LinkedList<T>)
    requires
        forall|x: T, y: T| #[trigger] x.eq_spec(&y) <==> x == y,
    ensures
        a.eq_spec(&b) <==> a@ == b@,
{
    if a.eq_spec(&b) {
        assert(a@ =~= b@);
    }
}

} // verus!
