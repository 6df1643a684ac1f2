//! The list itself: a chain of boxed nodes, each owning the node behind it,
//! and a cached count of the nodes.

use crate::render::{characters, join_texts, joined, texts_of};
use core::fmt::Display;
use vstd::prelude::*;
use vstd::std_specs::cmp::{PartialEqSpec, PartialEqSpecImpl};
use vstd::string::to_string_from_display_ensures;

verus! {

/// One link of the chain: a value, and the chain behind it.
pub struct Node<T> {
    value: T,
    next: Option<Box<Node<T>>>,
}

impl<T> Node<T> {
    /// The value that this link holds.
    pub closed spec fn value(self) -> T {
        self.value
    }

    /// The chain that this link owns, `None` at the end of the chain.
    pub closed spec fn next(self) -> Option<Box<Node<T>>> {
        self.next
    }

    /// Builds a link that holds `value` and owns the chain `next`.
    pub fn new(value: T, next: Option<Box<Node<T>>>) -> (node: Node<T>)
        ensures
            node.value() == value,
            node.next() == next,
    {
        Node { value: value, next: next }
    }
}

/// The values reachable from `link`, the nearest first.
spec fn chain_values<T>(link: Option<Box<Node<T>>>) -> Seq<T>
    decreases link,
{
    match link {
        None => Seq::empty(),
        Some(node) => seq![node.value] + chain_values(node.next),
    }
}

/// The values of a chain are the value of its first link, then the values of
/// the chain behind that link.
proof fn lemma_first_and_rest<T>(link: Option<Box<Node<T>>>)
    ensures
        link is None ==> chain_values(link).len() == 0,
        link matches Some(node) ==> {
            &&& chain_values(link).len() == 1 + chain_values(node.next).len()
            &&& chain_values(link)[0] == node.value
            &&& chain_values(link).skip(1) == chain_values(node.next)
        },
{
    if let Some(node) = link {
        assert(chain_values(link) == seq![node.value] + chain_values(node.next));
    }
}

/// The first value of `values`, if there is one.
pub open spec fn front<T>(values: Seq<T>) -> Option<T> {
    if values.len() > 0 {
        Some(values[0])
    } else {
        None
    }
}

/// What is left of `values` without its first value; `values` itself where
/// it is empty.
pub open spec fn rest<T>(values: Seq<T>) -> Seq<T> {
    if values.len() > 0 {
        values.skip(1)
    } else {
        values
    }
}

/// Whether `unequal` is what `!=` of `T` may answer for `a` and `b`.
pub open spec fn found_unequal<T: PartialEq>(a: T, b: T, unequal: bool) -> bool {
    call_ensures(T::ne, (&a, &b), unequal)
}

/// Whether `!=` of `T` answered `false` for the values of `a` and `b` at each
/// position before `end`.
pub open spec fn all_found_equal<T: PartialEq>(a: Seq<T>, b: Seq<T>, end: int) -> bool {
    forall|i: int| 0 <= i < end ==> found_unequal(#[trigger] a[i], b[i], false)
}

/// A singly linked sequence of values. Its view is the sequence of its
/// values from the head to the tail.
pub struct LinkedList<T> {
    head: Option<Box<Node<T>>>,
    size: usize,
}

impl<T> View for LinkedList<T> {
    type V = Seq<T>;

    closed spec fn view(&self) -> Seq<T> {
        chain_values(self.head)
    }
}

impl<T> LinkedList<T> {
    /// The cached count is the number of links in the chain, at all times.
    #[verifier::type_invariant]
    spec fn counts_its_links(self) -> bool {
        self.size == chain_values(self.head).len()
    }

    /// An empty list.
    pub fn new() -> (list: LinkedList<T>)
        ensures
            list@ == Seq::<T>::empty(),
    {
        LinkedList { head: None, size: 0 }
    }

    /// The number of values in the list.
    pub fn get_size(&self) -> (size: usize)
        ensures
            size == self@.len(),
    {
        proof {
            use_type_invariant(self);
        }
        self.size
    }

    /// Whether the list holds no value.
    pub fn is_empty(&self) -> (empty: bool)
        ensures
            empty == (self@.len() == 0),
    {
        self.get_size() == 0
    }

    /// Puts `value` in front of the values that the list holds. The list
    /// must have room for one more value in its count.
    pub fn push_front(&mut self, value: T)
        requires
            old(self)@.len() < usize::MAX,
        ensures
            final(self)@ == seq![value] + old(self)@,
            final(self)@.len() == old(self)@.len() + 1,
    {
        proof {
            use_type_invariant(&*self);
        }
        let new_node: Box<Node<T>> = Box::new(Node::new(value, None));
        link_front(&mut self.head, &mut self.size, new_node);
    }

    /// Takes the first value off the list and hands it out; `None`, and no
    /// change, where the list is empty.
    pub fn pop_front(&mut self) -> (value: Option<T>)
        ensures
            value == front(old(self)@),
            final(self)@ == rest(old(self)@),
            value is Some ==> final(self)@.len() == old(self)@.len() - 1,
            value is None ==> final(self)@.len() == 0,
    {
        proof {
            use_type_invariant(&*self);
        }
        unlink_front(&mut self.head, &mut self.size)
    }

    /// Takes the first value off the list, as `pop_front` does: called until
    /// it returns `None`, it hands out every value, from the head to the
    /// tail, and leaves the list empty.
    pub fn next(&mut self) -> (value: Option<T>)
        ensures
            value == front(old(self)@),
            final(self)@ == rest(old(self)@),
    {
        self.pop_front()
    }

    /// Starts a walk along the list that hands out clones of its values and
    /// leaves the list as it is.
    pub fn iter(&self) -> (walk: LinkedListIter<'_, T>)
        ensures
            walk@ == self@,
    {
        LinkedListIter { current: &self.head }
    }
}

/// Makes `node` the first link of the chain in `head`, and counts it. The
/// chain and its count change in one step, so that they agree whenever the
/// list that holds them can be seen.
fn link_front<T>(head: &mut Option<Box<Node<T>>>, size: &mut usize, node: Box<Node<T>>)
    requires
        node.next is None,
        *old(size) < usize::MAX,
    ensures
        chain_values(*final(head)) == seq![node.value] + chain_values(*old(head)),
        *final(size) == *old(size) + 1,
    no_unwind
{
    let mut node = node;
    core::mem::swap(&mut node.next, head);
    *head = Some(node);
    *size = *size + 1;
}

/// Takes the first link, if there is one, off the chain in `head`, counts
/// one less, and hands out the value of the link.
fn unlink_front<T>(head: &mut Option<Box<Node<T>>>, size: &mut usize) -> (value: Option<T>)
    requires
        *old(size) == chain_values(*old(head)).len(),
    ensures
        value == front(chain_values(*old(head))),
        chain_values(*final(head)) == rest(chain_values(*old(head))),
        *final(size) == chain_values(*final(head)).len(),
    no_unwind
{
    let mut first: Option<Box<Node<T>>> = None;
    core::mem::swap(&mut first, head);
    match first {
        None => None,
        Some(node) => {
            let node: Node<T> = *node;
            proof {
                lemma_first_and_rest(*old(head));
            }
            *head = node.next;
            *size = *size - 1;
            Some(node.value)
        },
    }
}

/// Releases every link of the chain in `head`, one at a time and nearest
/// first: each link gives up the chain behind it before it is released, so
/// that no release sets off another.
fn release_chain<T>(head: &mut Option<Box<Node<T>>>, size: &mut usize)
    ensures
        *final(head) is None,
        *final(size) == 0,
    opens_invariants none
    no_unwind
{
    let mut current: Option<Box<Node<T>>> = None;
    core::mem::swap(&mut current, head);
    *size = 0;
    loop
        decreases current,
    {
        match current {
            None => {
                break ;
            },
            Some(mut node) => {
                current = None;
                core::mem::swap(&mut current, &mut node.next);
            },
        }
    }
}

impl<T: Display> LinkedList<T> {
    /// The text of the list: the text of each value, from the head to the
    /// tail, each behind a single space; the empty text for an empty list.
    /// What the text of a value is, `T` decides.
    pub fn to_string(&self) -> (text: String)
        ensures
            exists|texts: Seq<String>| #[trigger]
                texts_of(self@, texts) && text@ == joined(characters(texts)),
            self@.len() == 0 ==> text@ == Seq::<char>::empty(),
    {
        let mut texts: Vec<String> = Vec::new();
        let mut current: &Option<Box<Node<T>>> = &self.head;
        loop
            invariant
                texts@.len() + chain_values(*current).len() == self@.len(),
                chain_values(*current) == self@.skip(texts@.len() as int),
                forall|i: int|
                    0 <= i < texts@.len() ==> to_string_from_display_ensures::<T>(
                        &self@[i],
                        #[trigger] texts@[i],
                    ),
            ensures
                *current is None,
            decreases *current,
        {
            match current {
                None => {
                    break ;
                },
                Some(node) => {
                    proof {
                        lemma_first_and_rest(*current);
                    }
                    texts.push(node.value.to_string());
                    current = &node.next;
                },
            }
        }
        proof {
            assert(texts_of(self@, texts@));
        }
        join_texts(&texts)
    }
}

impl<T: Clone> Clone for LinkedList<T> {
    /// A list of its own that holds a clone of each value, in the same
    /// order. The new chain is built from the head on, each link appended
    /// behind the one before it.
    fn clone(&self) -> (copy: LinkedList<T>)
        ensures
            copy@.len() == self@.len(),
            forall|i: int| 0 <= i < self@.len() ==> cloned::<T>(#[trigger] self@[i], copy@[i]),
    {
        proof {
            use_type_invariant(self);
        }
        let mut head: Option<Box<Node<T>>> = None;
        let mut tail: &mut Option<Box<Node<T>>> = &mut head;
        let mut current: &Option<Box<Node<T>>> = &self.head;
        let ghost mut copied: Seq<T> = Seq::empty();
        loop
            invariant
                *tail is None,
                chain_values(after_borrow(head)) == copied + chain_values(*final(tail)),
                copied.len() + chain_values(*current).len() == self@.len(),
                self@ == self@.take(copied.len() as int) + chain_values(*current),
                forall|i: int|
                    0 <= i < copied.len() ==> cloned::<T>(#[trigger] self@[i], copied[i]),
            ensures
                *current is None,
            decreases *current,
        {
            match current {
                None => {
                    break ;
                },
                Some(node) => {
                    let value: T = node.value.clone();
                    proof {
                        copied = copied.push(value);
                    }
                    *tail = Some(Box::new(Node::new(value, None)));
                    match tail {
                        Some(last) => {
                            tail = &mut last.next;
                        },
                        None => {},
                    }
                    current = &node.next;
                },
            }
        }
        LinkedList { head: head, size: self.size }
    }
}

impl<T: PartialEq> PartialEq for LinkedList<T> {
    /// Compares the two lists value by value from the head on, and stops at
    /// the first pair that `T` finds unequal: the lists are equal where they
    /// have the same length and no such pair. Lists of different lengths
    /// are never equal.
    fn eq(&self, other: &Self) -> (equal: bool)
        ensures
            equal ==> self@.len() == other@.len() && all_found_equal(
                self@,
                other@,
                self@.len() as int,
            ),
            !equal && self@.len() == other@.len() ==> exists|at: int|
                0 <= at < self@.len() && #[trigger] all_found_equal(self@, other@, at)
                    && found_unequal(self@[at], other@[at], true),
    {
        proof {
            use_type_invariant(self);
            use_type_invariant(other);
        }
        if self.size != other.size {
            return false;
        }
        let mut current_a: &Option<Box<Node<T>>> = &self.head;
        let mut current_b: &Option<Box<Node<T>>> = &other.head;
        let ghost mut compared: int = 0;
        loop
            invariant
                self@.len() == other@.len(),
                0 <= compared <= self@.len(),
                chain_values(*current_a) == self@.skip(compared),
                chain_values(*current_b) == other@.skip(compared),
                T::obeys_eq_spec() ==> forall|i: int|
                    0 <= i < compared ==> (#[trigger] self@[i]).eq_spec(&other@[i]),
                all_found_equal(self@, other@, compared),
            decreases *current_a,
        {
            proof {
                lemma_first_and_rest(*current_a);
                lemma_first_and_rest(*current_b);
            }
            match (current_a, current_b) {
                (Some(node_a), Some(node_b)) => {
                    if node_a.value != node_b.value {
                        return false;
                    }
                    current_a = &node_a.next;
                    current_b = &node_b.next;
                    proof {
                        compared = compared + 1;
                    }
                },
                (None, None) => {
                    return true;
                },
                _ => {
                    return false;
                },
            }
        }
    }
}

impl<T: PartialEq> PartialEqSpecImpl for LinkedList<T> {
    open spec fn obeys_eq_spec() -> bool {
        T::obeys_eq_spec()
    }

    /// What `==` means on lists: the same length, and at each position two
    /// values that `T` takes for equal.
    open spec fn eq_spec(&self, other: &Self) -> bool {
        &&& self@.len() == other@.len()
        &&& forall|i: int| 0 <= i < self@.len() ==> (#[trigger] self@[i]).eq_spec(&other@[i])
    }
}

impl<T> Drop for LinkedList<T> {
    /// Releases the chain link by link, in a loop, and leaves the list
    /// without a link: the depth of the call stack does not grow with the
    /// length of the list.
    fn drop(&mut self)
        ensures
            final(self)@ == Seq::<T>::empty(),
        opens_invariants none
        no_unwind
    {
        release_chain(&mut self.head, &mut self.size);
    }
}

/// A walk along a borrowed list, from the head to the tail. Its view is the
/// sequence of the values that it has not reached yet. It only reads the
/// list, which stays as it is.
pub struct LinkedListIter<'a, T> {
    current: &'a Option<Box<Node<T>>>,
}

impl<'a, T> View for LinkedListIter<'a, T> {
    type V = Seq<T>;

    closed spec fn view(&self) -> Seq<T> {
        chain_values(*self.current)
    }
}

impl<'a, T: Clone> LinkedListIter<'a, T> {
    /// Hands out a clone of the next value and moves past it; `None`, and no
    /// move, at the end of the list.
    pub fn next(&mut self) -> (item: Option<T>)
        ensures
            final(self)@ == rest(old(self)@),
            match item {
                None => old(self)@.len() == 0,
                Some(value) => old(self)@.len() > 0 && cloned::<T>(old(self)@[0], value),
            },
    {
        proof {
            lemma_first_and_rest(*self.current);
        }
        match self.current {
            Some(node) => {
                self.current = &node.next;
                Some(node.value.clone())
            },
            None => None,
        }
    }
}

} // verus!
