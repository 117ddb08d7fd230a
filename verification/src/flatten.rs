//! Walks a sequence of sequences as one sequence, from either end.

use std::collections::VecDeque;
use vstd::prelude::*;

verus! {

/// The items of the inner sequences of `outer`, in order, as one sequence.
pub open spec fn flat<T>(outer: Seq<Vec<T>>) -> Seq<T> {
    outer.map_values(|inner: Vec<T>| inner@).flatten()
}

/// With a first inner sequence, the flat sequence starts with its items.
proof fn lemma_flat_first<T>(outer: Seq<Vec<T>>)
    requires
        outer.len() > 0,
    ensures
        flat(outer) == outer.first()@ + flat(outer.drop_first()),
{
    let views = outer.map_values(|inner: Vec<T>| inner@);
    assert(views.drop_first() =~= outer.drop_first().map_values(|inner: Vec<T>| inner@));
}

/// With a last inner sequence, the flat sequence ends with its items.
proof fn lemma_flat_last<T>(outer: Seq<Vec<T>>)
    requires
        outer.len() > 0,
    ensures
        flat(outer) == flat(outer.drop_last()) + outer.last()@,
{
    let views = outer.map_values(|inner: Vec<T>| inner@);
    assert(views.drop_last() =~= outer.drop_last().map_values(|inner: Vec<T>| inner@));
    assert(views =~= views.drop_last().push(views.last()));
    views.drop_last().lemma_flatten_push(views.last());
}

/// The items that an opened inner sequence still holds.
spec fn opened<T>(inner: Option<VecDeque<T>>) -> Seq<T> {
    match inner {
        Some(items) => items@,
        None => Seq::empty(),
    }
}

/// The same items in a queue that gives them up at both ends.
fn into_deque<U>(items: Vec<U>) -> (queue: VecDeque<U>)
    ensures
        queue@ == items@,
{
    let mut items = items;
    let ghost all = items@;
    let mut queue: VecDeque<U> = VecDeque::new();
    while items.len() > 0
        invariant
            items@ + queue@ == all,
        decreases items.len(),
    {
        let ghost stack = items@;
        let ghost moved = queue@;
        let last = items.pop().unwrap();
        queue.push_front(last);
        assert(items@ + queue@ =~= stack + moved) by {
            assert(stack =~= items@.push(last));
        }
    }
    assert(queue@ =~= items@ + queue@);
    queue
}

/// An adapter that hands out the items of a sequence of sequences one by one,
/// from the front with [`Flatten::next`] and from the back with
/// [`Flatten::next_back`].
///
/// Its view is the sequence of the items that are still to come.
pub struct Flatten<T> {
    outer: VecDeque<Vec<T>>,
    front_iter: Option<VecDeque<T>>,
    back_iter: Option<VecDeque<T>>,
}

/// An adapter over all items of `iter`.
pub fn flatten<T>(iter: Vec<Vec<T>>) -> (adapter: Flatten<T>)
    ensures
        adapter@ == flat(iter@),
{
    Flatten::new(iter)
}

impl<T> View for Flatten<T> {
    type V = Seq<T>;

    /// The items still to come: those left of the inner sequence opened at
    /// the front, those of the inner sequences not yet opened, and those left
    /// of the inner sequence opened at the back.
    closed spec fn view(&self) -> Seq<T> {
        opened(self.front_iter) + flat(self.outer@) + opened(self.back_iter)
    }
}

impl<T> Flatten<T> {
    fn new(iter: Vec<Vec<T>>) -> (adapter: Self)
        ensures
            adapter@ == flat(iter@),
    {
        let adapter = Flatten { outer: into_deque(iter), front_iter: None, back_iter: None };
        assert(adapter@ =~= flat(iter@));
        adapter
    }
}

impl<T> Iterator for Flatten<T> {
    type Item = T;

    /// Takes the first of the items still to come; `None` when none is left.
    fn next(&mut self) -> (item: Option<T>)
        ensures
            old(self)@.len() > 0 ==> item == Some(old(self)@.first()) && final(self)@
                == old(self)@.drop_first(),
            old(self)@.len() == 0 ==> item is None && final(self)@ == old(self)@,
    {
        loop
            invariant
                self@ == old(self)@,
            decreases self.outer@.len(),
        {
            if let Some(inner_iter) = &mut self.front_iter {
                if let Some(i) = inner_iter.pop_front() {
                    assert(self@ =~= old(self)@.drop_first());
                    return Some(i);
                }
                self.front_iter = None;
            }
            assert(self@ =~= old(self)@);
            let ghost unopened = self.outer@;
            if let Some(next_inner) = self.outer.pop_front() {
                proof {
                    lemma_flat_first(unopened);
                    assert(self.outer@ =~= unopened.drop_first());
                }
                self.front_iter = Some(into_deque(next_inner));
                assert(self@ =~= old(self)@);
            } else {
                assert(flat(self.outer@) =~= Seq::<T>::empty());
                return match &mut self.back_iter {
                    Some(inner_iter) => {
                        let item = inner_iter.pop_front();
                        assert(item is Some ==> self@ =~= old(self)@.drop_first());
                        assert(item is None ==> self@ =~= old(self)@);
                        item
                    },
                    None => None,
                };
            }
        }
    }
}

impl<T> DoubleEndedIterator for Flatten<T> {
    /// Takes the last of the items still to come; `None` when none is left.
    fn next_back(&mut self) -> (item: Option<T>)
        ensures
            old(self)@.len() > 0 ==> item == Some(old(self)@.last()) && final(self)@
                == old(self)@.drop_last(),
            old(self)@.len() == 0 ==> item is None && final(self)@ == old(self)@,
    {
        loop
            invariant
                self@ == old(self)@,
            decreases self.outer@.len(),
        {
            if let Some(inner_iter) = &mut self.back_iter {
                if let Some(i) = inner_iter.pop_back() {
                    assert(self@ =~= old(self)@.drop_last());
                    return Some(i);
                }
                self.back_iter = None;
            }
            assert(self@ =~= old(self)@);
            let ghost unopened = self.outer@;
            if let Some(back_inner) = self.outer.pop_back() {
                proof {
                    lemma_flat_last(unopened);
                    assert(self.outer@ =~= unopened.drop_last());
                }
                self.back_iter = Some(into_deque(back_inner));
                assert(self@ =~= old(self)@);
            } else {
                assert(flat(self.outer@) =~= Seq::<T>::empty());
                return match &mut self.front_iter {
                    Some(inner_iter) => {
                        let item = inner_iter.pop_back();
                        assert(item is Some ==> self@ =~= old(self)@.drop_last());
                        assert(item is None ==> self@ =~= old(self)@);
                        item
                    },
                    None => None,
                };
            }
        }
    }
}

/// The adapter keeps the laws of a finite iterator: the items that it will
/// hand out are its view, front to back, and after them it hands out `None`.
impl<T> vstd::std_specs::iter::IteratorSpecImpl for Flatten<T> {
    open spec fn obeys_prophetic_iter_laws(&self) -> bool {
        true
    }

    open spec fn remaining(&self) -> Seq<T> {
        self@
    }

    open spec fn will_return_none(&self) -> bool {
        true
    }

    open spec fn decrease(&self) -> Option<nat> {
        Some(self@.len())
    }

    open spec fn initial_value_relation(&self, init: &Self) -> bool {
        self@ == init@
    }

    open spec fn peek(&self, index: int) -> Option<T> {
        if 0 <= index < self@.len() {
            Some(self@[index])
        } else {
            None
        }
    }
}

impl<T> vstd::std_specs::iter::DoubleEndedIteratorSpecImpl for Flatten<T> {
    open spec fn peek_back(&self, index: int) -> Option<T> {
        if 0 <= index < self@.len() {
            Some(self@[self@.len() - index - 1])
        } else {
            None
        }
    }
}

} // verus!
