//! The list: an ordered container with operations at its ends and at any
//! position.
//!
//! A list is viewed as the `Seq` of its elements from head to tail. A position
//! past the end is not an error for the clamping operations: an insertion then
//! appends, and a read or a removal then addresses the last element. Only an
//! empty list refuses a read or a removal.

use crate::chain::Chain;
use crate::error::ListError;
use crate::seq_model::{
    access_position, additions, applied, inserted, item_at, lemma_replayed_len, removals, removed,
    replayed, ListOp,
};
use vstd::prelude::*;

verus! {

/// A doubly linked list of `T`.
pub struct LinkedList<T> {
    chain: Chain<T>,
}

impl<T> View for LinkedList<T> {
    type V = Seq<T>;

    /// The elements from head to tail.
    closed spec fn view(&self) -> Seq<T> {
        self.chain@
    }
}

impl<T> LinkedList<T> {
    #[verifier::type_invariant]
    spec fn well_formed(&self) -> bool {
        self.chain.wf()
    }

    /// An empty list.
    pub fn new() -> (list: Self)
        ensures
            list@ == Seq::<T>::empty(),
    {
        LinkedList { chain: Chain::new() }
    }

    /// The number of elements.
    pub fn len(&self) -> (len: usize)
        ensures
            len == self@.len(),
    {
        proof {
            use_type_invariant(self);
        }
        self.chain.len()
    }

    /// Moves the chain out and leaves an empty one, so that an operation that
    /// may fail to finish never leaves a half-linked chain behind in the list.
    fn take_chain(&mut self) -> (chain: Chain<T>)
        ensures
            chain.wf(),
            chain@ == old(self)@,
    {
        proof {
            use_type_invariant(&*self);
        }
        let mut chain = Chain::new();
        core::mem::swap(&mut chain, &mut self.chain);
        chain
    }

    /// Adds `data` before the first element.
    pub fn push_front(&mut self, data: T)
        ensures
            final(self)@ == seq![data] + old(self)@,
    {
        let mut chain = self.take_chain();
        chain.push_front(data);
        self.chain = chain;
    }

    /// Adds `data` after the last element.
    pub fn push_back(&mut self, data: T)
        ensures
            final(self)@ == old(self)@.push(data),
    {
        let mut chain = self.take_chain();
        chain.push_back(data);
        self.chain = chain;
    }

    /// Adds `data` at position `index`, so that it becomes the element at that
    /// position; an `index` past the end appends.
    pub fn insert(&mut self, index: usize, data: T)
        ensures
            final(self)@ == inserted(old(self)@, index, data),
    {
        let mut chain = self.take_chain();
        chain.insert(index, data);
        self.chain = chain;
    }

    /// Removes the first element and returns it, or returns `None` when the
    /// list is empty.
    pub fn pop_front(&mut self) -> (data: Option<T>)
        ensures
            old(self)@.len() == 0 ==> data is None && final(self)@ == old(self)@,
            old(self)@.len() > 0 ==> data == Some(old(self)@.first()) && final(self)@ == old(
                self)@.drop_first(),
    {
        let mut chain = self.take_chain();
        let data = chain.pop_front();
        self.chain = chain;
        data
    }

    /// Removes the last element and returns it, or returns `None` when the
    /// list is empty.
    pub fn pop_tail(&mut self) -> (data: Option<T>)
        ensures
            old(self)@.len() == 0 ==> data is None && final(self)@ == old(self)@,
            old(self)@.len() > 0 ==> data == Some(old(self)@.last()) && final(self)@ == old(
                self)@.drop_last(),
    {
        let mut chain = self.take_chain();
        let data = chain.pop_tail();
        self.chain = chain;
        data
    }

    /// Removes the element at position `index` and returns it; an `index` past
    /// the end removes the last element. An empty list is left as it is and
    /// the removal fails with `EmptyContainer`.
    pub fn remove(&mut self, index: usize) -> (data: Result<T, ListError>)
        ensures
            final(self)@ == removed(old(self)@, index),
            old(self)@.len() == 0 ==> data == Err::<T, ListError>(ListError::EmptyContainer),
            old(self)@.len() > 0 ==> data == Ok::<T, ListError>(item_at(old(self)@, index)),
    {
        let mut chain = self.take_chain();
        let data = chain.remove(index);
        self.chain = chain;
        data
    }

    /// Reads the element at position `index`; an `index` past the end reads
    /// the last element. On an empty list the read fails with
    /// `EmptyContainer`.
    pub fn get(&self, index: usize) -> (item: Result<&T, ListError>)
        ensures
            self@.len() == 0 ==> item == Err::<&T, ListError>(ListError::EmptyContainer),
            self@.len() > 0 ==> item == Ok::<&T, ListError>(&item_at(self@, index)),
    {
        proof {
            use_type_invariant(self);
        }
        self.chain.get(index)
    }

    /// Reads the element at position `index` without clamping: an `index` past
    /// the end fails with `IndexOutOfRange`, and any read of an empty list
    /// with `EmptyContainer`.
    pub fn get_strict(&self, index: usize) -> (item: Result<&T, ListError>)
        ensures
            self@.len() == 0 ==> item == Err::<&T, ListError>(ListError::EmptyContainer),
            0 < self@.len() <= index ==> item == Err::<&T, ListError>(
                ListError::IndexOutOfRange,
            ),
            index < self@.len() ==> item == Ok::<&T, ListError>(&self@[index as int]),
    {
        proof {
            use_type_invariant(self);
        }
        let len = self.chain.len();
        if len > 0 && index >= len {
            Err(ListError::IndexOutOfRange)
        } else {
            self.chain.get(index)
        }
    }

    /// Borrows the element at position `index` for writing; an `index` past
    /// the end borrows the last element. What the caller leaves in the borrow
    /// is the element at that position afterwards, and nothing else changes.
    /// On an empty list the borrow fails with `EmptyContainer`.
    pub fn get_mut(&mut self, index: usize) -> (item: Result<&mut T, ListError>)
        ensures
            old(self)@.len() == 0 ==> item is Err && item->Err_0 == ListError::EmptyContainer
                && final(self)@ == old(self)@,
            old(self)@.len() > 0 ==> item is Ok && *item->Ok_0 == item_at(old(self)@, index)
                && final(self)@ == old(self)@.update(
                access_position(old(self)@.len(), index),
                *final(item->Ok_0),
            ),
    {
        proof {
            use_type_invariant(&*self);
        }
        self.chain.get_mut(index)
    }

    /// Carries out `op`, and returns the element that it removed, if any.
    pub fn apply(&mut self, op: ListOp<T>) -> (taken: Option<T>)
        ensures
            final(self)@ == applied(old(self)@, op),
            taken == (if op is Remove && old(self)@.len() > 0 {
                Some(item_at(old(self)@, op->Remove_0))
            } else {
                None
            }),
    {
        match op {
            ListOp::PushFront(data) => {
                self.push_front(data);
                None
            },
            ListOp::PushBack(data) => {
                self.push_back(data);
                None
            },
            ListOp::Insert(index, data) => {
                self.insert(index, data);
                None
            },
            ListOp::Remove(index) => match self.remove(index) {
                Ok(data) => Some(data),
                Err(_) => None,
            },
        }
    }

    /// Carries out `ops` in order. The list then holds what the same
    /// operations make of its view, and its length has grown by the number
    /// of additions less the number of removals that found an element.
    pub fn replay(&mut self, ops: Vec<ListOp<T>>)
        ensures
            final(self)@ == replayed(old(self)@, ops@),
            final(self)@.len() == old(self)@.len() + additions(ops@) - removals(old(self)@, ops@),
    {
        let ghost all = ops@;
        for op in iter: ops
            invariant
                iter.seq() == all,
                self@ == replayed(old(self)@, all.take(iter.index() as int)),
        {
            let _ = self.apply(op);
            assert(all.take(iter.index() + 1).drop_last() =~= all.take(iter.index() as int));
        }
        proof {
            assert(all.take(all.len() as int) =~= all);
            lemma_replayed_len(old(self)@, all);
        }
    }

    /// A traversal of the list from head to tail.
    pub fn iter<'d>(&'d self) -> (iter: ListIter<'d, T>)
        ensures
            iter@ == self@,
    {
        proof {
            use_type_invariant(self);
            self.chain.lemma_slot_at(0);
        }
        ListIter { list: self, curr: self.chain.first(), pos: Ghost(0) }
    }
}

impl<T> Default for LinkedList<T> {
    fn default() -> (list: Self)
        ensures
            list@ == Seq::<T>::empty(),
    {
        LinkedList::new()
    }
}

/// A traversal of a list in progress: the elements from some position to the
/// tail are still to come.
pub struct ListIter<'d, T> {
    list: &'d LinkedList<T>,
    curr: Option<usize>,
    pos: Ghost<int>,
}

impl<'d, T> View for ListIter<'d, T> {
    type V = Seq<T>;

    /// The elements still to come, in order.
    closed spec fn view(&self) -> Seq<T> {
        self.list@.skip(self.pos@)
    }
}

impl<'d, T> ListIter<'d, T> {
    #[verifier::type_invariant]
    spec fn well_formed(&self) -> bool {
        &&& self.list.chain.wf()
        &&& 0 <= self.pos@ <= self.list@.len()
        &&& self.curr == self.list.chain.slot_at(self.pos@)
    }

    /// The next element of the traversal, or `None` once the tail has been
    /// passed.
    pub fn next(&mut self) -> (item: Option<&'d T>)
        ensures
            old(self)@.len() == 0 ==> item is None && final(self)@ == old(self)@,
            old(self)@.len() > 0 ==> item == Some(&old(self)@.first()) && final(self)@ == old(
                self)@.drop_first(),
    {
        proof {
            use_type_invariant(&*self);
            self.list.chain.lemma_slot_at(self.pos@);
        }
        match self.curr {
            Some(slot) => {
                let list = self.list;
                let (item, next) = list.chain.visit(slot, Ghost(self.pos@));
                proof {
                    list.chain.lemma_slot_at(self.pos@ + 1);
                    assert(old(self)@.drop_first() =~= list@.skip(self.pos@ + 1));
                }
                *self = ListIter { list, curr: next, pos: Ghost(self.pos@ + 1) };
                Some(item)
            },
            None => None,
        }
    }
}

} // verus!
