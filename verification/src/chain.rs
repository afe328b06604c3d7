//! The arena behind a list: a vector of slots linked by their indices.
//!
//! A slot is either linked into the list or waiting on the free list. Two ghost
//! sequences name the slots of each kind in order; the invariant ties the
//! links stored in the slots to those sequences, so that following `next` from
//! `head` visits exactly the slots of `order`.

use crate::error::ListError;
use crate::seq_model::{access_position, inserted, item_at, removed};
use vstd::prelude::*;

verus! {

/// One slot of the arena: an element and the indices of its neighbours.
pub(crate) struct ListNode<T> {
    next: Option<usize>,
    prev: Option<usize>,
    data: Option<T>,
}

impl<T> ListNode<T> {
    /// A slot that holds `data` and has no neighbour yet.
    fn new(data: T) -> (node: Self)
        ensures
            node.next is None,
            node.prev is None,
            node.data == Some(data),
    {
        ListNode { next: None, prev: None, data: Some(data) }
    }
}

/// A doubly linked chain of slots inside a vector, with a free list of the
/// slots that removals have emptied.
pub(crate) struct Chain<T> {
    head: Option<usize>,
    tail: Option<usize>,
    free: Option<usize>,
    nodes: Vec<ListNode<T>>,
    len: usize,
    /// The linked slots, from head to tail.
    order: Ghost<Seq<usize>>,
    /// The empty slots, in the order in which the free list hands them out.
    spare: Ghost<Seq<usize>>,
}

impl<T> Chain<T> {
    /// The slot at position `i` of the chain holds an element and points at
    /// the slots before and after it.
    spec fn linked_at(&self, i: int) -> bool {
        let k = self.order@[i] as int;
        &&& k < self.nodes@.len()
        &&& self.nodes@[k].data is Some
        &&& self.nodes@[k].prev == (if i == 0 {
            None
        } else {
            Some(self.order@[i - 1])
        })
        &&& self.nodes@[k].next == (if i + 1 == self.order@.len() {
            None
        } else {
            Some(self.order@[i + 1])
        })
    }

    /// The slot at position `j` of the free list is empty and points at the
    /// next free slot.
    spec fn spare_at(&self, j: int) -> bool {
        let k = self.spare@[j] as int;
        &&& k < self.nodes@.len()
        &&& self.nodes@[k].data is None
        &&& self.nodes@[k].next == (if j + 1 == self.spare@.len() {
            None
        } else {
            Some(self.spare@[j + 1])
        })
    }

    /// `head`, `tail`, `len` and the links of the slots agree with `order`.
    spec fn order_ok(&self) -> bool {
        &&& self.len == self.order@.len()
        &&& self.head == (if self.order@.len() == 0 {
            None
        } else {
            Some(self.order@[0])
        })
        &&& self.tail == (if self.order@.len() == 0 {
            None
        } else {
            Some(self.order@[self.order@.len() - 1])
        })
        &&& forall|i: int| 0 <= i < self.order@.len() ==> #[trigger] self.linked_at(i)
        &&& forall|i: int, j: int|
            0 <= i < j < self.order@.len() ==> self.order@[i] != self.order@[j]
    }

    /// `free` and the links of the empty slots agree with `spare`.
    spec fn spare_ok(&self) -> bool {
        &&& self.free == (if self.spare@.len() == 0 {
            None
        } else {
            Some(self.spare@[0])
        })
        &&& forall|j: int| 0 <= j < self.spare@.len() ==> #[trigger] self.spare_at(j)
        &&& forall|i: int, j: int|
            0 <= i < j < self.spare@.len() ==> self.spare@[i] != self.spare@[j]
    }

    /// The chain is well formed: every slot of the arena is linked or free,
    /// and the stored links describe both lists.
    pub(crate) closed spec fn wf(&self) -> bool {
        &&& self.order_ok()
        &&& self.spare_ok()
        &&& self.order@.len() + self.spare@.len() == self.nodes@.len()
    }

    /// The elements from head to tail.
    pub(crate) closed spec fn view(&self) -> Seq<T> {
        Seq::new(self.order@.len(), |i: int| self.nodes@[self.order@[i] as int].data->0)
    }

    /// The slot that holds the element at position `pos`, if there is one.
    pub(crate) closed spec fn slot_at(&self, pos: int) -> Option<usize> {
        if 0 <= pos < self.order@.len() {
            Some(self.order@[pos])
        } else {
            None
        }
    }

    /// An empty chain.
    pub(crate) fn new() -> (chain: Self)
        ensures
            chain.wf(),
            chain@ == Seq::<T>::empty(),
    {
        Chain {
            head: None,
            tail: None,
            free: None,
            nodes: Vec::new(),
            len: 0,
            order: Ghost(Seq::empty()),
            spare: Ghost(Seq::empty()),
        }
    }

    /// The number of elements.
    pub(crate) fn len(&self) -> (len: usize)
        requires
            self.wf(),
        ensures
            len == self@.len(),
        no_unwind
    {
        self.len
    }

    /// Puts `data` into a slot of its own, not yet linked to any neighbour:
    /// the first slot of the free list if there is one, else a new slot at the
    /// end of the arena.
    fn add_node(&mut self, data: T) -> (index: usize)
        requires
            old(self).wf(),
        ensures
            final(self).order_ok(),
            final(self).spare_ok(),
            final(self).order@ == old(self).order@,
            final(self)@ == old(self)@,
            final(self).order@.len() + final(self).spare@.len() + 1 == final(self).nodes@.len(),
            index < final(self).nodes@.len(),
            final(self).nodes@[index as int].data == Some(data),
            final(self).nodes@[index as int].next is None,
            final(self).nodes@[index as int].prev is None,
            forall|i: int|
                0 <= i < old(self).order@.len() ==> (#[trigger] old(self).order@[i]) != index,
    {
        let ghost before = *self;
        let index = match self.free {
            Some(index) => {
                proof {
                    assert(before.spare_at(0));
                }
                self.free = self.nodes[index].next;
                self.nodes[index] = ListNode::new(data);
                proof {
                    self.spare = Ghost(before.spare@.drop_first());
                }
                index
            },
            None => {
                let index = self.nodes.len();
                self.nodes.push(ListNode::new(data));
                index
            },
        };
        proof {
            assert forall|i: int| 0 <= i < before.order@.len() implies (
            #[trigger] before.order@[i]) != index && self.linked_at(i) by {
                assert(before.linked_at(i));
            }
            assert forall|j: int| 0 <= j < self.spare@.len() implies #[trigger] self.spare_at(
                j,
            ) by {
                assert(before.spare_at(j + 1));
                assert(before.spare@[j + 1] != before.spare@[0]);
            }
            assert(self@ =~= before@);
        }
        index
    }

    /// Adds `data` after the last element.
    pub(crate) fn push_back(&mut self, data: T)
        requires
            old(self).wf(),
        ensures
            final(self).wf(),
            final(self)@ == old(self)@.push(data),
    {
        let ghost before = *self;
        let index = self.add_node(data);
        let ghost mid = *self;
        match self.tail {
            Some(tail) => {
                proof {
                    assert(mid.linked_at(mid.order@.len() - 1));
                }
                self.nodes[tail].next = Some(index);
                self.nodes[index].prev = Some(tail);
            },
            None => {
                self.head = Some(index);
            },
        }
        self.tail = Some(index);
        assert(self.len < self.nodes.len());
        self.len = self.len + 1;
        proof {
            self.order = Ghost(mid.order@.push(index));
            assert forall|i: int| 0 <= i < self.order@.len() implies #[trigger] self.linked_at(
                i,
            ) by {
                if i < mid.order@.len() {
                    assert(mid.linked_at(i));
                }
            }
            assert forall|j: int| 0 <= j < self.spare@.len() implies #[trigger] self.spare_at(
                j,
            ) by {
                assert(mid.spare_at(j));
            }
            assert forall|i: int| 0 <= i < self@.len() implies self@[i] == before@.push(
                data,
            )[i] by {
                if i < mid.order@.len() {
                    assert(mid.linked_at(i));
                }
            }
            assert(self@ =~= before@.push(data));
        }
    }

    /// Adds `data` before the first element.
    pub(crate) fn push_front(&mut self, data: T)
        requires
            old(self).wf(),
        ensures
            final(self).wf(),
            final(self)@ == seq![data] + old(self)@,
    {
        let ghost before = *self;
        let index = self.add_node(data);
        let ghost mid = *self;
        match self.head {
            Some(head) => {
                proof {
                    assert(mid.linked_at(0));
                }
                self.nodes[head].prev = Some(index);
                self.nodes[index].next = Some(head);
            },
            None => {
                self.tail = Some(index);
            },
        }
        self.head = Some(index);
        assert(self.len < self.nodes.len());
        self.len = self.len + 1;
        proof {
            self.order = Ghost(seq![index] + mid.order@);
            assert forall|i: int| 0 <= i < self.order@.len() implies #[trigger] self.linked_at(
                i,
            ) by {
                if i > 0 {
                    assert(mid.linked_at(i - 1));
                }
            }
            assert forall|j: int| 0 <= j < self.spare@.len() implies #[trigger] self.spare_at(
                j,
            ) by {
                assert(mid.spare_at(j));
            }
            assert forall|i: int| 0 <= i < self@.len() implies self@[i] == (seq![data]
                + before@)[i] by {
                if i > 0 {
                    assert(mid.linked_at(i - 1));
                }
            }
            assert(self@ =~= seq![data] + before@);
        }
    }

    /// Follows `next` from the head for `steps` steps and returns the slot
    /// reached.
    fn walk(&self, head: usize, steps: usize) -> (slot: usize)
        requires
            self.order_ok(),
            steps < self.order@.len(),
            head == self.order@[0],
        ensures
            slot == self.order@[steps as int],
        no_unwind
    {
        let mut slot = head;
        let mut done: usize = 0;
        while done < steps
            invariant
                self.order_ok(),
                done <= steps < self.order@.len(),
                slot == self.order@[done as int],
            decreases steps - done,
        {
            proof {
                assert(self.linked_at(done as int));
            }
            if let Some(next) = self.nodes[slot].next {
                slot = next;
            }
            done = done + 1;
        }
        slot
    }

    /// A chain whose slot `node` has been linked in between `prev` and `curr`,
    /// the slots at positions `index - 1` and `index`, holds the element of
    /// `node` at position `index`, and is in order again.
    proof fn lemma_spliced_in(
        before: Self,
        after: Self,
        index: int,
        node: usize,
        prev: usize,
        curr: usize,
    )
        requires
            before.order_ok(),
            before.spare_ok(),
            0 < index < before.order@.len(),
            prev == before.order@[index - 1],
            curr == before.order@[index],
            node < before.nodes@.len(),
            before.nodes@[node as int].data is Some,
            forall|i: int| 0 <= i < before.order@.len() ==> (#[trigger] before.order@[i]) != node,
            after.head == before.head,
            after.tail == before.tail,
            after.free == before.free,
            after.spare@ == before.spare@,
            after.len == before.len + 1,
            after.order@ == before.order@.insert(index, node),
            after.nodes@.len() == before.nodes@.len(),
            forall|k: int|
                0 <= k < before.nodes@.len() && k != node && k != prev && k != curr
                    ==> after.nodes@[k] == before.nodes@[k],
            after.nodes@[node as int].data == before.nodes@[node as int].data,
            after.nodes@[node as int].prev == Some(prev),
            after.nodes@[node as int].next == Some(curr),
            after.nodes@[prev as int].data == before.nodes@[prev as int].data,
            after.nodes@[prev as int].prev == before.nodes@[prev as int].prev,
            after.nodes@[prev as int].next == Some(node),
            after.nodes@[curr as int].data == before.nodes@[curr as int].data,
            after.nodes@[curr as int].prev == Some(node),
            after.nodes@[curr as int].next == before.nodes@[curr as int].next,
        ensures
            after.order_ok(),
            after.spare_ok(),
            after@ == before@.insert(index, before.nodes@[node as int].data->0),
    {
        assert(before.linked_at(index));
        assert(before.linked_at(index - 1));
        assert forall|i: int| 0 <= i < after.order@.len() implies #[trigger] after.linked_at(
            i,
        ) by {
            if i < index {
                assert(before.linked_at(i));
            } else if i > index {
                assert(before.linked_at(i - 1));
            }
        }
        assert forall|j: int| 0 <= j < after.spare@.len() implies #[trigger] after.spare_at(
            j,
        ) by {
            assert(before.spare_at(j));
        }
        assert forall|i: int| 0 <= i < after@.len() implies after@[i] == before@.insert(
            index,
            before.nodes@[node as int].data->0,
        )[i] by {
            if i < index {
                assert(before.linked_at(i));
            } else if i > index {
                assert(before.linked_at(i - 1));
            }
        }
        assert(after@ =~= before@.insert(index, before.nodes@[node as int].data->0));
    }

    /// Adds `data` at position `index`, or at the end when `index` lies past
    /// it.
    pub(crate) fn insert(&mut self, index: usize, data: T)
        requires
            old(self).wf(),
        ensures
            final(self).wf(),
            final(self)@ == inserted(old(self)@, index, data),
    {
        if index == 0 {
            self.push_front(data);
            assert(self@ =~= old(self)@.insert(0, data));
            return ;
        } else if index >= self.len {
            self.push_back(data);
            assert(self@ =~= old(self)@.insert(old(self)@.len() as int, data));
            return ;
        }
        let node = self.add_node(data);
        let ghost mid = *self;
        let curr = self.walk(self.head.unwrap(), index);
        proof {
            assert(mid.linked_at(index as int));
            assert(mid.linked_at(index - 1));
        }
        let prev = self.nodes[curr].prev.unwrap();
        self.nodes[node].prev = Some(prev);
        self.nodes[node].next = Some(curr);
        self.nodes[prev].next = Some(node);
        self.nodes[curr].prev = Some(node);
        assert(self.len < self.nodes.len());
        self.len = self.len + 1;
        proof {
            self.order = Ghost(mid.order@.insert(index as int, node));
            Self::lemma_spliced_in(mid, *self, index as int, node, prev, curr);
        }
    }

    /// A chain whose slot `slot`, at position `pos`, has been passed over, its
    /// neighbours joined to each other, holds the other elements in their
    /// order, and the slot that was passed over still holds its element.
    proof fn lemma_passed_over(before: Self, after: Self, pos: int, slot: usize)
        requires
            before.wf(),
            0 <= pos < before.order@.len(),
            slot == before.order@[pos],
            after.free == before.free,
            after.spare@ == before.spare@,
            after.len == before.len - 1,
            after.order@ == before.order@.remove(pos),
            after.head == (if pos == 0 {
                before.nodes@[slot as int].next
            } else {
                before.head
            }),
            after.tail == (if pos + 1 == before.order@.len() {
                before.nodes@[slot as int].prev
            } else {
                before.tail
            }),
            after.nodes@.len() == before.nodes@.len(),
            forall|k: int|
                0 <= k < before.nodes@.len() ==> (#[trigger] after.nodes@[k]).data
                    == before.nodes@[k].data,
            forall|i: int|
                #![trigger before.order@[i]]
                0 <= i < before.order@.len() && i != pos - 1
                    ==> after.nodes@[before.order@[i] as int].next
                    == before.nodes@[before.order@[i] as int].next,
            forall|i: int|
                #![trigger before.order@[i]]
                0 <= i < before.order@.len() && i != pos + 1
                    ==> after.nodes@[before.order@[i] as int].prev
                    == before.nodes@[before.order@[i] as int].prev,
            pos > 0 ==> after.nodes@[before.order@[pos - 1] as int].next
                == before.nodes@[slot as int].next,
            pos + 1 < before.order@.len() ==> after.nodes@[before.order@[pos + 1] as int].prev
                == before.nodes@[slot as int].prev,
            forall|j: int|
                #![trigger before.spare@[j]]
                0 <= j < before.spare@.len() ==> after.nodes@[before.spare@[j] as int].next
                    == before.nodes@[before.spare@[j] as int].next,
        ensures
            after.order_ok(),
            after.spare_ok(),
            after@ == before@.remove(pos),
            after.nodes@[slot as int].data == Some(before@[pos]),
            forall|i: int| 0 <= i < after.order@.len() ==> (#[trigger] after.order@[i]) != slot,
    {
        assert(before.linked_at(pos));
        assert forall|i: int| 0 <= i < after.order@.len() implies #[trigger] after.linked_at(
            i,
        ) && after.order@[i] != slot by {
            if i < pos {
                assert(before.linked_at(i));
            } else {
                assert(before.linked_at(i + 1));
            }
        }
        assert forall|j: int| 0 <= j < after.spare@.len() implies #[trigger] after.spare_at(
            j,
        ) by {
            assert(before.spare_at(j));
        }
        assert forall|i: int| 0 <= i < after@.len() implies after@[i] == before@.remove(pos)[i] by {
            assert(after.linked_at(i));
        }
        assert(after@ =~= before@.remove(pos));
    }

    /// Takes the slot at position `pos` out of the chain by joining its two
    /// neighbours, or by moving `head` or `tail` where it has none. The slot
    /// keeps its element and belongs to neither list afterwards.
    fn detach(&mut self, slot: usize, Ghost(pos): Ghost<int>)
        requires
            old(self).wf(),
            0 <= pos < old(self).order@.len(),
            slot == old(self).order@[pos],
        ensures
            final(self).order_ok(),
            final(self).spare_ok(),
            final(self).order@ == old(self).order@.remove(pos),
            final(self)@ == old(self)@.remove(pos),
            final(self).order@.len() + final(self).spare@.len() + 1 == final(self).nodes@.len(),
            slot < final(self).nodes@.len(),
            final(self).nodes@[slot as int].data == Some(old(self)@[pos]),
            forall|i: int|
                0 <= i < final(self).order@.len() ==> (#[trigger] final(self).order@[i]) != slot,
    {
        let ghost before = *self;
        proof {
            assert(before.linked_at(pos));
            if pos > 0 {
                assert(before.linked_at(pos - 1));
            }
            if pos + 1 < before.order@.len() {
                assert(before.linked_at(pos + 1));
            }
        }
        let prev = self.nodes[slot].prev;
        let next = self.nodes[slot].next;
        match prev {
            Some(prev_slot) => {
                self.nodes[prev_slot].next = next;
            },
            None => {
                self.head = next;
            },
        }
        match next {
            Some(next_slot) => {
                self.nodes[next_slot].prev = prev;
            },
            None => {
                self.tail = prev;
            },
        }
        self.len = self.len - 1;
        proof {
            self.order = Ghost(before.order@.remove(pos));
            assert forall|i: int|
                #![trigger before.order@[i]]
                0 <= i < before.order@.len() implies {
                &&& i != pos - 1 ==> self.nodes@[before.order@[i] as int].next
                    == before.nodes@[before.order@[i] as int].next
                &&& i != pos + 1 ==> self.nodes@[before.order@[i] as int].prev
                    == before.nodes@[before.order@[i] as int].prev
            } by {
                assert(before.linked_at(i));
            }
            assert forall|j: int|
                #![trigger before.spare@[j]]
                0 <= j < before.spare@.len() implies self.nodes@[before.spare@[j] as int].next
                == before.nodes@[before.spare@[j] as int].next by {
                assert(before.spare_at(j));
            }
            Self::lemma_passed_over(before, *self, pos, slot);
        }
    }

    /// Empties `slot`, which belongs to neither list, and puts it at the front
    /// of the free list.
    fn release(&mut self, slot: usize) -> (data: Option<T>)
        requires
            old(self).order_ok(),
            old(self).spare_ok(),
            old(self).order@.len() + old(self).spare@.len() + 1 == old(self).nodes@.len(),
            slot < old(self).nodes@.len(),
            old(self).nodes@[slot as int].data is Some,
            forall|i: int|
                0 <= i < old(self).order@.len() ==> (#[trigger] old(self).order@[i]) != slot,
        ensures
            final(self).wf(),
            final(self)@ == old(self)@,
            data == old(self).nodes@[slot as int].data,
    {
        let ghost before = *self;
        let data = self.nodes[slot].data.take();
        self.nodes[slot].next = self.free;
        self.nodes[slot].prev = None;
        self.free = Some(slot);
        proof {
            self.spare = Ghost(seq![slot] + before.spare@);
            assert forall|i: int| 0 <= i < self.order@.len() implies #[trigger] self.linked_at(
                i,
            ) by {
                assert(before.linked_at(i));
            }
            assert forall|j: int| 0 <= j < self.spare@.len() implies #[trigger] self.spare_at(
                j,
            ) by {
                if j > 0 {
                    assert(before.spare_at(j - 1));
                }
            }
            assert forall|i: int, j: int| 0 <= i < j < self.spare@.len() implies self.spare@[i]
                != self.spare@[j] by {
                assert(before.spare_at(j - 1));
            }
            assert forall|i: int| 0 <= i < self@.len() implies self@[i] == before@[i] by {
                assert(before.linked_at(i));
            }
            assert(self@ =~= before@);
        }
        data
    }

    /// Removes the first element.
    pub(crate) fn pop_front(&mut self) -> (data: Option<T>)
        requires
            old(self).wf(),
        ensures
            final(self).wf(),
            old(self)@.len() == 0 ==> data is None && final(self)@ == old(self)@,
            old(self)@.len() > 0 ==> data == Some(old(self)@.first()) && final(self)@ == old(
                self)@.drop_first(),
    {
        let head = self.head?;
        self.detach(head, Ghost(0));
        assert(old(self)@.remove(0) =~= old(self)@.drop_first());
        self.release(head)
    }

    /// Removes the last element.
    pub(crate) fn pop_tail(&mut self) -> (data: Option<T>)
        requires
            old(self).wf(),
        ensures
            final(self).wf(),
            old(self)@.len() == 0 ==> data is None && final(self)@ == old(self)@,
            old(self)@.len() > 0 ==> data == Some(old(self)@.last()) && final(self)@ == old(
                self)@.drop_last(),
    {
        let tail = self.tail?;
        self.detach(tail, Ghost(self.order@.len() - 1));
        assert(old(self)@.remove(old(self)@.len() - 1) =~= old(self)@.drop_last());
        self.release(tail)
    }

    /// Removes the element at position `index`, or the last one when `index`
    /// lies past it.
    pub(crate) fn remove(&mut self, index: usize) -> (data: Result<T, ListError>)
        requires
            old(self).wf(),
        ensures
            final(self).wf(),
            final(self)@ == removed(old(self)@, index),
            old(self)@.len() == 0 ==> data == Err::<T, ListError>(ListError::EmptyContainer),
            old(self)@.len() > 0 ==> data == Ok::<T, ListError>(item_at(old(self)@, index)),
    {
        if self.len == 0 {
            return Err(ListError::EmptyContainer);
        }
        let taken = if index == 0 {
            assert(old(self)@.remove(0) =~= old(self)@.drop_first());
            self.pop_front()
        } else if index >= self.len - 1 {
            assert(old(self)@.remove(old(self)@.len() - 1) =~= old(self)@.drop_last());
            self.pop_tail()
        } else {
            let slot = self.walk(self.head.unwrap(), index);
            self.detach(slot, Ghost(index as int));
            self.release(slot)
        };
        match taken {
            Some(data) => Ok(data),
            None => Err(ListError::EmptyContainer),
        }
    }

    /// Reads the element at position `index`, or the last one when `index`
    /// lies past it.
    pub(crate) fn get(&self, index: usize) -> (item: Result<&T, ListError>)
        requires
            self.wf(),
        ensures
            self@.len() == 0 ==> item == Err::<&T, ListError>(ListError::EmptyContainer),
            self@.len() > 0 ==> item == Ok::<&T, ListError>(&item_at(self@, index)),
    {
        let slot = match (self.head, self.tail) {
            (Some(head), Some(tail)) => {
                if index == 0 {
                    head
                } else if index >= self.len {
                    tail
                } else {
                    self.walk(head, index)
                }
            },
            _ => {
                return Err(ListError::EmptyContainer);
            },
        };
        proof {
            assert(self.linked_at(access_position(self@.len(), index)));
        }
        Ok(self.nodes[slot].data.as_ref().unwrap())
    }

    /// A chain stays well formed when the element in `slot`, at position
    /// `pos`, is replaced in place, and its view changes at that position
    /// only.
    proof fn lemma_replace_item(before: Self, after: Self, pos: int, slot: usize)
        requires
            before.wf(),
            0 <= pos < before.order@.len(),
            slot == before.order@[pos],
            after.head == before.head,
            after.tail == before.tail,
            after.free == before.free,
            after.len == before.len,
            after.order@ == before.order@,
            after.spare@ == before.spare@,
            after.nodes@.len() == before.nodes@.len(),
            forall|k: int|
                0 <= k < before.nodes@.len() && k != slot ==> after.nodes@[k] == before.nodes@[k],
            after.nodes@[slot as int].next == before.nodes@[slot as int].next,
            after.nodes@[slot as int].prev == before.nodes@[slot as int].prev,
            after.nodes@[slot as int].data is Some,
        ensures
            after.wf(),
            after@ == before@.update(pos, after.nodes@[slot as int].data->0),
    {
        assert(before.linked_at(pos));
        assert forall|i: int| 0 <= i < after.order@.len() implies #[trigger] after.linked_at(
            i,
        ) by {
            assert(before.linked_at(i));
        }
        assert forall|j: int| 0 <= j < after.spare@.len() implies #[trigger] after.spare_at(
            j,
        ) by {
            assert(before.spare_at(j));
        }
        assert forall|i: int| 0 <= i < after@.len() implies after@[i] == before@.update(
            pos,
            after.nodes@[slot as int].data->0,
        )[i] by {
            assert(before.linked_at(i));
        }
        assert(after@ =~= before@.update(pos, after.nodes@[slot as int].data->0));
    }

    /// Borrows the element at position `index`, or the last one when `index`
    /// lies past it, for writing.
    pub(crate) fn get_mut(&mut self, index: usize) -> (item: Result<&mut T, ListError>)
        requires
            old(self).wf(),
        ensures
            final(self).wf(),
            old(self)@.len() == 0 ==> item is Err && item->Err_0 == ListError::EmptyContainer
                && final(self)@ == old(self)@,
            old(self)@.len() > 0 ==> item is Ok && *item->Ok_0 == item_at(old(self)@, index)
                && final(self)@ == old(self)@.update(
                access_position(old(self)@.len(), index),
                *final(item->Ok_0),
            ),
        no_unwind
    {
        let ghost before = *self;
        let slot = match (self.head, self.tail) {
            (Some(head), Some(tail)) => {
                if index == 0 {
                    head
                } else if index >= self.len {
                    tail
                } else {
                    self.walk(head, index)
                }
            },
            _ => {
                return Err(ListError::EmptyContainer);
            },
        };
        let ghost pos = access_position(before@.len(), index);
        let ghost after = *final(self);
        proof {
            assert(before.linked_at(pos));
        }
        match &mut self.nodes[slot].data {
            Some(item) => {
                proof {
                    Self::lemma_replace_item(before, after, pos, slot);
                }
                Ok(item)
            },
            // A linked slot always holds an element.
            None => Err(ListError::EmptyContainer),
        }
    }

    /// The slot of the first element, where a traversal starts.
    pub(crate) fn first(&self) -> (slot: Option<usize>)
        requires
            self.wf(),
        ensures
            slot == self.slot_at(0),
    {
        self.head
    }

    /// The element in `slot`, which holds position `pos`, and the slot of the
    /// element after it.
    pub(crate) fn visit(&self, slot: usize, Ghost(pos): Ghost<int>) -> (step: (&T, Option<usize>))
        requires
            self.wf(),
            self.slot_at(pos) == Some(slot),
        ensures
            0 <= pos < self@.len(),
            *step.0 == self@[pos],
            step.1 == self.slot_at(pos + 1),
    {
        proof {
            assert(self.linked_at(pos));
        }
        (self.nodes[slot].data.as_ref().unwrap(), self.nodes[slot].next)
    }

    /// A slot is named for the positions inside the chain and for no other.
    pub(crate) proof fn lemma_slot_at(&self, pos: int)
        ensures
            self.slot_at(pos) is Some <==> 0 <= pos < self@.len(),
    {
    }
}

} // verus!
