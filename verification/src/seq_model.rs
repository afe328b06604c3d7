//! The sequence model of the list operations.
//!
//! A list is viewed as a `Seq` of its elements from head to tail. The functions
//! here say what each positional operation does to that sequence; the contracts
//! of the list, the lines and the text are written over them.

use vstd::prelude::*;

verus! {

/// Where an insertion at `index` lands in a sequence of `len` elements:
/// at `index` itself, or at the end when `index` lies past it.
pub open spec fn insert_position(len: nat, index: usize) -> int {
    if index >= len {
        len as int
    } else {
        index as int
    }
}

/// Which element a read or a removal at `index` addresses in a sequence of
/// `len > 0` elements: the one at `index`, or the last one when `index` lies
/// past it.
pub open spec fn access_position(len: nat, index: usize) -> int
    recommends
        len > 0,
{
    if index >= len {
        len - 1
    } else {
        index as int
    }
}

/// The sequence after inserting `value` at `index`.
pub open spec fn inserted<T>(s: Seq<T>, index: usize, value: T) -> Seq<T> {
    s.insert(insert_position(s.len(), index), value)
}

/// The element that a read or a removal at `index` addresses.
pub open spec fn item_at<T>(s: Seq<T>, index: usize) -> T
    recommends
        s.len() > 0,
{
    s[access_position(s.len(), index)]
}

/// The sequence after removing at `index`; an empty sequence stays empty.
pub open spec fn removed<T>(s: Seq<T>, index: usize) -> Seq<T> {
    if s.len() == 0 {
        s
    } else {
        s.remove(access_position(s.len(), index))
    }
}

/// The lines of a text after inserting `chr` at line `row`, column `col`:
/// the addressed line changes as `inserted` says and the others stay. A text
/// without lines stays as it is.
pub open spec fn text_inserted(lines: Seq<Seq<char>>, row: usize, col: usize, chr: char) -> Seq<
    Seq<char>,
> {
    if lines.len() == 0 {
        lines
    } else {
        let at = access_position(lines.len(), row);
        lines.update(at, inserted(lines[at], col, chr))
    }
}

/// The lines of a text after removing the character at line `row`, column
/// `col`: the addressed line changes as `removed` says and the others stay.
/// A text without lines stays as it is.
pub open spec fn text_removed(lines: Seq<Seq<char>>, row: usize, col: usize) -> Seq<Seq<char>> {
    if lines.len() == 0 {
        lines
    } else {
        let at = access_position(lines.len(), row);
        lines.update(at, removed(lines[at], col))
    }
}

/// One operation on a list, written down as a value, so that a run of
/// operations can be kept, replayed and spoken of as a sequence.
#[derive(Debug)]
pub enum ListOp<T> {
    /// Add an element before the first.
    PushFront(T),
    /// Add an element after the last.
    PushBack(T),
    /// Add an element at a position.
    Insert(usize, T),
    /// Remove the element at a position.
    Remove(usize),
}

/// The sequence after one operation: what the method of that name does to
/// the view of a list.
pub open spec fn applied<T>(s: Seq<T>, op: ListOp<T>) -> Seq<T> {
    match op {
        ListOp::PushFront(value) => seq![value] + s,
        ListOp::PushBack(value) => s.push(value),
        ListOp::Insert(index, value) => inserted(s, index, value),
        ListOp::Remove(index) => removed(s, index),
    }
}

/// The sequence after the operations `ops`, carried out in order on `s`.
pub open spec fn replayed<T>(s: Seq<T>, ops: Seq<ListOp<T>>) -> Seq<T>
    decreases ops.len(),
{
    if ops.len() == 0 {
        s
    } else {
        applied(replayed(s, ops.drop_last()), ops.last())
    }
}

/// How many of `ops` add an element.
pub open spec fn additions<T>(ops: Seq<ListOp<T>>) -> nat
    decreases ops.len(),
{
    if ops.len() == 0 {
        0
    } else {
        additions(ops.drop_last()) + (if ops.last() is Remove {
            0nat
        } else {
            1nat
        })
    }
}

/// How many of `ops`, carried out in order on `s`, are removals that find an
/// element to remove.
pub open spec fn removals<T>(s: Seq<T>, ops: Seq<ListOp<T>>) -> nat
    decreases ops.len(),
{
    if ops.len() == 0 {
        0
    } else {
        removals(s, ops.drop_last()) + (if ops.last() is Remove && replayed(
            s,
            ops.drop_last(),
        ).len() > 0 {
            1nat
        } else {
            0nat
        })
    }
}

/// After any run of operations the length is the length at the start, plus
/// the number of additions, minus the number of removals that found an
/// element.
pub proof fn lemma_replayed_len<T>(s: Seq<T>, ops: Seq<ListOp<T>>)
    ensures
        replayed(s, ops).len() == s.len() + additions(ops) - removals(s, ops),
    decreases ops.len(),
{
    if ops.len() > 0 {
        lemma_replayed_len(s, ops.drop_last());
    }
}

/// Inserting at a position and then removing at the same position gives the
/// sequence back, and the removal takes out the element that was inserted.
/// This holds for every position, also for one past the end.
pub proof fn lemma_insert_then_remove<T>(s: Seq<T>, index: usize, value: T)
    ensures
        removed(inserted(s, index, value), index) == s,
        removed(inserted(s, index, value), index).len() == s.len(),
        item_at(inserted(s, index, value), index) == value,
{
    assert(removed(inserted(s, index, value), index) =~= s);
}

/// A read at a position, right after an insertion at the same position,
/// returns the element that was inserted. This holds for every position, also
/// for one past the end.
pub proof fn lemma_read_after_insert<T>(s: Seq<T>, index: usize, value: T)
    ensures
        inserted(s, index, value).len() == s.len() + 1,
        item_at(inserted(s, index, value), index) == value,
{
}

} // verus!
