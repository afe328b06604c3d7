use modal_editor::error::ListError;
use modal_editor::list::LinkedList;
use modal_editor::seq_model::ListOp;

fn contents<T: Clone>(list: &LinkedList<T>) -> Vec<T> {
    let mut out = Vec::new();
    let mut iter = list.iter();
    while let Some(item) = iter.next() {
        out.push(item.clone());
    }
    out
}

fn list_of(items: &[i32]) -> LinkedList<i32> {
    let mut list = LinkedList::new();
    for item in items {
        list.push_back(*item);
    }
    list
}

#[test]
fn new_list_is_empty() {
    let list: LinkedList<i32> = LinkedList::new();
    assert_eq!(list.len(), 0);
    assert_eq!(contents(&list), Vec::<i32>::new());
}

#[test]
fn default_list_is_empty() {
    let list: LinkedList<char> = Default::default();
    assert_eq!(list.len(), 0);
}

#[test]
fn push_back_appends_in_order() {
    let mut list = LinkedList::new();
    list.push_back(1);
    list.push_back(2);
    list.push_back(3);
    assert_eq!(list.len(), 3);
    assert_eq!(contents(&list), vec![1, 2, 3]);
}

#[test]
fn push_front_prepends() {
    let mut list = LinkedList::new();
    list.push_front(1);
    list.push_front(2);
    list.push_front(3);
    assert_eq!(list.len(), 3);
    assert_eq!(contents(&list), vec![3, 2, 1]);
}

#[test]
fn insert_at_zero_is_push_front() {
    let mut list = list_of(&[1, 2]);
    list.insert(0, 9);
    assert_eq!(contents(&list), vec![9, 1, 2]);
}

#[test]
fn insert_in_the_middle_shifts_the_rest() {
    let mut list = list_of(&[1, 2, 3, 4]);
    list.insert(2, 9);
    assert_eq!(contents(&list), vec![1, 2, 9, 3, 4]);
    assert_eq!(list.len(), 5);
    list.insert(1, 8);
    assert_eq!(contents(&list), vec![1, 8, 2, 9, 3, 4]);
}

#[test]
fn insert_at_length_appends() {
    let mut list = list_of(&[1, 2]);
    list.insert(2, 9);
    assert_eq!(contents(&list), vec![1, 2, 9]);
}

#[test]
fn insert_past_the_end_appends() {
    let mut list = list_of(&[1, 2]);
    list.insert(usize::MAX, 9);
    assert_eq!(contents(&list), vec![1, 2, 9]);
    let mut empty = LinkedList::new();
    empty.insert(5, 7);
    assert_eq!(contents(&empty), vec![7]);
}

#[test]
fn remove_at_zero_removes_the_head() {
    let mut list = list_of(&[1, 2, 3]);
    assert_eq!(list.remove(0), Ok(1));
    assert_eq!(contents(&list), vec![2, 3]);
    assert_eq!(list.get(0), Ok(&2));
}

#[test]
fn remove_in_the_middle_joins_the_neighbours() {
    let mut list = list_of(&[1, 2, 3, 4]);
    assert_eq!(list.remove(2), Ok(3));
    assert_eq!(contents(&list), vec![1, 2, 4]);
    assert_eq!(list.len(), 3);
    assert_eq!(list.remove(1), Ok(2));
    assert_eq!(contents(&list), vec![1, 4]);
}

#[test]
fn remove_at_the_last_position_removes_the_tail() {
    let mut list = list_of(&[1, 2, 3]);
    assert_eq!(list.remove(2), Ok(3));
    assert_eq!(contents(&list), vec![1, 2]);
    list.push_back(5);
    assert_eq!(contents(&list), vec![1, 2, 5]);
}

#[test]
fn remove_past_the_end_removes_the_tail() {
    let mut list = list_of(&[1, 2, 3]);
    assert_eq!(list.remove(17), Ok(3));
    assert_eq!(contents(&list), vec![1, 2]);
    assert_eq!(list.get(usize::MAX), Ok(&2));
}

#[test]
fn remove_from_an_empty_list_fails() {
    let mut list: LinkedList<i32> = LinkedList::new();
    assert_eq!(list.remove(0), Err(ListError::EmptyContainer));
    assert_eq!(list.remove(3), Err(ListError::EmptyContainer));
    assert_eq!(list.len(), 0);
}

#[test]
fn remove_the_only_element_leaves_a_usable_list() {
    let mut list = list_of(&[4]);
    assert_eq!(list.remove(0), Ok(4));
    assert_eq!(list.len(), 0);
    assert_eq!(list.get(0), Err(ListError::EmptyContainer));
    list.push_back(6);
    list.push_front(5);
    assert_eq!(contents(&list), vec![5, 6]);
}

#[test]
fn pop_front_takes_the_head() {
    let mut list = list_of(&[1, 2, 3]);
    assert_eq!(list.pop_front(), Some(1));
    assert_eq!(contents(&list), vec![2, 3]);
    assert_eq!(list.pop_front(), Some(2));
    assert_eq!(list.pop_front(), Some(3));
    assert_eq!(list.pop_front(), None);
    assert_eq!(list.len(), 0);
}

#[test]
fn pop_tail_takes_the_tail() {
    let mut list = list_of(&[1, 2, 3]);
    assert_eq!(list.pop_tail(), Some(3));
    assert_eq!(contents(&list), vec![1, 2]);
    list.push_back(9);
    assert_eq!(contents(&list), vec![1, 2, 9]);
    assert_eq!(list.pop_tail(), Some(9));
    assert_eq!(list.pop_tail(), Some(2));
    assert_eq!(list.pop_tail(), Some(1));
    assert_eq!(list.pop_tail(), None);
    list.push_front(7);
    assert_eq!(contents(&list), vec![7]);
}

#[test]
fn get_clamps_to_the_ends() {
    let list = list_of(&[10, 20, 30]);
    assert_eq!(list.get(0), Ok(&10));
    assert_eq!(list.get(1), Ok(&20));
    assert_eq!(list.get(2), Ok(&30));
    assert_eq!(list.get(3), Ok(&30));
    assert_eq!(list.get(usize::MAX), Ok(&30));
}

#[test]
fn get_on_an_empty_list_fails() {
    let list: LinkedList<i32> = LinkedList::new();
    assert_eq!(list.get(0), Err(ListError::EmptyContainer));
    assert_eq!(list.get(5), Err(ListError::EmptyContainer));
}

#[test]
fn get_strict_refuses_a_position_past_the_end() {
    let list = list_of(&[10, 20, 30]);
    assert_eq!(list.get_strict(0), Ok(&10));
    assert_eq!(list.get_strict(2), Ok(&30));
    assert_eq!(list.get_strict(3), Err(ListError::IndexOutOfRange));
    assert_eq!(list.get_strict(usize::MAX), Err(ListError::IndexOutOfRange));
    let empty: LinkedList<i32> = LinkedList::new();
    assert_eq!(empty.get_strict(0), Err(ListError::EmptyContainer));
    assert_eq!(empty.get_strict(9), Err(ListError::EmptyContainer));
}

#[test]
fn get_mut_writes_in_place() {
    let mut list = list_of(&[10, 20, 30]);
    *list.get_mut(1).unwrap() = 21;
    assert_eq!(contents(&list), vec![10, 21, 30]);
    *list.get_mut(0).unwrap() += 1;
    *list.get_mut(99).unwrap() = 33;
    assert_eq!(contents(&list), vec![11, 21, 33]);
    assert_eq!(list.len(), 3);
}

#[test]
fn get_mut_on_an_empty_list_fails() {
    let mut list: LinkedList<i32> = LinkedList::new();
    assert_eq!(list.get_mut(0), Err(ListError::EmptyContainer));
    assert_eq!(list.get_mut(2), Err(ListError::EmptyContainer));
}

#[test]
fn iter_walks_from_head_to_tail_and_restarts() {
    let list = list_of(&[1, 2, 3]);
    let mut first = list.iter();
    assert_eq!(first.next(), Some(&1));
    assert_eq!(first.next(), Some(&2));
    let mut second = list.iter();
    assert_eq!(second.next(), Some(&1));
    assert_eq!(first.next(), Some(&3));
    assert_eq!(first.next(), None);
    assert_eq!(first.next(), None);
    assert_eq!(second.next(), Some(&2));
}

#[test]
fn iter_over_an_empty_list_ends_at_once() {
    let list: LinkedList<i32> = LinkedList::new();
    let mut iter = list.iter();
    assert_eq!(iter.next(), None);
}

#[test]
fn insert_then_remove_restores_the_list() {
    for index in [0usize, 1, 2, 3, 4, 5, 100, usize::MAX] {
        let mut list = list_of(&[1, 2, 3, 4]);
        list.insert(index, 9);
        assert_eq!(list.len(), 5);
        assert_eq!(list.remove(index), Ok(9));
        assert_eq!(contents(&list), vec![1, 2, 3, 4]);
        assert_eq!(list.len(), 4);
    }
    let mut empty: LinkedList<i32> = LinkedList::new();
    empty.insert(3, 9);
    assert_eq!(empty.remove(3), Ok(9));
    assert_eq!(empty.len(), 0);
}

#[test]
fn get_after_insert_returns_the_inserted_element() {
    for index in 0..=4usize {
        let mut list = list_of(&[1, 2, 3, 4]);
        list.insert(index, 9);
        assert_eq!(list.get(index), Ok(&9));
    }
    let mut list = list_of(&[1, 2, 3, 4]);
    list.insert(50, 9);
    assert_eq!(list.get(50), Ok(&9));
}

#[test]
fn removed_slots_are_used_again() {
    let mut list = list_of(&[1, 2, 3]);
    for round in 0..100 {
        assert_eq!(list.remove(1), Ok(if round == 0 { 2 } else { 100 + round - 1 }));
        list.insert(1, 100 + round);
        assert_eq!(list.len(), 3);
    }
    assert_eq!(contents(&list), vec![1, 199, 3]);
}

/// A small generator of numbers, so that a long run of operations is the
/// same in every run of the test.
fn next_number(state: &mut u64) -> u64 {
    *state = state.wrapping_mul(6364136223846793005).wrapping_add(1442695040888963407);
    *state >> 33
}

#[test]
fn a_long_run_of_operations_matches_a_vector() {
    let mut state = 7u64;
    let mut list: LinkedList<u64> = LinkedList::new();
    let mut model: Vec<u64> = Vec::new();
    let mut additions = 0usize;
    let mut removals = 0usize;
    for _ in 0..2000 {
        let value = next_number(&mut state);
        let index = (next_number(&mut state) % 12) as usize;
        match next_number(&mut state) % 9 {
            0 => {
                list.push_front(value);
                model.insert(0, value);
                additions += 1;
            }
            6 => {
                let got = list.pop_front();
                if model.is_empty() {
                    assert_eq!(got, None);
                } else {
                    assert_eq!(got, Some(model.remove(0)));
                    removals += 1;
                }
            }
            7 => {
                let got = list.pop_tail();
                assert_eq!(got, model.pop());
                if got.is_some() {
                    removals += 1;
                }
            }
            8 => match list.get_mut(index) {
                Ok(item) => {
                    let at = index.min(model.len() - 1);
                    assert_eq!(*item, model[at]);
                    *item = value;
                    model[at] = value;
                }
                Err(error) => {
                    assert_eq!(error, ListError::EmptyContainer);
                    assert!(model.is_empty());
                }
            },
            1 => {
                list.push_back(value);
                model.push(value);
                additions += 1;
            }
            2 | 3 => {
                list.insert(index, value);
                let at = index.min(model.len());
                model.insert(at, value);
                additions += 1;
            }
            _ => {
                let got = list.remove(index);
                if model.is_empty() {
                    assert_eq!(got, Err(ListError::EmptyContainer));
                } else {
                    let at = index.min(model.len() - 1);
                    assert_eq!(got, Ok(model.remove(at)));
                    removals += 1;
                }
            }
        }
        assert_eq!(list.len(), model.len());
        assert_eq!(list.len(), additions - removals);
        assert_eq!(contents(&list), model);
        if !model.is_empty() {
            assert_eq!(list.get(index), Ok(&model[index.min(model.len() - 1)]));
        }
    }
}

#[test]
fn a_list_of_lists_can_be_edited_through_get_mut() {
    let mut outer: LinkedList<LinkedList<i32>> = LinkedList::new();
    outer.push_back(list_of(&[1, 2]));
    outer.push_back(list_of(&[3]));
    outer.get_mut(0).unwrap().insert(1, 9);
    outer.get_mut(1).unwrap().push_front(8);
    assert_eq!(contents(outer.get(0).unwrap()), vec![1, 9, 2]);
    assert_eq!(contents(outer.get(1).unwrap()), vec![8, 3]);
    assert_eq!(outer.len(), 2);
}

#[test]
fn apply_carries_out_one_operation() {
    let mut list = list_of(&[1, 2, 3]);
    assert_eq!(list.apply(ListOp::PushFront(0)), None);
    assert_eq!(list.apply(ListOp::PushBack(4)), None);
    assert_eq!(list.apply(ListOp::Insert(2, 9)), None);
    assert_eq!(contents(&list), vec![0, 1, 9, 2, 3, 4]);
    assert_eq!(list.apply(ListOp::Remove(2)), Some(9));
    assert_eq!(list.apply(ListOp::Remove(50)), Some(4));
    assert_eq!(contents(&list), vec![0, 1, 2, 3]);
    let mut empty: LinkedList<i32> = LinkedList::new();
    assert_eq!(empty.apply(ListOp::Remove(0)), None);
    assert_eq!(empty.len(), 0);
}

#[test]
fn replay_carries_out_the_operations_in_order() {
    let mut list = list_of(&[1, 2]);
    list.replay(vec![
        ListOp::Remove(7),
        ListOp::Remove(0),
        ListOp::Remove(0),
        ListOp::PushBack(5),
        ListOp::PushFront(4),
        ListOp::Insert(1, 6),
        ListOp::Insert(9, 7),
        ListOp::Remove(1),
    ]);
    assert_eq!(contents(&list), vec![4, 5, 7]);
    assert_eq!(list.len(), 2 + 4 - 3);
    list.replay(Vec::new());
    assert_eq!(contents(&list), vec![4, 5, 7]);
}

#[test]
fn a_replayed_run_matches_a_vector() {
    let mut state = 11u64;
    let mut ops: Vec<ListOp<u64>> = Vec::new();
    let mut model: Vec<u64> = vec![1, 2, 3];
    let mut additions = 0usize;
    let mut removals = 0usize;
    for _ in 0..500 {
        let value = next_number(&mut state);
        let index = (next_number(&mut state) % 9) as usize;
        match next_number(&mut state) % 5 {
            0 => {
                ops.push(ListOp::PushFront(value));
                model.insert(0, value);
                additions += 1;
            }
            1 => {
                ops.push(ListOp::PushBack(value));
                model.push(value);
                additions += 1;
            }
            2 => {
                ops.push(ListOp::Insert(index, value));
                model.insert(index.min(model.len()), value);
                additions += 1;
            }
            _ => {
                ops.push(ListOp::Remove(index));
                if !model.is_empty() {
                    model.remove(index.min(model.len() - 1));
                    removals += 1;
                }
            }
        }
    }
    let mut list: LinkedList<u64> = LinkedList::new();
    list.push_back(1);
    list.push_back(2);
    list.push_back(3);
    list.replay(ops);
    assert_eq!(contents(&list), model);
    assert_eq!(list.len(), 3 + additions - removals);
}
