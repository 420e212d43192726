use evtx::reorder::{merge_in_order, ReorderBuffer};

#[test]
fn results_leave_in_the_order_of_their_indices() {
    let mut buffer: ReorderBuffer<&str> = ReorderBuffer::new();
    assert!(!buffer.is_ready());
    assert_eq!(buffer.pop_ready(), None);
    assert_eq!(buffer.push(2, "third"), None);
    assert_eq!(buffer.push(1, "second"), None);
    assert!(!buffer.is_ready());
    assert_eq!(buffer.pop_ready(), None);
    assert_eq!(buffer.push(0, "first"), None);
    assert!(buffer.is_ready());
    assert_eq!(buffer.pop_ready(), Some("first"));
    assert_eq!(buffer.pop_ready(), Some("second"));
    assert_eq!(buffer.pop_ready(), Some("third"));
    assert_eq!(buffer.pop_ready(), None);
}

#[test]
fn a_gap_holds_back_what_lies_behind_it() {
    let mut buffer: ReorderBuffer<u32> = ReorderBuffer::new();
    for index in [5usize, 3, 0, 1, 4] {
        assert_eq!(buffer.push(index, index as u32 * 10), None);
    }
    assert_eq!(buffer.drain(), vec![0, 10]);
    assert_eq!(buffer.drain(), Vec::<u32>::new());
    assert_eq!(buffer.push(2, 20), None);
    assert_eq!(buffer.drain(), vec![20, 30, 40, 50]);
    assert!(!buffer.is_ready());
}

#[test]
fn a_result_that_cannot_be_placed_is_handed_back() {
    let mut buffer: ReorderBuffer<&str> = ReorderBuffer::new();
    assert_eq!(buffer.push(0, "a"), None);
    assert_eq!(buffer.push(0, "again"), Some("again"));
    assert_eq!(buffer.push(usize::MAX, "last"), Some("last"));
    assert_eq!(buffer.pop_ready(), Some("a"));
    assert_eq!(buffer.push(0, "late"), Some("late"));
    assert_eq!(buffer.push(1, "b"), None);
    assert_eq!(buffer.drain(), vec!["b"]);
}

#[test]
fn the_order_of_arrival_does_not_show() {
    let orders: [[usize; 4]; 4] = [[0, 1, 2, 3], [3, 2, 1, 0], [2, 0, 3, 1], [1, 3, 0, 2]];
    for order in orders {
        let mut buffer: ReorderBuffer<String> = ReorderBuffer::new();
        let mut out = Vec::new();
        for index in order {
            assert_eq!(buffer.push(index, format!("chunk {}", index)), None);
            out.extend(buffer.drain());
        }
        assert_eq!(out, vec!["chunk 0", "chunk 1", "chunk 2", "chunk 3"]);
    }
}

#[test]
fn arrivals_are_merged_in_the_order_of_their_indices() {
    let arrivals = vec![(2, vec!['e', 'f']), (0, vec!['a']), (3, vec![]), (1, vec!['b', 'c', 'd'])];
    assert_eq!(merge_in_order(arrivals), Some(vec!['a', 'b', 'c', 'd', 'e', 'f']));
    assert_eq!(merge_in_order(Vec::<(usize, Vec<u8>)>::new()), Some(vec![]));
    assert_eq!(merge_in_order(vec![(0, vec![1u8, 2])]), Some(vec![1, 2]));
}

#[test]
fn arrivals_that_are_not_complete_are_not_merged() {
    // An index twice.
    assert_eq!(merge_in_order(vec![(0, vec![1u8]), (0, vec![2u8])]), None);
    // An index missing.
    assert_eq!(merge_in_order(vec![(0, vec![1u8]), (2, vec![2u8])]), None);
    assert_eq!(merge_in_order(vec![(1, vec![1u8])]), None);
    assert_eq!(merge_in_order(vec![(usize::MAX, vec![1u8])]), None);
}
