use heap_ds::heap::{Heap, HeapType};

fn drain(heap: &mut Heap<i32>) -> Vec<i32> {
    let mut out = Vec::new();
    while !heap.is_empty() {
        out.push(heap.remove());
    }
    out
}

fn min_heap_of(items: &[i32]) -> Heap<i32> {
    let mut heap: Heap<i32> = Heap::new(HeapType::Min);
    for item in items {
        heap.insert(*item);
    }
    heap
}

fn max_heap_of(items: &[i32]) -> Heap<i32> {
    let mut heap: Heap<i32> = Heap::new(HeapType::Max);
    for item in items {
        heap.insert(*item);
    }
    heap
}

#[test]
fn mod_test_min_heap() {
    let data = vec![1, -2, 2, 3, -1, 0];
    let mut min_heap: Heap<i32> = Heap::new(HeapType::Min);

    for item in data {
        min_heap.insert(item);
    }

    assert_eq!(min_heap.size(), 6);
    assert_eq!(*min_heap.peek().unwrap(), -2);
    assert_eq!(min_heap.remove(), -2);
    assert_eq!(*min_heap.peek().unwrap(), -1);
}

#[test]
fn min_heap_larger_input() {
    let data = [
        15, 7, 23, 4, 42, 8, 16, 99, 3, 11, 50, 6, 31, 9, 27, 5, 64, 12, 77, 38, 21, 14, 86, 19,
        45, 10, 33, 58, 17, 70, -1, 2,
    ];
    let mut min_heap = min_heap_of(&data);

    assert_eq!(min_heap.size(), 32);
    assert_eq!(*min_heap.peek().unwrap(), -1);
    assert_eq!(min_heap.remove(), -1);
    assert_eq!(*min_heap.peek().unwrap(), 2);
    assert_eq!(min_heap.size(), 31);
}

#[test]
fn max_heap_scenario() {
    let mut max_heap = max_heap_of(&[1, -2, 2, 3, -1, 0]);

    assert_eq!(max_heap.size(), 6);
    assert_eq!(*max_heap.peek().unwrap(), 3);
    assert_eq!(max_heap.remove(), 3);
    assert_eq!(*max_heap.peek().unwrap(), 2);
    assert_eq!(max_heap.remove(), 2);
    assert_eq!(*max_heap.peek().unwrap(), 1);
}

#[test]
fn new_heap_is_empty() {
    let min_heap: Heap<i32> = Heap::new(HeapType::Min);
    assert_eq!(min_heap.size(), 0);
    assert!(min_heap.is_empty());
    assert!(min_heap.peek().is_none());

    let max_heap: Heap<u8> = Heap::new(HeapType::Max);
    assert_eq!(max_heap.size(), 0);
    assert!(max_heap.is_empty());
    assert!(max_heap.peek().is_none());
}

#[test]
fn single_element_round_trip() {
    let mut heap: Heap<i32> = Heap::new(HeapType::Min);
    heap.insert(7);
    assert!(!heap.is_empty());
    assert_eq!(heap.size(), 1);
    assert_eq!(heap.peek(), Some(&7));
    assert_eq!(heap.remove(), 7);
    assert!(heap.is_empty());
    assert_eq!(heap.size(), 0);
    assert_eq!(heap.peek(), None);

    heap.insert(-3);
    assert_eq!(heap.peek(), Some(&-3));
    assert_eq!(heap.size(), 1);
}

#[test]
fn peek_does_not_remove() {
    let heap = min_heap_of(&[4, 1, 3]);
    assert_eq!(heap.peek(), Some(&1));
    assert_eq!(heap.peek(), Some(&1));
    assert_eq!(heap.size(), 3);
}

#[test]
fn peek_equals_the_next_removal() {
    let mut heap = min_heap_of(&[9, 4, 7, 1, 8, 2, 2, 6]);
    while !heap.is_empty() {
        let seen = *heap.peek().unwrap();
        assert_eq!(heap.remove(), seen);
    }

    let mut heap = max_heap_of(&[9, 4, 7, 1, 8, 2, 2, 6]);
    while !heap.is_empty() {
        let seen = *heap.peek().unwrap();
        assert_eq!(heap.remove(), seen);
    }
}

#[test]
fn insert_returns_the_heap_for_chaining() {
    let mut heap: Heap<i32> = Heap::new(HeapType::Min);
    heap.insert(5).insert(-4).insert(9).insert(0);
    assert_eq!(heap.size(), 4);
    assert_eq!(heap.peek(), Some(&-4));

    let size_through_handle = heap.insert(-10).size();
    assert_eq!(size_through_handle, 5);
    assert_eq!(heap.remove(), -10);
}

#[test]
fn size_counts_insertions_and_removals() {
    let mut heap: Heap<i32> = Heap::new(HeapType::Max);
    for k in 1..=10usize {
        heap.insert(k as i32 * 3 % 7);
        assert_eq!(heap.size(), k);
        assert!(!heap.is_empty());
    }
    for m in 1..=4usize {
        heap.remove();
        assert_eq!(heap.size(), 10 - m);
    }
    heap.insert(100);
    heap.insert(-100);
    assert_eq!(heap.size(), 8);
    for m in 1..=8usize {
        assert!(!heap.is_empty());
        heap.remove();
        assert_eq!(heap.size(), 8 - m);
    }
    assert!(heap.is_empty());
}

#[test]
fn min_heap_extracts_in_non_decreasing_order() {
    let mut heap = min_heap_of(&[5, 3, 8, 1, 9, 2, 7, 4, 6, 0]);
    assert_eq!(drain(&mut heap), vec![0, 1, 2, 3, 4, 5, 6, 7, 8, 9]);
}

#[test]
fn max_heap_extracts_in_non_increasing_order() {
    let mut heap = max_heap_of(&[5, 3, 8, 1, 9, 2, 7, 4, 6, 0]);
    assert_eq!(drain(&mut heap), vec![9, 8, 7, 6, 5, 4, 3, 2, 1, 0]);
}

#[test]
fn extraction_order_does_not_depend_on_insertion_order() {
    let expected = vec![-7, -1, 0, 2, 2, 3, 5, 11, 13];
    let permutations: [[i32; 9]; 5] = [
        [-7, -1, 0, 2, 2, 3, 5, 11, 13],
        [13, 11, 5, 3, 2, 2, 0, -1, -7],
        [2, 13, -7, 5, 0, 2, 11, -1, 3],
        [0, 2, -1, 2, -7, 3, 13, 5, 11],
        [11, -7, 13, -1, 5, 0, 3, 2, 2],
    ];
    for items in permutations.iter() {
        let mut heap = min_heap_of(items);
        assert_eq!(drain(&mut heap), expected);

        let mut heap = max_heap_of(items);
        let mut descending = expected.clone();
        descending.reverse();
        assert_eq!(drain(&mut heap), descending);
    }
}

#[test]
fn duplicates_are_all_extracted() {
    let mut heap = min_heap_of(&[3, 1, 3, 1, 2, 3, 1, 2, 2, 3]);
    assert_eq!(heap.size(), 10);
    assert_eq!(drain(&mut heap), vec![1, 1, 1, 2, 2, 2, 3, 3, 3, 3]);

    let mut heap = max_heap_of(&[3, 1, 3, 1, 2, 3, 1, 2, 2, 3]);
    assert_eq!(drain(&mut heap), vec![3, 3, 3, 3, 2, 2, 2, 1, 1, 1]);

    let mut heap = min_heap_of(&[4, 4, 4, 4]);
    assert_eq!(heap.peek(), Some(&4));
    assert_eq!(drain(&mut heap), vec![4, 4, 4, 4]);
}

#[test]
fn both_children_dominate_the_new_root() {
    // After the first removal the last element, 9, stands at the root above
    // 3 and 2: the smaller child has to come up, whichever side it is on.
    let mut heap = min_heap_of(&[1, 3, 2, 4, 5, 6, 9]);
    assert_eq!(heap.remove(), 1);
    assert_eq!(heap.peek(), Some(&2));
    assert_eq!(drain(&mut heap), vec![2, 3, 4, 5, 6, 9]);

    let mut heap = min_heap_of(&[1, 2, 3, 5, 6, 4, 9]);
    assert_eq!(heap.remove(), 1);
    assert_eq!(heap.peek(), Some(&2));
    assert_eq!(drain(&mut heap), vec![2, 3, 4, 5, 6, 9]);
}

#[test]
fn sift_up_passes_several_levels() {
    let mut heap = min_heap_of(&[10, 20, 30, 40, 50, 60, 70, 80, 90]);
    assert_eq!(heap.peek(), Some(&10));
    heap.insert(5);
    assert_eq!(heap.peek(), Some(&5));
    heap.insert(15);
    assert_eq!(heap.peek(), Some(&5));
    assert_eq!(drain(&mut heap), vec![5, 10, 15, 20, 30, 40, 50, 60, 70, 80, 90]);
}

#[test]
fn interleaved_insertions_and_removals() {
    let mut heap: Heap<i32> = Heap::new(HeapType::Min);
    heap.insert(8);
    heap.insert(3);
    assert_eq!(heap.remove(), 3);
    heap.insert(5);
    heap.insert(1);
    heap.insert(9);
    assert_eq!(heap.remove(), 1);
    assert_eq!(heap.remove(), 5);
    heap.insert(2);
    assert_eq!(heap.peek(), Some(&2));
    assert_eq!(drain(&mut heap), vec![2, 8, 9]);
    heap.insert(4);
    assert_eq!(heap.remove(), 4);
    assert!(heap.is_empty());
}

#[test]
fn extreme_values_of_the_element_type() {
    let mut heap = min_heap_of(&[0, i32::MAX, i32::MIN, -1, 1]);
    assert_eq!(drain(&mut heap), vec![i32::MIN, -1, 0, 1, i32::MAX]);

    let mut heap = max_heap_of(&[0, i32::MAX, i32::MIN, -1, 1]);
    assert_eq!(drain(&mut heap), vec![i32::MAX, 1, 0, -1, i32::MIN]);
}

#[test]
fn other_element_types() {
    let mut words: Heap<char> = Heap::new(HeapType::Min);
    for c in ['q', 'b', 'x', 'a', 'm'] {
        words.insert(c);
    }
    assert_eq!(words.remove(), 'a');
    assert_eq!(words.remove(), 'b');
    assert_eq!(words.peek(), Some(&'m'));

    let mut pairs: Heap<(u8, u8)> = Heap::new(HeapType::Max);
    pairs.insert((1, 9)).insert((2, 0)).insert((1, 10)).insert((0, 255));
    assert_eq!(pairs.remove(), (2, 0));
    assert_eq!(pairs.remove(), (1, 10));
    assert_eq!(pairs.remove(), (1, 9));
    assert_eq!(pairs.remove(), (0, 255));
    assert!(pairs.is_empty());
}

#[test]
fn larger_input_sorts() {
    let mut items: Vec<i32> = Vec::new();
    let mut x: i64 = 12345;
    for _ in 0..1000 {
        x = (x * 1103515245 + 12345) % 2147483648;
        items.push((x % 2001) as i32 - 1000);
    }
    let mut expected = items.clone();
    expected.sort();

    let mut heap = min_heap_of(&items);
    assert_eq!(heap.size(), 1000);
    assert_eq!(drain(&mut heap), expected);

    expected.reverse();
    let mut heap = max_heap_of(&items);
    assert_eq!(drain(&mut heap), expected);
}
