use mos::data_type::bitmap::BitMap;
use mos::data_type::buffer::Buffer;
use mos::data_type::queue::Queue;

#[test]
fn bitmap_set_test_reset() {
    let mut b: BitMap<40, 2> = BitMap::new();
    assert!(!b.test(5));
    b.set(5);
    assert!(b.test(5));
    assert!(!b.test(4));
    b.reset(5);
    assert!(!b.test(5));
    b.set(40);
    assert!(!b.test(40));
    assert_eq!(b.count_ones(), 0);
}

#[test]
fn bitmap_first_zero_and_one() {
    let mut b: BitMap<40, 2> = BitMap::new();
    assert_eq!(b.first_one(), None);
    assert_eq!(b.first_zero(), Some(0));
    for p in 0..33 {
        b.set(p);
    }
    assert_eq!(b.first_zero(), Some(33));
    assert_eq!(b.first_one(), Some(0));
    assert_eq!(b.count_ones(), 33);
    assert_eq!(b.count_zeros(), 7);
    for p in 33..40 {
        b.set(p);
    }
    assert_eq!(b.first_zero(), None);
    b.reset(0);
    assert_eq!(b.first_one(), Some(1));
}

#[test]
fn queue_is_fifo() {
    let mut q: Queue<u32, 3> = Queue::new();
    assert!(q.empty());
    assert!(q.push(1));
    assert!(q.push(2));
    assert!(q.push(3));
    assert!(!q.push(4));
    assert!(q.full());
    assert_eq!(q.front(), Some(&1));
    assert_eq!(q.back(), Some(&3));
    assert_eq!(q.serve(), Some(1));
    assert!(q.push(4));
    assert_eq!(q.back(), Some(&4));
    assert_eq!(q.serve(), Some(2));
    assert_eq!(q.serve(), Some(3));
    assert_eq!(q.serve(), Some(4));
    assert_eq!(q.serve(), None);
    assert!(!q.pop());
}

#[test]
fn buffer_push_pop() {
    let mut b: Buffer<u8, 2> = Buffer::new();
    assert_eq!(Buffer::<u8, 2>::max_size(), 2);
    b.push(7);
    b.push(8);
    b.push(9);
    assert!(b.full());
    assert_eq!(b.as_slice(), &[7, 8]);
    assert_eq!(b.back(), Some(&8));
    b.pop();
    assert_eq!(b.len(), 1);
    b.clear();
    assert!(b.empty());
    assert_eq!(b.iter().count(), 0);
}

#[test]
fn queue_get_by_position() {
    let mut q: mos::data_type::queue::Queue<u32, 3> = mos::data_type::queue::Queue::new();
    q.push(1);
    q.push(2);
    q.push(3);
    q.pop();
    q.push(4);
    assert_eq!((*q.get(0), *q.get(1), *q.get(2)), (2, 3, 4));
    let mut seen = Vec::new();
    q.iter(|v| seen.push(*v));
    assert_eq!(seen, vec![2, 3, 4]);
}
