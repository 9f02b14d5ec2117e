use kumoko::ring_buffer::{RingBuffer, CAPACITY};

#[test]
fn a_new_buffer_is_empty() {
    let b = RingBuffer::new();
    assert_eq!(CAPACITY, u16::MAX as usize);
    assert_eq!(b.free(), u16::MAX as usize);
    assert!(b.unread().is_empty());
}

#[test]
fn written_bytes_are_unread_in_order() {
    let mut b = RingBuffer::new();
    b.write(&[1, 2, 3]);
    b.write(&[4]);
    assert_eq!(b.unread(), vec![1, 2, 3, 4]);
    assert_eq!(b.free(), CAPACITY - 4);
}

#[test]
fn back_rolls_the_cursor_to_the_checkpoint() {
    let mut b = RingBuffer::new();
    b.write(&[1, 2, 3]);
    b.consume(2);
    assert_eq!(b.unread(), vec![3]);
    b.back();
    assert_eq!(b.unread(), vec![1, 2, 3]);
    assert_eq!(b.free(), CAPACITY - 3);
}

#[test]
fn fwd_commits_what_the_cursor_passed() {
    let mut b = RingBuffer::new();
    b.write(&[1, 2, 3]);
    b.consume(2);
    b.fwd();
    b.back();
    assert_eq!(b.unread(), vec![3]);
    assert_eq!(b.free(), CAPACITY - 1);
}

#[test]
fn clear_drops_everything() {
    let mut b = RingBuffer::new();
    b.write(&[9, 9]);
    b.consume(1);
    b.clear();
    assert!(b.unread().is_empty());
    assert_eq!(b.free(), CAPACITY);
}

#[test]
fn the_ring_wraps_around() {
    let mut b = RingBuffer::new();
    let chunk = vec![7u8; 40000];
    b.write(&chunk);
    b.consume(40000);
    b.fwd();
    let second: Vec<u8> = (0..50000u32).map(|i| (i % 251) as u8).collect();
    b.write(&second);
    assert_eq!(b.free(), CAPACITY - 50000);
    assert_eq!(b.unread(), second);
    b.consume(30000);
    b.fwd();
    assert_eq!(b.unread().len(), 20000);
    assert_eq!(b.unread()[0], (30000 % 251) as u8);
}

#[test]
fn the_whole_capacity_can_be_filled() {
    let mut b = RingBuffer::new();
    b.write(&vec![1u8; CAPACITY]);
    assert_eq!(b.free(), 0);
    assert_eq!(b.unread().len(), CAPACITY);
}
