use xetop::history::{history_capacity, RingBuffer};

#[test]
fn ring_buffer_starts_empty() {
    let b = RingBuffer::new(3);
    assert!(b.to_vec().is_empty());
}

#[test]
fn ring_buffer_keeps_last_values_in_order() {
    let mut b = RingBuffer::new(3);
    b.push(1);
    b.push(2);
    assert_eq!(b.to_vec(), vec![1, 2]);
    b.push(3);
    assert_eq!(b.to_vec(), vec![1, 2, 3]);
    b.push(4);
    assert_eq!(b.to_vec(), vec![2, 3, 4]);
    b.push(5);
    b.push(6);
    b.push(7);
    assert_eq!(b.to_vec(), vec![5, 6, 7]);
}

#[test]
fn ring_buffer_clamps_to_percent() {
    let mut b = RingBuffer::new(4);
    b.push(150);
    b.push(100);
    b.push(0);
    assert_eq!(b.to_vec(), vec![100, 100, 0]);
}

#[test]
fn ring_buffer_capacity_at_least_one() {
    let mut b = RingBuffer::new(0);
    b.push(10);
    b.push(20);
    assert_eq!(b.to_vec(), vec![20]);
}

#[test]
fn ring_buffer_clone_keeps_contents() {
    let mut b = RingBuffer::new(2);
    b.push(9);
    b.push(8);
    b.push(7);
    let c = b.clone();
    assert_eq!(c.to_vec(), vec![8, 7]);
}

#[test]
fn history_spans_a_minute_of_samples() {
    assert_eq!(history_capacity(1000), 60);
    assert_eq!(history_capacity(250), 240);
    assert_eq!(history_capacity(120_000), 1);
    assert_eq!(history_capacity(0), 60_000);
}
