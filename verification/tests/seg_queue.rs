use forever_safer::seg_queue::SegQueue;

#[test]
fn queue_dedup_test() {
    let mut queue: SegQueue<u64> = SegQueue::new();
    queue.push(5);
    queue.push(5);
    assert!(queue.contains(&5));
    assert_eq!(queue.pop(), Some(5));
    assert!(!queue.contains(&5));
    assert_eq!(queue.pop(), None);
}

#[test]
fn queue_fifo_test() {
    let mut queue: SegQueue<u64> = SegQueue::new();
    queue.push(1);
    queue.push(2);
    queue.push(3);
    queue.push(2);
    assert_eq!(queue.pop(), Some(1));
    assert_eq!(queue.pop(), Some(2));
    assert_eq!(queue.pop(), Some(3));
    assert_eq!(queue.pop(), None);
}

#[test]
fn queue_peek_test() {
    let mut queue: SegQueue<u64> = SegQueue::new();
    assert_eq!(queue.peek(), None);
    queue.push(7);
    queue.push(8);
    assert_eq!(queue.peek(), Some(7));
    assert_eq!(queue.peek(), Some(7));
    assert!(queue.contains(&7));
    assert!(queue.contains(&8));
    assert_eq!(queue.pop(), Some(7));
    assert_eq!(queue.peek(), Some(8));
    assert!(!queue.contains(&7));
}

#[test]
fn queue_reinsert_after_pop_test() {
    let mut queue: SegQueue<u64> = SegQueue::new();
    queue.push(4);
    assert_eq!(queue.pop(), Some(4));
    // once popped, the value may be queued again
    queue.push(4);
    assert!(queue.contains(&4));
    assert_eq!(queue.pop(), Some(4));
}

#[test]
fn queue_dedup_against_cache_test() {
    let mut queue: SegQueue<u64> = SegQueue::new();
    queue.push(9);
    // peeking moves the head into the cache slot; a duplicate push must
    // still be refused
    assert_eq!(queue.peek(), Some(9));
    queue.push(9);
    assert_eq!(queue.pop(), Some(9));
    assert_eq!(queue.pop(), None);
}
