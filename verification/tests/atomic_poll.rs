use forever_safer::atomic_poll::AtomicPoll;
use forever_safer::ident::Ident;

#[test]
fn recycle_priority_test() {
    let mut poll = AtomicPoll::new();
    assert!(poll.get_and_increase() == Ident::from_u64(0));
    assert!(poll.get_and_increase() == Ident::from_u64(1));
    assert!(poll.get_and_increase() == Ident::from_u64(2));
    poll.release(Ident::from_u64(1));
    assert!(poll.get_and_increase() == Ident::from_u64(1));
    assert!(poll.get_and_increase() == Ident::from_u64(3));
}

#[test]
fn release_idempotence_test() {
    let mut poll = AtomicPoll::new();
    for _ in 0..3 {
        poll.get_and_increase();
    }
    poll.release(Ident::from_u64(1));
    poll.release(Ident::from_u64(1));
    // the double release left a single queued copy: 1 comes back once,
    // then counting resumes at 3
    assert!(poll.get_and_increase() == Ident::from_u64(1));
    assert!(poll.get_and_increase() == Ident::from_u64(3));
}

#[test]
fn release_above_watermark_test() {
    let mut poll = AtomicPoll::new();
    assert!(poll.get_and_increase() == Ident::from_u64(0));
    // 100 was never issued: releasing it changes nothing
    poll.release(Ident::from_u64(100));
    assert!(poll.get_and_increase() == Ident::from_u64(1));
    assert!(poll.get_and_increase() == Ident::from_u64(2));
}

#[test]
fn release_fifo_test() {
    let mut poll = AtomicPoll::new();
    for _ in 0..5 {
        poll.get_and_increase();
    }
    poll.release(Ident::from_u64(2));
    poll.release(Ident::from_u64(0));
    assert!(poll.get_and_increase() == Ident::from_u64(2));
    assert!(poll.get_and_increase() == Ident::from_u64(0));
    assert!(poll.get_and_increase() == Ident::from_u64(5));
}

#[test]
fn get_does_not_mutate_test() {
    let mut poll = AtomicPoll::new();
    poll.get_and_increase();
    assert!(poll.get() == Ident::from_u64(1));
    assert!(poll.get() == Ident::from_u64(1));
    assert!(poll.get_and_increase() == Ident::from_u64(1));
}

#[test]
fn get_prefers_recycled_test() {
    let mut poll = AtomicPoll::new();
    for _ in 0..3 {
        poll.get_and_increase();
    }
    poll.release(Ident::from_u64(0));
    assert!(poll.get() == Ident::from_u64(0));
    // get() must not consume the recycled value
    assert!(poll.get() == Ident::from_u64(0));
    assert!(poll.get_and_increase() == Ident::from_u64(0));
    assert!(poll.get() == Ident::from_u64(3));
}

#[test]
fn rollover_test() {
    let mut poll = AtomicPoll::with_counter(u64::MAX - 2);
    let just_below = poll.get_and_increase();
    assert!(just_below == Ident::from_u64(u64::MAX - 2));
    let last_of_segment = poll.get_and_increase();
    assert!(last_of_segment == Ident::from_u64(u64::MAX - 1));
    // the next issues cross the native boundary: u64::MAX, u64::MAX + 1
    let first_of_next = poll.get_and_increase();
    assert!(first_of_next == Ident::from_u64(u64::MAX));
    let second_of_next = poll.get_and_increase();
    assert!(second_of_next == Ident::from_u64(u64::MAX).add_u64(1));
    // strictly increasing, never wrapped
    assert!(last_of_segment.lt(&first_of_next));
    assert!(first_of_next.lt(&second_of_next));
    assert!(!(second_of_next == first_of_next));
}

#[test]
fn rollover_uniqueness_test() {
    let mut poll = AtomicPoll::with_counter(u64::MAX - 4);
    let mut issued: Vec<Ident> = Vec::new();
    for _ in 0..9 {
        issued.push(poll.get_and_increase());
    }
    for i in 0..issued.len() {
        for j in 0..issued.len() {
            if i != j {
                assert!(!(issued[i] == issued[j]));
            }
        }
        if i + 1 < issued.len() {
            assert!(issued[i].lt(&issued[i + 1]));
        }
    }
}

#[test]
fn rollover_recycle_test() {
    let mut poll = AtomicPoll::with_counter(u64::MAX - 1);
    let last = poll.get_and_increase();
    assert!(last == Ident::from_u64(u64::MAX - 1));
    let beyond = poll.get_and_increase();
    assert!(beyond == Ident::from_u64(u64::MAX));
    poll.release(last.clone());
    assert!(poll.get_and_increase() == last);
    assert!(poll.get_and_increase() == Ident::from_u64(u64::MAX).add_u64(1));
}
