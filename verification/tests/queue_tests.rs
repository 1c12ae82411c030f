use minihttp::queue::ConnectionQueue;

#[test]
fn fifo_order_is_kept() {
    let mut q = ConnectionQueue::new(8);
    assert!(q.push(1));
    assert!(q.push(2));
    assert!(q.push(3));
    assert_eq!(q.pop(), Some(1));
    assert_eq!(q.pop(), Some(2));
    assert_eq!(q.pop(), Some(3));
    assert_eq!(q.pop(), None);
}

#[test]
fn full_queue_rejects_push() {
    let mut q = ConnectionQueue::new(2);
    assert!(q.push(10));
    assert!(q.push(11));
    assert!(!q.push(12));
    assert_eq!(q.len(), 2);
    assert_eq!(q.pop(), Some(10));
    assert!(q.push(12));
    assert_eq!(q.pop(), Some(11));
    assert_eq!(q.pop(), Some(12));
}

#[test]
fn closed_queue_rejects_push_but_drains() {
    let mut q = ConnectionQueue::new(4);
    assert!(q.push(1));
    assert!(q.push(2));
    assert!(!q.is_closed());
    q.close();
    assert!(q.is_closed());
    assert!(!q.push(3));
    assert_eq!(q.pop(), Some(1));
    assert_eq!(q.pop(), Some(2));
    assert_eq!(q.pop(), None);
}

#[test]
fn capacity_is_kept() {
    let q = ConnectionQueue::new(5);
    assert_eq!(q.capacity(), 5);
    assert_eq!(q.len(), 0);
}

#[test]
fn each_connection_is_served_exactly_once() {
    // two simulated workers draining one queue: every pushed identifier
    // comes out exactly once, in arrival order, regardless of which worker
    // takes it
    let mut q = ConnectionQueue::new(16);
    for id in 0..10u64 {
        assert!(q.push(id));
    }
    let mut served_by_a: Vec<u64> = Vec::new();
    let mut served_by_b: Vec<u64> = Vec::new();
    let mut turn = false;
    loop {
        match q.pop() {
            None => break,
            Some(id) => {
                if turn {
                    served_by_a.push(id);
                } else {
                    served_by_b.push(id);
                }
                turn = !turn;
            }
        }
    }
    let mut all: Vec<u64> = Vec::new();
    all.extend(&served_by_a);
    all.extend(&served_by_b);
    all.sort();
    assert_eq!(all, (0..10u64).collect::<Vec<u64>>());
    assert_eq!(served_by_b, vec![0, 2, 4, 6, 8]);
    assert_eq!(served_by_a, vec![1, 3, 5, 7, 9]);
}
