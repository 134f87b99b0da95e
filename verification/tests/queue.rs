use pumpkindb::queue::{InsertError, Queue};

#[test]
fn create_queue() {
    let queue: Queue<String> = Queue::new(usize::max_value());
    assert_eq!(queue.capacity(), usize::max_value());
}

#[test]
fn queue_max_size() {
    let mut queue: Queue<String> = Queue::new(1);
    assert_eq!(queue.push("a".to_owned()).unwrap(), 1);
    assert_eq!(queue.push("a".to_owned()).unwrap_err(), InsertError::Full);
}

#[test]
fn queue_push_pop() {
    let mut queue: Queue<String> = Queue::new(10);
    assert_eq!(queue.len(), 0);
    assert_eq!(queue.push("a".to_owned()).unwrap(), 1);
    assert_eq!(queue.len(), 1);
    assert_eq!(queue.pop().unwrap(), "a".to_owned());
    assert_eq!(queue.len(), 0);
}

#[test]
fn queue_pop_takes_last_pushed() {
    let mut queue: Queue<u32> = Queue::new(3);
    assert_eq!(queue.push(1).unwrap(), 1);
    assert_eq!(queue.push(2).unwrap(), 2);
    assert_eq!(queue.peek(), Some(&2));
    assert_eq!(queue.pop(), Some(2));
    assert_eq!(queue.pop(), Some(1));
    assert_eq!(queue.pop(), None);
    assert_eq!(queue.len(), 0);
}

#[test]
fn length_counts_successful_pushes_and_pops() {
    let mut q: Queue<u8> = Queue::new(3);
    let mut pushed = 0;
    let mut popped = 0;
    for k in 0..20u8 {
        if k % 3 == 2 {
            if q.pop().is_some() {
                popped += 1;
            }
        } else if q.push(k).is_ok() {
            pushed += 1;
        }
        assert_eq!(q.len(), pushed - popped);
        assert!(q.len() <= q.capacity());
    }
}
