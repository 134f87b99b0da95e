use pumpkindb::env::Env;
use pumpkindb::envheap::EnvHeap;

#[test]
fn allocations_fill_chunks_in_turn() {
    let mut heap = EnvHeap::new(32_768);
    let sz_0 = 20_000;
    let sz_1 = 10_000;
    for i in 1..100 {
        if (i % 2) == 0 {
            heap.allocate(sz_1);
        } else {
            heap.allocate(sz_0);
        }
    }
    assert_eq!(50, heap.chunk_count());
}

#[test]
fn first_chunk_with_room_is_used() {
    let mut heap = EnvHeap::new(100);
    assert_eq!(heap.allocate(60), (0, 0));
    assert_eq!(heap.allocate(60), (1, 0));
    assert_eq!(heap.allocate(30), (0, 60));
    assert_eq!(heap.allocate(500), (2, 0));
    assert_eq!(heap.chunk_count(), 3);
}

#[test]
fn regions_handed_out_never_overlap() {
    let mut heap = EnvHeap::new(64);
    let sizes = [10usize, 50, 4, 64, 1, 200, 3, 60];
    let mut regions: Vec<(usize, usize, usize)> = Vec::new();
    for size in sizes {
        let (chunk, offset) = heap.allocate(size);
        for &(c, o, l) in &regions {
            assert!(c != chunk || o + l <= offset || offset + size <= o);
        }
        regions.push((chunk, offset, size));
    }
}

#[test]
fn pop_stack_returns_to_the_stack_set_aside() {
    let mut env = Env::new().unwrap();
    assert!(!env.pop_stack());
    env.push(b"a".to_vec());
    env.push_stack();
    env.push(b"b".to_vec());
    env.push(b"c".to_vec());
    let _ = env.pop();
    assert!(env.pop_stack());
    assert_eq!(env.stack_copy(), vec![b"a".to_vec()]);
}
