use aaos::heap::{Heap, HEAP_SIZE, HEAP_START};

fn overlaps(a: (u64, u64), b: (u64, u64)) -> bool {
    a.0 < b.0 + b.1 && b.0 < a.0 + a.1
}

#[test]
fn heap_64k_third_allocation_fails() {
    let mut heap = Heap::new(HEAP_START, 64 * 1024);
    let a = heap.allocate(1, 1).expect("first allocation");
    let b = heap.allocate(4096, 1).expect("second allocation");
    assert!(!overlaps((a, 1), (b, 4096)));
    assert_eq!(heap.allocate(60000, 1), None);
}

#[test]
fn live_allocations_never_overlap_across_frees() {
    let mut heap = Heap::new(HEAP_START, HEAP_SIZE);
    let sizes: [u64; 8] = [1, 24, 100, 4096, 7, 512, 33, 2000];
    let mut live: Vec<(u64, u64, u64)> = Vec::new();
    for (k, &s) in sizes.iter().enumerate() {
        let align = 1u64 << (k % 4);
        let a = heap.allocate(s, align).expect("fits");
        assert_eq!(a % align, 0);
        for &(b, bs, _) in &live {
            assert!(!overlaps((a, s), (b, bs)));
        }
        live.push((a, s, align));
    }
    for idx in [1usize, 3, 5] {
        let (a, s, al) = live[idx];
        heap.deallocate(a, s, al);
    }
    let kept: Vec<(u64, u64, u64)> =
        live.iter().enumerate().filter(|(i, _)| ![1, 3, 5].contains(i)).map(|(_, x)| *x).collect();
    let mut live = kept;
    for &s in &[20u64, 4000, 300, 9] {
        let a = heap.allocate(s, 8).expect("fits");
        for &(b, bs, _) in &live {
            assert!(!overlaps((a, s), (b, bs)));
        }
        live.push((a, s, 8));
    }
}

#[test]
fn freed_block_is_reused_for_the_same_size() {
    let mut heap = Heap::new(HEAP_START, 64 * 1024);
    let a = heap.allocate(100, 8).unwrap();
    let _b = heap.allocate(100, 8).unwrap();
    heap.deallocate(a, 100, 8);
    assert_eq!(heap.allocate(120, 4), Some(a));
}

#[test]
fn many_boxes() {
    let mut heap = Heap::new(HEAP_START, HEAP_SIZE);
    for _ in 0..HEAP_SIZE {
        let x = heap.allocate(8, 8).expect("reuses the freed block");
        heap.deallocate(x, 8, 8);
    }
}

#[test]
fn blocks_are_aligned_to_their_size() {
    let mut heap = Heap::new(HEAP_START, HEAP_SIZE);
    assert_eq!(heap.allocate(1, 1), Some(HEAP_START));
    assert_eq!(heap.allocate(4096, 1), Some(HEAP_START + 4096));
    assert_eq!(heap.allocate(9, 1), Some(HEAP_START + 8192));
    assert_eq!(heap.allocate(3, 64), Some(HEAP_START + 8192 + 64));
}

#[test]
fn oversized_request_fails() {
    let mut heap = Heap::new(HEAP_START, HEAP_SIZE);
    assert_eq!(heap.allocate(u64::MAX, 1), None);
    assert_eq!(heap.allocate(HEAP_SIZE + 1, 1), None);
}

#[test]
fn simple_allocation() {
    let mut heap = Heap::new(HEAP_START, HEAP_SIZE);
    let a = heap.allocate(4, 4).expect("first box");
    let b = heap.allocate(4, 4).expect("second box");
    assert_ne!(a, b);
    assert!(!overlaps((a, 4), (b, 4)));
}

#[test]
fn large_vec() {
    // a vector of 1000 u64 growing by doubling: each growth allocates the
    // new buffer before freeing the old one
    let mut heap = Heap::new(HEAP_START, HEAP_SIZE);
    let mut cap: u64 = 4;
    let mut buf = heap.allocate(cap * 8, 8).expect("initial buffer");
    let n: u64 = 1000;
    let mut len: u64 = 0;
    let mut sum: u64 = 0;
    for i in 0..n {
        if len == cap {
            let grown = heap.allocate(cap * 2 * 8, 8).expect("grown buffer");
            assert!(!overlaps((grown, cap * 16), (buf, cap * 8)));
            heap.deallocate(buf, cap * 8, 8);
            buf = grown;
            cap *= 2;
        }
        len += 1;
        sum += i;
    }
    assert_eq!(len, n);
    assert_eq!(sum, (n - 1) * n / 2);
    assert!(cap >= n);
}
