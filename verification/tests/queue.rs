use bloomset::queue::PriorityQueue;
use rand::distributions::Uniform;
use rand::Rng;
use std::time::Instant;

fn generate_test_vec<T>(min: T, max: T, size: usize) -> Vec<T>
where
    T: Sized + rand::distributions::uniform::SampleUniform,
{
    let mut rng = rand::thread_rng();
    let range = Uniform::new(min, max);
    let mut v: Vec<T> = Vec::new();
    for _ in 0..size {
        v.push(rng.sample(&range));
    }
    v
}

#[test]
fn test_pq() {
    let size = 31;
    let min: u32 = 1;
    let max: u32 = 96;
    println!("Testing with {size} elements:");
    let now = Instant::now();
    {
        let mut test_vec: Vec<u32> = generate_test_vec::<u32>(min, max, size);
        let mut pq: PriorityQueue<u32> = PriorityQueue::new();
        pq.append(&mut test_vec);
        println!("PQ:\n{}", pq.describe());
    }
    let elapsed = now.elapsed();
    println!("Elapsed: {:.2?}", elapsed);
}

#[test]
fn test_pq_push_peek_pop() {
    let mut pq: PriorityQueue<u32> = PriorityQueue::new();
    assert_eq!(pq.size(), 0);
    pq.push(3);
    pq.push(1);
    pq.push(2);
    assert_eq!(pq.size(), 3);
    // One heapify pass per push keeps the largest item at the root.
    assert_eq!(pq.peek(), 3);
    // Popping removes the first item of the layout and, as in the heap
    // pass itself, does not re-heapify.
    assert_eq!(pq.pop(), Some(3));
    assert_eq!(pq.size(), 2);
    assert_eq!(pq.peek(), 1);
}

#[test]
fn test_pq_append_moves_items() {
    let mut pq: PriorityQueue<u32> = PriorityQueue::new();
    let mut items: Vec<u32> = vec![5, 9, 4];
    pq.append(&mut items);
    assert_eq!(items.len(), 0);
    assert_eq!(pq.size(), 3);
    assert_eq!(pq.peek(), 9);
}

#[test]
fn test_pq_from_vec_adopts_layout() {
    let pq: PriorityQueue<u32> = PriorityQueue::from(vec![4, 8, 2]);
    assert_eq!(pq.size(), 3);
    // The vector is adopted as it stands; nothing is re-heapified.
    assert_eq!(pq.peek(), 4);
}

#[test]
fn test_pq_describe_nonempty() {
    let mut pq: PriorityQueue<u32> = PriorityQueue::new();
    let mut items: Vec<u32> = vec![7, 3, 5, 1];
    pq.append(&mut items);
    let text = pq.describe();
    assert!(text.contains("Num Indents:"));
    assert!(text.contains('7'));
}
