use pacman_lite::agent::ReplayBuffer;
use rand::rngs::StdRng;
use rand::SeedableRng;

#[test]
fn replay_buffer_keeps_the_latest_items() {
    let mut buf: ReplayBuffer<u32> = ReplayBuffer::new(3);
    assert!(buf.is_empty());
    for t in 1..=5u32 {
        buf.push(t);
    }
    assert_eq!(buf.len(), 3);
    assert!(!buf.is_empty());
    let mut rng = StdRng::seed_from_u64(7);
    let mut all = buf.sample(10, &mut rng);
    all.sort();
    assert_eq!(all, vec![3, 4, 5]);
}

#[test]
fn replay_buffer_samples_without_repetition() {
    let mut buf: ReplayBuffer<u32> = ReplayBuffer::new(100);
    for t in 0..50u32 {
        buf.push(t);
    }
    let mut rng = StdRng::seed_from_u64(1);
    let mut s = buf.sample(20, &mut rng);
    assert_eq!(s.len(), 20);
    s.sort();
    s.dedup();
    assert_eq!(s.len(), 20);
    assert!(s.iter().all(|t| *t < 50));
    assert!(ReplayBuffer::<u32>::new(4).sample(3, &mut rng).is_empty());
}

#[test]
fn many_pushes_keep_exactly_the_latest_capacity_items() {
    for n in 0..12u32 {
        let mut buf: ReplayBuffer<u32> = ReplayBuffer::new(4);
        for t in 1..=n {
            buf.push(t);
        }
        assert_eq!(buf.len(), n.min(4) as usize);
        assert_eq!(buf.is_empty(), n == 0);
        let mut rng = StdRng::seed_from_u64(3);
        let mut all = buf.sample(100, &mut rng);
        all.sort();
        let expected: Vec<u32> = (n.saturating_sub(4) + 1..=n).collect();
        assert_eq!(all, expected);
    }
}
