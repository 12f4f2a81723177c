use scru128_check::stats::count_set_bits_by_pos;

/// Deterministic pseudo-random 32-bit source (multiplicative congruential
/// generator on 64 bits, high word taken).
struct Lcg(u64);

impl Lcg {
    fn next_u32(&mut self) -> u32 {
        self.0 = self
            .0
            .wrapping_mul(6364136223846793005)
            .wrapping_add(1442695040888963407);
        (self.0 >> 32) as u32
    }
}

fn ratios(counts: &[usize], n_samples: usize) -> Vec<f64> {
    counts.iter().map(|&c| c as f64 / n_samples as f64).collect()
}

#[test]
fn count_set_bits_concrete() {
    let mut counts = vec![0usize; 8];
    count_set_bits_by_pos(&mut counts, 0b1011_0001);
    assert_eq!(counts, vec![1, 0, 1, 1, 0, 0, 0, 1]);
    count_set_bits_by_pos(&mut counts, 0b0000_0001);
    assert_eq!(counts, vec![1, 0, 1, 1, 0, 0, 0, 2]);
}

#[test]
fn count_set_bits_full_width() {
    let mut counts = vec![0usize; 32];
    count_set_bits_by_pos(&mut counts, 0x8000_0001);
    assert_eq!(counts[0], 1);
    assert_eq!(counts[31], 1);
    assert_eq!(counts[1..31].iter().sum::<usize>(), 0);
}

#[test]
fn uniform_source_ratios_near_half() {
    let n = 10000usize;
    let mut counts = vec![0usize; 32];
    let mut rng = Lcg(0x1234_5678_9abc_def0);
    for _ in 0..n {
        count_set_bits_by_pos(&mut counts, rng.next_u32());
    }
    for (bit, p) in ratios(&counts, n).into_iter().enumerate() {
        assert!(
            (0.45..=0.55).contains(&p),
            "bit {bit} ratio {p} strayed from 0.5"
        );
    }
}

#[test]
fn biased_source_fails_the_bound() {
    let n = 10000usize;
    let mut counts = vec![0usize; 32];
    let mut rng = Lcg(42);
    for _ in 0..n {
        // A defective source: the top half of every word is forced on.
        count_set_bits_by_pos(&mut counts, rng.next_u32() | 0xffff_0000);
    }
    let within_bound = ratios(&counts, n)
        .into_iter()
        .all(|p| (0.45..=0.55).contains(&p));
    assert!(!within_bound, "the bias must be caught by the ratio bound");
}
