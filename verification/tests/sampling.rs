use qwen3_5_rs::ranking::ranking;
use qwen3_5_rs::sampling::{
    argmax, draw, sample, sample_greedy, sample_top_k, sample_top_p, SamplingConfig, XorShift64,
};
use qwen3_5_rs::scalar::Scalar;

/// Single-precision numbers.
#[derive(Clone, Copy, Debug, PartialEq)]
struct F(f32);

impl Scalar for F {
    type Wide = f64;

    fn zero() -> F {
        F(0.0)
    }
    fn one() -> F {
        F(1.0)
    }
    fn lowest() -> F {
        F(f32::NEG_INFINITY)
    }
    fn from_count(n: u64) -> F {
        F(n as f32)
    }
    fn from_bits(bits: u32) -> F {
        F(f32::from_bits(bits))
    }
    fn narrow(wide: f64) -> F {
        F(wide as f32)
    }
    fn negated(self) -> F {
        F(-self.0)
    }
    fn exp(self) -> F {
        F(self.0.exp())
    }
    fn sqrt(self) -> F {
        F(self.0.sqrt())
    }
    fn cos(self) -> F {
        F(self.0.cos())
    }
    fn sin(self) -> F {
        F(self.0.sin())
    }
    fn plus(self, rhs: F) -> F {
        F(self.0 + rhs.0)
    }
    fn minus(self, rhs: F) -> F {
        F(self.0 - rhs.0)
    }
    fn times(self, rhs: F) -> F {
        F(self.0 * rhs.0)
    }
    fn over(self, rhs: F) -> F {
        F(self.0 / rhs.0)
    }
    fn powf(self, rhs: F) -> F {
        F(self.0.powf(rhs.0))
    }
    fn larger(self, rhs: F) -> F {
        F(self.0.max(rhs.0))
    }
    fn less_than(self, rhs: F) -> bool {
        self.0 < rhs.0
    }
    fn at_least(self, rhs: F) -> bool {
        self.0 >= rhs.0
    }
    fn same_as(self, rhs: F) -> bool {
        self.0 == rhs.0
    }
}

fn wrap(values: &[f32]) -> Vec<F> {
    values.iter().map(|&v| F(v)).collect()
}

fn config(temperature: f32, top_k: usize, top_p: f32, seed: Option<u64>) -> SamplingConfig<F> {
    SamplingConfig { temperature: F(temperature), top_k, top_p: F(top_p), seed }
}

fn softmax_in_place(values: &mut Vec<f32>) {
    let mut wrapped = wrap(values);
    qwen3_5_rs::sampling::softmax_in_place(&mut wrapped);
    *values = wrapped.iter().map(|v| v.0).collect();
}

#[test]
fn test_greedy_returns_argmax() {
    let logits = [0.1, 0.5, 3.0, 0.2, -1.0];
    assert_eq!(sample_greedy(&wrap(&logits)), 2, "greedy should pick index 2 (value 3.0)");

    let logits2 = [5.0, 1.0, 2.0];
    assert_eq!(sample_greedy(&wrap(&logits2)), 0, "greedy should pick index 0 (value 5.0)");

    // Tie-breaking: first index wins.
    let logits3 = [1.0, 1.0, 1.0];
    assert_eq!(sample_greedy(&wrap(&logits3)), 0, "greedy should pick first index on tie");
}

#[test]
fn test_temperature_zero_is_greedy() {
    let logits = [0.1, 0.5, 3.0, 0.2, -1.0];
    let chosen = config(0.0, 0, 1.0, None);
    assert_eq!(
        sample(&wrap(&logits), &chosen, &mut 0),
        sample_greedy(&wrap(&logits)),
        "temperature 0 should behave identically to greedy"
    );
}

#[test]
fn test_high_temperature_flattens() {
    // With very high temperature, the distribution should be nearly uniform.
    let logits = [0.0, 10.0, 20.0];
    let high_temp = 1000.0;

    let mut scaled: Vec<f32> = logits.iter().map(|&l| l / high_temp).collect();
    softmax_in_place(&mut scaled);

    // All probabilities should be close to 1/3 ≈ 0.333.
    let uniform = 1.0 / 3.0;
    for (i, &p) in scaled.iter().enumerate() {
        assert!(
            (p - uniform).abs() < 0.05,
            "prob[{}] = {} should be close to uniform {}",
            i, p, uniform
        );
    }
}

#[test]
fn test_low_temperature_sharpens() {
    // With very low temperature, the highest logit should dominate.
    let logits = [1.0, 2.0, 3.0];
    let low_temp = 0.01;

    let mut scaled: Vec<f32> = logits.iter().map(|&l| l / low_temp).collect();
    softmax_in_place(&mut scaled);

    // The last element (logit 3.0) should have probability very close to 1.
    assert!(
        scaled[2] > 0.99,
        "low temperature should concentrate probability on the max, got {}",
        scaled[2]
    );
}

#[test]
fn test_top_k_limits_candidates() {
    // Create logits where 5 tokens have high values and the rest are low.
    let mut logits = vec![-10.0; 10];
    logits[2] = 5.0;
    logits[5] = 4.0;
    logits[7] = 3.0;
    logits[1] = 2.0;
    logits[8] = 1.0;

    let k = 3;
    // Apply top-k manually to verify the logic.
    let mut sorted: Vec<f32> = logits.clone();
    sorted.sort_by(|a, b| b.partial_cmp(a).unwrap_or(std::cmp::Ordering::Equal));
    let threshold = sorted[k - 1]; // 3rd largest = 3.0

    let mut filtered = logits.clone();
    for v in filtered.iter_mut() {
        if *v < threshold {
            *v = f32::NEG_INFINITY;
        }
    }
    softmax_in_place(&mut filtered);

    // Only indices 2, 5, 7 should have non-zero probability.
    let non_zero: Vec<usize> = filtered
        .iter()
        .enumerate()
        .filter(|(_, &p)| p > 0.0)
        .map(|(i, _)| i)
        .collect();

    assert_eq!(non_zero, vec![2, 5, 7], "top-k=3 should keep only the 3 highest logits");
}

#[test]
fn test_top_p_nucleus_sampling() {
    // Create a distribution where one token dominates.
    let logits = [10.0, 1.0, 0.5, 0.1, -5.0];
    let mut probs = logits.to_vec();
    softmax_in_place(&mut probs);

    // The first token should have very high probability.
    // With top_p = 0.9, only the first 1-2 tokens should be kept.
    let p = 0.9f32;

    let mut indices: Vec<usize> = (0..probs.len()).collect();
    indices.sort_by(|&a, &b| probs[b].partial_cmp(&probs[a]).unwrap_or(std::cmp::Ordering::Equal));

    let mut cumsum = 0.0f32;
    let mut cutoff = 0;
    for &idx in &indices {
        cumsum += probs[idx];
        cutoff += 1;
        if cumsum >= p {
            break;
        }
    }

    // Verify the kept tokens have cumulative probability >= p.
    let kept_prob: f32 = indices[..cutoff].iter().map(|&idx| probs[idx]).sum();
    assert!(
        kept_prob >= p - 1e-6,
        "kept probability {} should be >= top_p {}",
        kept_prob, p
    );

    // Verify that removing one more token from the front would drop below p.
    if cutoff > 1 {
        let reduced_prob: f32 = indices[..cutoff - 1].iter().map(|&idx| probs[idx]).sum();
        assert!(
            reduced_prob < p,
            "removing the last kept token should drop below top_p: {} >= {}",
            reduced_prob, p
        );
    }
}

#[test]
fn test_xorshift64_deterministic() {
    let mut rng1 = XorShift64::new(42);
    let mut rng2 = XorShift64::new(42);

    for _ in 0..100 {
        assert_eq!(
            rng1.next_u64(),
            rng2.next_u64(),
            "same seed should produce identical sequences"
        );
    }
}

#[test]
fn sampling_test_sample_deterministic_with_seed() {
    let logits = [0.1, 0.5, 3.0, 0.2, -1.0, 2.0, 0.0, 1.5, -0.3, 0.8];

    let config1 = config(0.8, 5, 0.9, Some(12345));
    let config2 = config(0.8, 5, 0.9, Some(12345));

    let result1 = sample(&wrap(&logits), &config1, &mut 0);
    let result2 = sample(&wrap(&logits), &config2, &mut 0);
    assert_eq!(
        result1, result2,
        "same seed should produce identical sampling results"
    );
}

#[test]
fn test_argmax() {
    assert_eq!(argmax(&wrap(&[1.0, 5.0, 3.0])), 1);
    assert_eq!(argmax(&wrap(&[9.0, 1.0, 2.0])), 0);
    assert_eq!(argmax(&wrap(&[1.0, 2.0, 9.0])), 2);
}

#[test]
fn test_softmax_in_place_sums_to_one() {
    let mut v = vec![1.0, 2.0, 3.0, 4.0];
    softmax_in_place(&mut v);
    let sum: f32 = v.iter().sum();
    assert!((sum - 1.0).abs() < 1e-5, "softmax should sum to 1.0, got {}", sum);
}

#[test]
fn test_softmax_in_place_stability() {
    let mut v = vec![1000.0, 1001.0, 1002.0];
    softmax_in_place(&mut v);
    let sum: f32 = v.iter().sum();
    assert!((sum - 1.0).abs() < 1e-5, "numerically stable softmax should sum to 1.0, got {}", sum);
}

#[test]
fn test_softmax_handles_neg_inf() {
    let mut v = vec![1.0, f32::NEG_INFINITY, 2.0, f32::NEG_INFINITY];
    softmax_in_place(&mut v);
    assert_eq!(v[1], 0.0, "-inf should become probability 0");
    assert_eq!(v[3], 0.0, "-inf should become probability 0");
    let sum: f32 = v.iter().sum();
    assert!((sum - 1.0).abs() < 1e-5, "softmax should sum to 1.0, got {}", sum);
}

#[test]
fn test_xorshift64_next_f32_range() {
    let mut rng = XorShift64::new(999);
    for _ in 0..1000 {
        let v = rng.next_f32::<F>().0;
        assert!(v >= 0.0 && v < 1.0, "next_f32 should be in [0, 1), got {}", v);
    }
}

#[test]
fn test_sample_greedy_via_config() {
    // Temperature = 0 with top_k and top_p set should still be greedy.
    let logits = [0.1, 0.5, 3.0, 0.2];
    let chosen = config(0.0, 2, 0.5, Some(42));
    assert_eq!(sample(&wrap(&logits), &chosen, &mut 0), 2);
}

#[test]
fn test_default_config() {
    let config = SamplingConfig::<F>::default();
    assert_eq!(config.temperature.0, 0.7);
    assert_eq!(config.top_k, 50);
    assert!((config.top_p.0 - 0.9).abs() < 1e-6);
    assert!(config.seed.is_none());
}

#[test]
fn the_generator_follows_its_formula() {
    let mut rng = XorShift64::new(1);
    let mut x = 1u64;
    for _ in 0..5 {
        x ^= x << 13;
        x ^= x >> 7;
        x ^= x << 17;
        assert_eq!(rng.next_u64(), x);
    }
    assert_eq!(XorShift64::new(1).next_u64(), 1082269761);
}

#[test]
fn drawn_parts_are_the_upper_bits() {
    let mut rng = XorShift64::new(42);
    let bits = XorShift64::new(42).next_u64();
    assert_eq!(rng.next_f32::<F>(), F((bits >> 40) as f32 / (1u64 << 24) as f32));
}

#[test]
fn the_generator_tells_seeds_apart() {
    let mut seen = Vec::new();
    for seed in 1..200 {
        let next = XorShift64::new(seed).next_u64();
        assert_ne!(next, 0);
        assert!(!seen.contains(&next));
        seen.push(next);
    }
}

#[test]
fn ranking_is_stable_and_descending() {
    let values = wrap(&[1.0, 3.0, 2.0, 3.0, 0.5]);
    assert_eq!(ranking(&values), vec![1, 3, 2, 0, 4]);
    assert_eq!(ranking(&wrap(&[])), Vec::<usize>::new());
}

#[test]
fn drawing_stops_where_the_sum_passes_the_number() {
    let probs = wrap(&[0.25, 0.25, 0.5]);
    assert_eq!(draw(&probs, F(0.0)), 0);
    assert_eq!(draw(&probs, F(0.2)), 0);
    assert_eq!(draw(&probs, F(0.25)), 1);
    assert_eq!(draw(&probs, F(0.49)), 1);
    assert_eq!(draw(&probs, F(0.5)), 2);
    assert_eq!(draw(&probs, F(2.0)), 2);
}

#[test]
fn top_k_of_one_takes_the_largest() {
    let logits = wrap(&[0.1, 5.0, 3.0]);
    for seed in 1..20 {
        assert_eq!(sample_top_k(&logits, 1, &mut XorShift64::new(seed)), 1);
    }
}

#[test]
fn top_k_chooses_among_the_largest() {
    let logits = wrap(&[-10.0, 2.0, 5.0, -10.0, 4.0]);
    let mut rng = XorShift64::new(7);
    let mut seen = [0usize; 5];
    for _ in 0..500 {
        seen[sample_top_k(&logits, 3, &mut rng)] += 1;
    }
    assert_eq!(seen[0], 0);
    assert_eq!(seen[3], 0);
    assert!(seen[1] > 0 && seen[2] > seen[4] && seen[4] > seen[1]);
}

#[test]
fn top_p_keeps_the_smallest_nucleus() {
    let logits = wrap(&[10.0, 1.0, 0.5, 0.1, -5.0]);
    for seed in 1..50 {
        assert_eq!(sample_top_p(&logits, F(0.9), &mut XorShift64::new(seed)), 0);
    }
    let level = wrap(&[1.0, 1.0, 1.0, 1.0]);
    let mut rng = XorShift64::new(3);
    for _ in 0..200 {
        assert!(sample_top_p(&level, F(0.5), &mut rng) < 2);
    }
}

#[test]
fn without_a_seed_the_seed_comes_from_the_count() {
    let logits = wrap(&[0.1, 0.5, 0.3, 0.2, 0.4]);
    for n in 0..20 {
        let mut rng = XorShift64::new(n + 1);
        rng.next_u64();
        let seed = rng.next_u64();
        let mut draws = n;
        assert_eq!(
            sample(&logits, &config(1.0, 0, 1.0, None), &mut draws),
            sample(&logits, &config(1.0, 0, 1.0, Some(seed)), &mut 0),
        );
        assert_eq!(draws, n + 1);
    }
}

#[test]
fn choices_without_a_seed_vary() {
    let logits = wrap(&[1.0; 8]);
    let mut draws = 0;
    let mut seen = [0usize; 8];
    for _ in 0..200 {
        seen[sample(&logits, &config(1.0, 0, 1.0, None), &mut draws)] += 1;
    }
    assert_eq!(draws, 200);
    assert!(seen.iter().all(|&n| n > 0));
}

#[test]
fn choices_are_counted_with_a_seed_too_and_do_not_depend_on_it() {
    let logits = wrap(&[1.0; 8]);
    let mut draws = 0;
    let first = sample(&logits, &config(1.0, 0, 1.0, Some(9)), &mut draws);
    for n in 1..20 {
        assert_eq!(draws, n);
        assert_eq!(sample(&logits, &config(1.0, 0, 1.0, Some(9)), &mut draws), first);
    }
    let mut last = u64::MAX - 1;
    sample(&logits, &config(0.0, 0, 1.0, None), &mut last);
    assert_eq!(last, 0);
}

#[test]
fn values_that_cannot_be_ranked_give_the_same_choice_again() {
    let logits = wrap(&[0.5, f32::NAN, 2.0, f32::NAN, 1.0]);
    for seed in 1..20 {
        for (k, p) in [(0, 1.0), (2, 1.0), (0, 0.5), (3, 0.5)] {
            let chosen = config(1.0, k, p, Some(seed));
            assert_eq!(sample(&logits, &chosen, &mut 0), sample(&logits, &chosen, &mut 5));
        }
    }
    assert_eq!(ranking(&logits), ranking(&logits));
}

#[test]
fn a_drawn_token_was_kept() {
    let logits = wrap(&[0.0, 3.0, 1.0, 2.0]);
    for seed in 1..200 {
        let token = sample(&logits, &config(1.0, 2, 1.0, Some(seed)), &mut 0);
        assert!(token == 1 || token == 3);
    }
}

#[test]
fn a_number_past_every_sum_draws_the_last_token_that_was_kept() {
    assert_eq!(draw(&wrap(&[0.25, 0.25, 0.0]), F(0.9)), 1);
    assert_eq!(draw(&wrap(&[0.0, 0.5, 0.0, 0.0]), F(0.9)), 1);
    assert_eq!(draw(&wrap(&[0.0, 0.0]), F(0.9)), 0);

    // A hundred shares of 0.01 add up to less than the number that this seed draws.
    let seed = 0x14c8_a60a_5148_be3d;
    let mut rng = XorShift64::new(seed);
    assert_eq!(rng.next_f32::<F>(), F(0.99999994));
    assert!((0..100).fold(0.0f32, |sum, _| sum + 0.01) < 0.99999994);
    let mut logits = vec![0.0; 100];
    logits.push(-1.0);
    let logits = wrap(&logits);
    assert_eq!(sample(&logits, &config(1.0, 100, 1.0, Some(seed)), &mut 0), 99);
    assert_eq!(sample_top_k(&logits, 100, &mut XorShift64::new(seed)), 99);
}

#[test]
fn a_top_p_of_one_leaves_nothing_out() {
    // This seed draws 0, and the share of the second token alone is 1 when rounded.
    let seed = 0xbe6d_f32f_185a_864d;
    assert_eq!(XorShift64::new(seed).next_f32::<F>(), F(0.0));
    let logits = wrap(&[0.0, 20.0]);
    assert_eq!(sample_top_p(&logits, F(1.0), &mut XorShift64::new(seed)), 0);
    assert_eq!(sample_top_p(&logits, F(0.5), &mut XorShift64::new(seed)), 1);
    assert_eq!(sample(&logits, &config(1.0, 0, 1.0, Some(seed)), &mut 0), 0);
    assert_eq!(sample(&logits, &config(1.0, 0, 0.5, Some(seed)), &mut 0), 1);
}

#[test]
fn the_largest_count_stands_for_none() {
    let logits = wrap(&[1.0; 8]);
    let chosen = config(1.0, 0, 1.0, None);
    let (mut most, mut none) = (u64::MAX, 0);
    for _ in 0..20 {
        assert_eq!(sample(&logits, &chosen, &mut most), sample(&logits, &chosen, &mut none));
        assert_eq!(most, none);
    }
}

#[test]
fn the_generator_is_not_back_early() {
    let mut rng = XorShift64::new(1);
    for _ in 0..1_000_000 {
        let x = rng.next_u64();
        assert!(x != 0 && x != 1);
    }
}

#[test]
fn drawn_numbers_lie_below_one() {
    let mut rng = XorShift64::new(5);
    for _ in 0..1000 {
        let F(x) = rng.next_f32::<F>();
        assert!((0.0..1.0).contains(&x));
    }
}

#[test]
fn sampling_divides_by_the_temperature() {
    let logits = wrap(&[0.0, 0.1, 0.2]);
    let mut seen = [0usize; 3];
    for n in 1..300u64 {
        let seed = n.wrapping_mul(0x9e37_79b9_7f4a_7c15);
        seen[sample(&logits, &config(1.0, 0, 1.0, Some(seed)), &mut 0)] += 1;
        assert_eq!(sample(&logits, &config(0.0001, 0, 1.0, Some(seed)), &mut 0), 2);
    }
    assert!(seen.iter().all(|&n| n > 0));
}

#[test]
fn argmax_takes_the_first_of_equals() {
    assert_eq!(argmax(&wrap(&[1.0, 4.0, 4.0, 2.0])), 1);
    assert_eq!(argmax(&wrap(&[f32::NEG_INFINITY, -2.0])), 1);
}

#[test]
fn softmax_of_equal_numbers_is_level() {
    let mut v = vec![3.0, 3.0];
    softmax_in_place(&mut v);
    assert_eq!(v, vec![0.5, 0.5]);
}
