//! Choosing the next token from the logits.
//!
//! The logits are divided by the temperature, cut down to the `top_k` largest,
//! turned into probabilities, cut down to the most likely tokens that reach
//! `top_p` together, and one token is drawn. A temperature of 0 takes the largest
//! logit instead.
use crate::ranking;
use crate::ranking::{lemma_ranking, lemma_threshold, ranking};
use crate::scalar::{
    at_least, exp, from_count, functional, larger, less_than, lowest, minus, one, over, plus,
    same_as, zero, Scalar,
};
use crate::softmax;
use vstd::prelude::*;
use vstd::slice::slice_to_vec;

verus! {

/// One step of the xorshift generator with the shifts 13, 7 and 17.
pub open spec fn xorshift(x: u64) -> u64 {
    let a = x ^ (x << 13);
    let b = a ^ (a >> 7);
    b ^ (b << 17)
}

/// A number drawn from 24 bits: the upper bits of `x` over 2 to the 24th.
pub open spec fn unit_of<T: Scalar>(x: u64) -> T {
    over(from_count(x >> 40), from_count(0x100_0000))
}

/// The number of earlier choices that `n` stands for. The largest number stands for
/// none.
pub open spec fn count_of(n: u64) -> u64 {
    if n == u64::MAX {
        0
    } else {
        n
    }
}

/// The seed that is derived from the number `n` of earlier choices.
pub open spec fn derived_seed(n: u64) -> u64 {
    xorshift(xorshift((count_of(n) + 1) as u64))
}

/// The number of earlier choices once one more is made. It starts over before it
/// can no longer grow.
pub open spec fn next_count(n: u64) -> u64 {
    if n == u64::MAX - 1 {
        0
    } else {
        (count_of(n) + 1) as u64
    }
}

/// No two states lead to the same state.
pub proof fn xorshift_is_injective(x: u64, y: u64)
    ensures
        xorshift(x) == xorshift(y) ==> x == y,
{
    let (a, b) = (x ^ (x << 13), y ^ (y << 13));
    let (c, d) = (a ^ (a >> 7), b ^ (b >> 7));
    assert(a == b ==> x == y) by (bit_vector)
        requires
            a == x ^ (x << 13),
            b == y ^ (y << 13),
    ;
    assert(c == d ==> a == b) by (bit_vector)
        requires
            c == a ^ (a >> 7),
            d == b ^ (b >> 7),
    ;
    assert(c ^ (c << 17) == d ^ (d << 17) ==> c == d) by (bit_vector);
}

/// A generator that is not at zero never gets there.
pub proof fn xorshift_avoids_zero(x: u64)
    requires
        x != 0,
    ensures
        xorshift(x) != 0,
{
    xorshift_is_injective(x, 0);
    assert(0u64 ^ (0u64 << 13) == 0u64) by (bit_vector);
    assert(0u64 ^ (0u64 >> 7) == 0u64) by (bit_vector);
    assert(0u64 ^ (0u64 << 17) == 0u64) by (bit_vector);
}

/// The state that `k` steps lead to from `x`.
pub open spec fn after_steps(x: u64, k: nat) -> u64
    decreases k,
{
    if k == 0 {
        x
    } else {
        xorshift(after_steps(x, (k - 1) as nat))
    }
}

/// The generator repeats nothing before it is back where it started: two states that
/// are the same are as far apart as a return to the start.
pub proof fn repeating_is_returning(x: u64, i: nat, j: nat)
    requires
        i <= j,
        after_steps(x, i) == after_steps(x, j),
    ensures
        after_steps(x, (j - i) as nat) == x,
    decreases i,
{
    if i > 0 {
        xorshift_is_injective(after_steps(x, (i - 1) as nat), after_steps(x, (j - 1) as nat));
        repeating_is_returning(x, (i - 1) as nat, (j - 1) as nat);
    }
}

/// The generator never leaves the numbers that are not zero.
pub proof fn steps_avoid_zero(x: u64, k: nat)
    requires
        x != 0,
    ensures
        after_steps(x, k) != 0,
    decreases k,
{
    if k > 0 {
        steps_avoid_zero(x, (k - 1) as nat);
        xorshift_avoids_zero(after_steps(x, (k - 1) as nat));
    }
}

/// What is drawn lies from 0 up to 1, without 1, wherever parts of 2 to the 24th that
/// are fewer than all of them do.
pub proof fn drawn_numbers_lie_below_one<T: Scalar>(x: u64)
    requires
        forall|n: u64|
            n < 0x100_0000 ==> at_least(
                #[trigger] over(from_count::<T>(n), from_count::<T>(0x100_0000)),
                zero(),
            ) && less_than(over(from_count::<T>(n), from_count::<T>(0x100_0000)), one()),
    ensures
        x >> 40 < 0x100_0000,
        at_least(unit_of::<T>(x), zero()),
        less_than(unit_of::<T>(x), one()),
{
    assert(x >> 40 < 0x100_0000) by (bit_vector);
}

/// A xorshift generator.
pub struct XorShift64 {
    state: u64,
}

impl View for XorShift64 {
    type V = u64;

    closed spec fn view(&self) -> u64 {
        self.state
    }
}

impl XorShift64 {
    /// A generator that starts from `seed`. It could never leave zero.
    pub fn new(seed: u64) -> (r: Self)
        requires
            seed != 0,
        ensures
            r@ == seed,
    {
        XorShift64 { state: seed }
    }

    /// The next number.
    pub fn next_u64(&mut self) -> (r: u64)
        ensures
            r == xorshift(old(self)@),
            final(self)@ == r,
            old(self)@ != 0 ==> r != 0,
    {
        let mut x: u64 = self.state;
        proof {
            if x != 0 {
                xorshift_avoids_zero(x);
            }
        }
        x = x ^ (x << 13);
        x = x ^ (x >> 7);
        x = x ^ (x << 17);
        self.state = x;
        x
    }

    /// The next number, as a part of one.
    pub fn next_f32<T: Scalar>(&mut self) -> (r: T)
        ensures
            final(self)@ == xorshift(old(self)@),
            functional::<T>() ==> r == unit_of::<T>(xorshift(old(self)@)),
    {
        let x: u64 = self.next_u64();
        over(from_count(x >> 40), from_count(0x100_0000))
    }
}

/// How tokens are chosen.
#[derive(Debug, Clone)]
pub struct SamplingConfig<T> {
    /// What the logits are divided by; 0 takes the largest logit.
    pub temperature: T,
    /// How many of the largest logits are kept; 0 keeps all.
    pub top_k: usize,
    /// The probability that the kept tokens reach together; 1 keeps all.
    pub top_p: T,
    /// Where the generator starts; without it, from a number that is derived from the
    /// number of earlier choices.
    pub seed: Option<u64>,
}

impl<T: Scalar> Default for SamplingConfig<T> {
    /// Temperature 0.7, top-k 50, top-p 0.9 and no seed.
    fn default() -> (r: Self)
        ensures
            functional::<T>() ==> r.temperature == over(from_count::<T>(7), from_count::<T>(10)),
            r.top_k == 50,
            functional::<T>() ==> r.top_p == over(from_count::<T>(9), from_count::<T>(10)),
            r.seed is None,
    {
        SamplingConfig {
            temperature: over(from_count(7), from_count(10)),
            top_k: 50,
            top_p: over(from_count(9), from_count(10)),
            seed: None,
        }
    }
}

impl<T: Scalar> SamplingConfig<T> {
    /// Where the generator starts after `n` earlier choices.
    pub open spec fn start_at(self, n: u64) -> u64 {
        match self.seed {
            Some(seed) => seed,
            None => derived_seed(n),
        }
    }

    /// Whether the largest logit is taken.
    pub open spec fn is_greedy(self) -> bool {
        same_as(self.temperature, zero())
    }
}

/// The place of the largest value, found by comparing from the first on.
pub open spec fn argmax_of<T: Scalar>(s: Seq<T>) -> int
    decreases s.len(),
{
    if s.len() <= 1 {
        0
    } else {
        let best = argmax_of(s.drop_last());
        if less_than(s[best], s.last()) {
            s.len() - 1
        } else {
            best
        }
    }
}

/// The values divided by their sum, where that is positive.
pub open spec fn shared_out<T: Scalar>(s: Seq<T>) -> Seq<T> {
    let sum = softmax::total(s);
    if less_than(zero(), sum) {
        Seq::new(s.len(), |i: int| over(s[i], sum))
    } else {
        s
    }
}

/// The probabilities that belong to logits.
pub open spec fn probabilities<T: Scalar>(s: Seq<T>) -> Seq<T> {
    shared_out(softmax::shifted_exps(s, softmax::vector_max(s)))
}

/// The values that are not below the `k`th from the largest down; the others are put
/// out of reach.
pub open spec fn largest<T: Scalar>(s: Seq<T>, k: int) -> Seq<T> {
    let threshold = s[ranking::order_of(s)[k - 1]];
    Seq::new(
        s.len(),
        |i: int|
            if less_than(s[i], threshold) {
                lowest()
            } else {
                s[i]
            },
    )
}

/// The values from the largest down.
pub open spec fn in_order<T: Scalar>(s: Seq<T>) -> Seq<T> {
    Seq::new(s.len(), |m: int| s[ranking::order_of(s)[m]])
}

/// How many of `v` it takes, more than `m`, to reach the sum `p`; all where they do
/// not reach it.
pub open spec fn reach<T: Scalar>(v: Seq<T>, p: T, m: int) -> int
    decreases v.len() - m,
{
    if m >= v.len() {
        v.len() as int
    } else if at_least(softmax::total(v.take(m + 1)), p) {
        m + 1
    } else {
        reach(v, p, m + 1)
    }
}

/// The probabilities of the most likely tokens that reach `p` together; the others
/// have none.
pub open spec fn cut_to_nucleus<T: Scalar>(s: Seq<T>, p: T) -> Seq<T> {
    let kept = reach(in_order(s), p, 0);
    Seq::new(
        s.len(),
        |i: int|
            if ranking::order_of(s).take(kept).contains(i) {
                s[i]
            } else {
                zero()
            },
    )
}

/// The most likely tokens that reach `p` together, with probabilities that are
/// shared out among them; the others have none.
pub open spec fn nucleus<T: Scalar>(s: Seq<T>, p: T) -> Seq<T> {
    shared_out(cut_to_nucleus(s, p))
}

/// The last place with a probability above zero, and 0 where there is none.
pub open spec fn last_kept<T: Scalar>(p: Seq<T>) -> int
    decreases p.len(),
{
    if p.len() == 0 {
        0
    } else if less_than(zero(), p.last()) {
        p.len() - 1
    } else {
        last_kept(p.drop_last())
    }
}

/// The first place, from `i` on, at which the sum of the probabilities exceeds
/// `r`. Where rounding keeps every sum from exceeding it, the last place that has a
/// probability.
pub open spec fn drawn_from<T: Scalar>(p: Seq<T>, r: T, i: int) -> int
    decreases p.len() - i,
{
    if i >= p.len() {
        last_kept(p)
    } else if less_than(r, softmax::total(p.take(i + 1))) {
        i
    } else {
        drawn_from(p, r, i + 1)
    }
}

/// The token that the number `r` draws.
pub open spec fn drawn<T: Scalar>(p: Seq<T>, r: T) -> int {
    drawn_from(p, r, 0)
}

/// The logits divided by the temperature.
pub open spec fn tempered<T: Scalar>(logits: Seq<T>, temperature: T) -> Seq<T> {
    Seq::new(logits.len(), |i: int| over(logits[i], temperature))
}

/// Whether top-k leaves anything out.
pub open spec fn cuts_to_k(n: int, k: int) -> bool {
    0 < k < n
}

/// The probabilities before top-p.
pub open spec fn likelihoods<T: Scalar>(logits: Seq<T>, config: SamplingConfig<T>) -> Seq<T> {
    let scaled = tempered(logits, config.temperature);
    if cuts_to_k(logits.len() as int, config.top_k as int) {
        probabilities(largest(scaled, config.top_k as int))
    } else {
        probabilities(scaled)
    }
}

/// The probabilities that a token is drawn by.
pub open spec fn distribution<T: Scalar>(logits: Seq<T>, config: SamplingConfig<T>) -> Seq<T> {
    let p = likelihoods(logits, config);
    if less_than(config.top_p, one()) {
        nucleus(p, config.top_p)
    } else {
        p
    }
}

/// The token that is chosen after `n` earlier choices.
pub open spec fn choice<T: Scalar>(logits: Seq<T>, config: SamplingConfig<T>, n: u64) -> int {
    if config.is_greedy() {
        argmax_of(logits)
    } else {
        drawn(distribution(logits, config), unit_of::<T>(xorshift(config.start_at(n))))
    }
}

/// Whether tokens can be chosen with `config`: a seed that is given is not zero.
pub open spec fn has_start<T: Scalar>(config: SamplingConfig<T>) -> bool {
    config.seed != Some(0u64)
}

/// Seeds differ from choice to choice where none is given, and none of them is zero.
pub proof fn derived_seeds_differ(m: u64, n: u64)
    ensures
        derived_seed(n) != 0,
        count_of(m) != count_of(n) ==> derived_seed(m) != derived_seed(n),
        count_of(next_count(n)) != count_of(n),
        next_count(n) < u64::MAX,
{
    let x: u64 = (count_of(n) + 1) as u64;
    let y: u64 = (count_of(m) + 1) as u64;
    xorshift_avoids_zero(x);
    xorshift_avoids_zero(xorshift(x));
    xorshift_is_injective(x, y);
    xorshift_is_injective(xorshift(x), xorshift(y));
}

/// The place of the largest value, the first where there are several.
pub fn argmax<T: Scalar>(slice: &[T]) -> (r: usize)
    requires
        slice@.len() > 0,
    ensures
        r < slice@.len(),
        functional::<T>() ==> r == argmax_of(slice@),
{
    let mut best: usize = 0;
    let mut i: usize = 1;
    let ghost s = slice@;
    while i < slice.len()
        invariant
            s == slice@,
            1 <= i <= s.len(),
            best < i,
            functional::<T>() ==> best == argmax_of(s.take(i as int)),
        decreases s.len() - i,
    {
        assert(s.take(i + 1).drop_last() =~= s.take(i as int));
        if less_than(slice[best], slice[i]) {
            best = i;
        }
        i = i + 1;
    }
    assert(s.take(i as int) =~= s);
    best
}

fn share_out<T: Scalar>(values: &mut Vec<T>)
    ensures
        final(values)@.len() == old(values)@.len(),
        functional::<T>() ==> final(values)@ == shared_out(old(values)@),
{
    let ghost s = values@;
    let n: usize = values.len();
    let mut sum: T = zero();
    let mut i: usize = 0;
    assert(s.take(0) =~= Seq::empty());
    while i < n
        invariant
            i <= n,
            n == s.len(),
            values@ == s,
            functional::<T>() ==> sum == softmax::total(s.take(i as int)),
        decreases n - i,
    {
        assert(s.take(i + 1).drop_last() =~= s.take(i as int));
        sum = plus(sum, values[i]);
        i = i + 1;
    }
    assert(s.take(i as int) =~= s);
    if less_than(zero(), sum) {
        let mut k: usize = 0;
        while k < n
            invariant
                k <= n,
                n == s.len(),
                values@.len() == n,
                functional::<T>() ==> forall|j: int|
                    0 <= j < k ==> #[trigger] values@[j] == over(s[j], sum),
                forall|j: int| k <= j < n ==> #[trigger] values@[j] == s[j],
            decreases n - k,
        {
            let share: T = over(values[k], sum);
            values.set(k, share);
            k = k + 1;
        }
    }
    assert(functional::<T>() ==> values@ =~= shared_out(s));
}

/// Turns logits into probabilities.
pub fn softmax_in_place<T: Scalar>(logits: &mut Vec<T>)
    requires
        old(logits)@.len() > 0,
    ensures
        final(logits)@.len() == old(logits)@.len(),
        functional::<T>() ==> final(logits)@ == probabilities(old(logits)@),
{
    let ghost s = logits@;
    let n: usize = logits.len();
    let mut max: T = lowest();
    let mut i: usize = 0;
    assert(s.take(0) =~= Seq::empty());
    while i < n
        invariant
            i <= n,
            n == s.len(),
            logits@ == s,
            functional::<T>() ==> max == softmax::vector_max(s.take(i as int)),
        decreases n - i,
    {
        assert(s.take(i + 1).drop_last() =~= s.take(i as int));
        max = larger(max, logits[i]);
        i = i + 1;
    }
    assert(s.take(i as int) =~= s);
    let mut k: usize = 0;
    while k < n
        invariant
            k <= n,
            n == s.len(),
            logits@.len() == n,
            functional::<T>() ==> forall|j: int|
                0 <= j < k ==> #[trigger] logits@[j] == exp(minus(s[j], max)),
            forall|j: int| k <= j < n ==> #[trigger] logits@[j] == s[j],
        decreases n - k,
    {
        let e: T = exp(minus(logits[k], max));
        logits.set(k, e);
        k = k + 1;
    }
    assert(functional::<T>() ==> logits@ =~= softmax::shifted_exps(s, softmax::vector_max(s)));
    share_out(logits);
}

/// Keeps the `k` largest values, and those that compare as equal to the last of
/// them; puts the others out of reach.
fn keep_largest<T: Scalar>(values: &mut Vec<T>, k: usize)
    requires
        0 < k <= old(values)@.len(),
    ensures
        final(values)@.len() == old(values)@.len(),
        functional::<T>() ==> final(values)@ == largest(old(values)@, k as int),
{
    let ghost s = values@;
    let n: usize = values.len();
    let order = ranking(values.as_slice());
    assert(0 <= order@[k - 1] < n);
    let threshold: T = values[order[k - 1]];
    let mut i: usize = 0;
    while i < n
        invariant
            i <= n,
            n == s.len(),
            0 < k <= n,
            values@.len() == n,
            functional::<T>() ==> threshold == s[ranking::order_of(s)[k - 1]],
            functional::<T>() ==> forall|j: int|
                0 <= j < i ==> #[trigger] values@[j] == largest(s, k as int)[j],
            forall|j: int| i <= j < n ==> #[trigger] values@[j] == s[j],
        decreases n - i,
    {
        if less_than(values[i], threshold) {
            values.set(i, lowest());
        }
        i = i + 1;
    }
    assert(functional::<T>() ==> values@ =~= largest(s, k as int));
}

/// Keeps the most likely tokens that reach `p` together.
fn keep_nucleus<T: Scalar>(probs: &mut Vec<T>, p: T)
    ensures
        final(probs)@.len() == old(probs)@.len(),
        functional::<T>() ==> final(probs)@ == nucleus(old(probs)@, p),
{
    let ghost s = probs@;
    let ghost exact = functional::<T>();
    let n: usize = probs.len();
    let order = ranking(probs.as_slice());
    let ghost v = in_order(s);
    let mut sum: T = zero();
    let mut cutoff: usize = 0;
    let mut reached: bool = false;
    assert(v.take(0) =~= Seq::empty());
    while cutoff < n && !reached
        invariant
            cutoff <= n,
            n == s.len(),
            probs@ == s,
            v == in_order(s),
            exact == functional::<T>(),
            ranking::lists(order@, 0, n as int),
            exact ==> ranking::as_places(order@) == ranking::order_of(s),
            exact ==> sum == softmax::total(v.take(cutoff as int)),
            exact && !reached ==> reach(v, p, 0) == reach(v, p, cutoff as int),
            exact && reached ==> reach(v, p, 0) == cutoff,
        decreases n - cutoff,
    {
        assert(0 <= order@[cutoff as int] < n);
        assert(exact ==> v[cutoff as int] == s[order@[cutoff as int] as int]) by {
            assert(ranking::as_places(order@)[cutoff as int] == order@[cutoff as int]);
        }
        assert(v.take(cutoff + 1).drop_last() =~= v.take(cutoff as int));
        sum = plus(sum, probs[order[cutoff]]);
        reached = at_least(sum, p);
        cutoff = cutoff + 1;
    }
    let ghost kept = Seq::new(
        s.len(),
        |i: int|
            if ranking::order_of(s).take(cutoff as int).contains(i) {
                s[i]
            } else {
                zero()
            },
    );
    let mut m: usize = cutoff;
    while m < n
        invariant
            cutoff <= m <= n,
            n == s.len(),
            probs@.len() == n,
            exact == functional::<T>(),
            ranking::lists(order@, 0, n as int),
            exact ==> forall|t: int|
                0 <= t < n ==> probs@[#[trigger] order@[t] as int] == (if cutoff <= t < m {
                    zero()
                } else {
                    s[order@[t] as int]
                }),
        decreases n - m,
    {
        let at: usize = order[m];
        assert(0 <= order@[m as int] < n);
        let ghost earlier = probs@;
        let none: T = zero();
        probs.set(at, none);
        proof {
            if exact {
                assert forall|t: int| 0 <= t < n implies probs@[#[trigger] order@[t] as int] == (
                if cutoff <= t < m + 1 {
                    zero()
                } else {
                    s[order@[t] as int]
                }) by {
                    if t != m {
                        assert(order@[t] != order@[m as int]);
                        assert(probs@[order@[t] as int] == earlier[order@[t] as int]);
                    }
                }
            }
        }
        m = m + 1;
    }
    proof {
        if exact {
            assert forall|i: int| 0 <= i < n implies probs@[i] == kept[i] by {
                ranking::lemma_lists_all(order@, n as int, i);
                let t = choose|t: int| 0 <= t < n && #[trigger] order@[t] == i;
                let front = ranking::order_of(s).take(cutoff as int);
                assert(ranking::as_places(order@)[t] == i);
                if t < cutoff {
                    assert(front[t] == i);
                } else if front.contains(i) {
                    let m = choose|m: int| 0 <= m < front.len() && front[m] == i;
                    assert(ranking::as_places(order@)[m] == order@[m]);
                    assert(order@[m] == order@[t]);
                }
            }
            assert(probs@ =~= kept);
        }
    }
    share_out(probs);
}

/// The token that the number `r` draws.
pub fn draw<T: Scalar>(probs: &[T], r: T) -> (i: usize)
    requires
        probs@.len() > 0,
    ensures
        i < probs@.len(),
        functional::<T>() ==> i == drawn(probs@, r),
{
    let ghost p = probs@;
    let mut sum: T = zero();
    let mut last: usize = 0;
    let mut i: usize = 0;
    assert(p.take(0) =~= Seq::empty());
    while i < probs.len()
        invariant
            p == probs@,
            i <= p.len(),
            p.len() > 0,
            last < p.len(),
            functional::<T>() ==> last == last_kept(p.take(i as int)),
            functional::<T>() ==> sum == softmax::total(p.take(i as int)),
            functional::<T>() ==> drawn(p, r) == drawn_from(p, r, i as int),
        decreases p.len() - i,
    {
        assert(p.take(i + 1).drop_last() =~= p.take(i as int));
        sum = plus(sum, probs[i]);
        if less_than(r, sum) {
            return i;
        }
        if less_than(zero(), probs[i]) {
            last = i;
        }
        i = i + 1;
    }
    assert(p.take(i as int) =~= p);
    last
}

/// Draws a token with the next number of `rng`.
fn sample_from_cdf<T: Scalar>(probs: &[T], rng: &mut XorShift64) -> (r: usize)
    requires
        probs@.len() > 0,
    ensures
        r < probs@.len(),
        final(rng)@ == xorshift(old(rng)@),
        functional::<T>() ==> r == drawn(probs@, unit_of::<T>(xorshift(old(rng)@))),
{
    let u: T = rng.next_f32();
    draw(probs, u)
}

/// Takes the largest logit, the first where there are several.
pub fn sample_greedy<T: Scalar>(logits: &[T]) -> (r: usize)
    requires
        logits@.len() > 0,
    ensures
        r < logits@.len(),
        functional::<T>() ==> r == argmax_of(logits@),
{
    argmax(logits)
}

/// Draws one of the tokens with the `k` largest logits.
pub fn sample_top_k<T: Scalar>(logits: &[T], k: usize, rng: &mut XorShift64) -> (r: usize)
    requires
        logits@.len() > 0,
        k > 0,
    ensures
        r < logits@.len(),
        final(rng)@ == xorshift(old(rng)@),
        functional::<T>() && k >= logits@.len() ==> r == drawn(
            probabilities(logits@),
            unit_of::<T>(xorshift(old(rng)@)),
        ),
        functional::<T>() && k < logits@.len() ==> r == drawn(
            probabilities(largest(logits@, k as int)),
            unit_of::<T>(xorshift(old(rng)@)),
        ),
{
    let mut probs: Vec<T> = slice_to_vec(logits);
    if k < probs.len() {
        keep_largest(&mut probs, k);
    }
    softmax_in_place(&mut probs);
    sample_from_cdf(probs.as_slice(), rng)
}

/// Draws one of the most likely tokens that reach `p` together. A `p` that is not less
/// than 1 leaves nothing out.
pub fn sample_top_p<T: Scalar>(logits: &[T], p: T, rng: &mut XorShift64) -> (r: usize)
    requires
        logits@.len() > 0,
    ensures
        r < logits@.len(),
        final(rng)@ == xorshift(old(rng)@),
        functional::<T>() && less_than(p, one()) ==> r == drawn(
            nucleus(probabilities(logits@), p),
            unit_of::<T>(xorshift(old(rng)@)),
        ),
        functional::<T>() && !less_than(p, one()) ==> r == drawn(
            probabilities(logits@),
            unit_of::<T>(xorshift(old(rng)@)),
        ),
{
    let mut probs: Vec<T> = slice_to_vec(logits);
    softmax_in_place(&mut probs);
    if less_than(p, one()) {
        keep_nucleus(&mut probs, p);
    }
    sample_from_cdf(probs.as_slice(), rng)
}

/// Chooses a token from the logits. `draws` counts the choices that are made: where
/// no seed is given, it is what the seed is derived from.
pub fn sample<T: Scalar>(logits: &[T], config: &SamplingConfig<T>, draws: &mut u64) -> (r: usize)
    requires
        logits@.len() > 0,
        has_start(*config) || (functional::<T>() && config.is_greedy()),
    ensures
        r < logits@.len(),
        *final(draws) == next_count(*old(draws)),
        functional::<T>() ==> r == choice(logits@, *config, *old(draws)),
{
    let n: u64 = if *draws == u64::MAX {
        0
    } else {
        *draws
    };
    *draws = if n == u64::MAX - 1 {
        0
    } else {
        n + 1
    };
    if same_as(config.temperature, zero()) {
        return sample_greedy(logits);
    }
    let ghost exact = functional::<T>();
    let mut scaled: Vec<T> = Vec::with_capacity(logits.len());
    let mut i: usize = 0;
    while i < logits.len()
        invariant
            i <= logits@.len(),
            scaled@.len() == i,
            functional::<T>() ==> forall|j: int|
                0 <= j < i ==> #[trigger] scaled@[j] == over(logits@[j], config.temperature),
        decreases logits@.len() - i,
    {
        scaled.push(over(logits[i], config.temperature));
        i = i + 1;
    }
    assert(functional::<T>() ==> scaled@ =~= tempered(logits@, config.temperature));
    if config.top_k > 0 && config.top_k < scaled.len() {
        keep_largest(&mut scaled, config.top_k);
    }
    softmax_in_place(&mut scaled);
    assert(exact ==> scaled@ == likelihoods(logits@, *config));
    if less_than(config.top_p, one()) {
        keep_nucleus(&mut scaled, config.top_p);
    }
    assert(exact ==> scaled@ == distribution(logits@, *config));
    let seed: u64 = match config.seed {
        Some(seed) => seed,
        None => derive_seed(n),
    };
    let mut rng = XorShift64::new(seed);
    sample_from_cdf(scaled.as_slice(), &mut rng)
}

fn derive_seed(n: u64) -> (r: u64)
    requires
        n < u64::MAX,
    ensures
        r == derived_seed(n),
        r != 0,
{
    proof {
        derived_seeds_differ(n, n);
    }
    let mut rng = XorShift64::new(n + 1);
    let _ = rng.next_u64();
    rng.next_u64()
}

/// A temperature of 0 is greedy, whatever else the configuration says.
pub proof fn temperature_zero_is_greedy<T: Scalar>(
    logits: Seq<T>,
    config: SamplingConfig<T>,
    n: u64,
)
    requires
        same_as(config.temperature, zero::<T>()),
    ensures
        choice(logits, config, n) == argmax_of(logits),
{
}

/// What is chosen is one of the tokens.
pub proof fn choice_is_a_token<T: Scalar>(logits: Seq<T>, config: SamplingConfig<T>, n: u64)
    requires
        logits.len() > 0,
    ensures
        0 <= choice(logits, config, n) < logits.len(),
{
    lemma_argmax_range(logits);
    let p = distribution(logits, config);
    assert(p.len() == logits.len());
    lemma_drawn_range(p, unit_of::<T>(xorshift(config.start_at(n))), 0);
}

proof fn lemma_argmax_range<T: Scalar>(s: Seq<T>)
    requires
        s.len() > 0,
    ensures
        0 <= argmax_of(s) < s.len(),
    decreases s.len(),
{
    if s.len() > 1 {
        lemma_argmax_range(s.drop_last());
    }
}

proof fn lemma_last_kept<T: Scalar>(p: Seq<T>)
    ensures
        0 <= last_kept(p),
        p.len() > 0 ==> last_kept(p) < p.len(),
        (exists|i: int| 0 <= i < p.len() && less_than(zero(), #[trigger] p[i])) ==> less_than(
            zero(),
            p[last_kept(p)],
        ),
    decreases p.len(),
{
    if p.len() > 0 && !less_than(zero(), p.last()) {
        let front = p.drop_last();
        lemma_last_kept(front);
        if exists|i: int| 0 <= i < p.len() && less_than(zero(), #[trigger] p[i]) {
            let i = choose|i: int| 0 <= i < p.len() && less_than(zero(), #[trigger] p[i]);
            assert(front[i] == p[i]);
        }
    }
}

proof fn lemma_drawn_range<T: Scalar>(p: Seq<T>, r: T, i: int)
    requires
        0 <= i,
        p.len() > 0,
    ensures
        0 <= drawn_from(p, r, i) < p.len(),
    decreases p.len() - i,
{
    lemma_last_kept(p);
    if i < p.len() {
        lemma_drawn_range(p, r, i + 1);
    }
}

/// With a seed the choice is a matter of the logits and the configuration alone,
/// however many choices came before.
pub proof fn same_seed_same_choice<T: Scalar>(
    logits: Seq<T>,
    a: SamplingConfig<T>,
    b: SamplingConfig<T>,
    m: u64,
    n: u64,
)
    requires
        a.temperature == b.temperature,
        a.top_k == b.top_k,
        a.top_p == b.top_p,
        a.seed == b.seed,
        a.seed is Some || a.is_greedy(),
    ensures
        choice(logits, a, m) == choice(logits, b, n),
{
}

/// Without a seed two choices in a row draw from different seeds.
pub proof fn choices_in_a_row_draw_from_different_seeds<T: Scalar>(
    config: SamplingConfig<T>,
    n: u64,
)
    requires
        config.seed is None,
    ensures
        config.start_at(n) != config.start_at(next_count(n)),
{
    derived_seeds_differ(n, next_count(n));
}

/// Where the values can be ranked, top-k keeps those that fewer than `k` values are
/// larger than.
pub proof fn top_k_keeps_the_largest<T: Scalar>(s: Seq<T>, k: int, i: int)
    requires
        ranking::weakly_ordered(s),
        0 < k <= s.len() <= usize::MAX,
        0 <= i < s.len(),
    ensures
        largest(s, k)[i] == (if ranking::count_above(s, s[i]) < k {
            s[i]
        } else {
            lowest()
        }),
{
    let order = ranking::lemma_ranking_exists(s);
    lemma_ranking(s, order);
    lemma_threshold(s, order, k, i);
}

/// The token that is drawn is one that was kept: its probability is not zero, wherever
/// one is above zero, adding zero changes no sum, and the number drawn is not below
/// zero. That holds where rounding keeps the sums below the number drawn, too.
pub proof fn drawn_token_was_kept<T: Scalar>(p: Seq<T>, r: T)
    requires
        !less_than(r, zero()),
        !less_than(zero::<T>(), zero()),
        exists|i: int| 0 <= i < p.len() && less_than(zero(), #[trigger] p[i]),
        forall|n: int|
            0 <= n <= p.len() ==> plus(#[trigger] softmax::total(p.take(n)), zero())
                == softmax::total(p.take(n)),
    ensures
        0 <= drawn(p, r) < p.len(),
        p[drawn(p, r)] != zero::<T>(),
{
    assert(p.take(0) =~= Seq::empty());
    lemma_drawn_from(p, r, 0);
    lemma_last_kept(p);
    let i = drawn(p, r);
    if less_than(r, softmax::total(p.take(i + 1))) && !less_than(r, softmax::total(p.take(i))) {
        assert(p.take(i + 1).drop_last() =~= p.take(i));
        assert(p.take(i + 1).last() == p[i]);
        assert(plus(softmax::total(p.take(i)), zero()) == softmax::total(p.take(i)));
    }
}

proof fn lemma_drawn_from<T: Scalar>(p: Seq<T>, r: T, from: int)
    requires
        0 <= from <= p.len(),
        p.len() > 0,
        !less_than(r, softmax::total(p.take(from))),
    ensures
        0 <= drawn_from(p, r, from) < p.len(),
        drawn_from(p, r, from) == last_kept(p) || (less_than(
            r,
            softmax::total(p.take(drawn_from(p, r, from) + 1)),
        ) && !less_than(r, softmax::total(p.take(drawn_from(p, r, from))))),
    decreases p.len() - from,
{
    lemma_last_kept(p);
    if from < p.len() && !less_than(r, softmax::total(p.take(from + 1))) {
        lemma_drawn_from(p, r, from + 1);
    }
}

/// The logits that top-k leaves, the others put out of reach.
pub open spec fn kept_logits<T: Scalar>(logits: Seq<T>, config: SamplingConfig<T>) -> Seq<T> {
    let scaled = tempered(logits, config.temperature);
    if cuts_to_k(logits.len() as int, config.top_k as int) {
        largest(scaled, config.top_k as int)
    } else {
        scaled
    }
}

/// Whether a token that is put out of reach has no share: the power of e of its logit
/// is zero, and zero divided by the sum is zero, before top-p and after it.
pub open spec fn out_of_reach_has_no_share<T: Scalar>(
    logits: Seq<T>,
    config: SamplingConfig<T>,
) -> bool {
    let kept = kept_logits(logits, config);
    let most = softmax::vector_max(kept);
    let q = likelihoods(logits, config);
    &&& exp(minus(lowest::<T>(), most)) == zero::<T>()
    &&& over(zero(), softmax::total(softmax::shifted_exps(kept, most))) == zero::<T>()
    &&& less_than(config.top_p, one()) ==> over(
        zero(),
        softmax::total(cut_to_nucleus(q, config.top_p)),
    ) == zero::<T>()
}

/// Whether the token `i` is one of the `k` tokens with the largest values, or has the
/// same value as one of them.
pub open spec fn in_top_k<T: Scalar>(s: Seq<T>, k: int, i: int) -> bool {
    !less_than(s[i], s[ranking::order_of(s)[k - 1]])
}

/// Whether the token `i` is in the smallest set of likeliest tokens that reach `p`:
/// those before it do not reach `p`.
pub open spec fn in_top_p<T: Scalar>(q: Seq<T>, p: T, i: int) -> bool {
    exists|m: int|
        0 <= m < reach(in_order(q), p, 0) && #[trigger] ranking::order_of(q)[m] == i && (m > 0
            ==> !at_least(softmax::total(in_order(q).take(m)), p))
}

/// Only the tokens that top-k and top-p keep are chosen, wherever a token that is out
/// of reach has no share, and one token has some.
pub proof fn chosen_token_was_kept<T: Scalar>(
    logits: Seq<T>,
    config: SamplingConfig<T>,
    n: u64,
)
    requires
        !config.is_greedy(),
        out_of_reach_has_no_share(logits, config),
        !less_than(unit_of::<T>(xorshift(config.start_at(n))), zero()),
        !less_than(zero::<T>(), zero()),
        ({
            let p = distribution(logits, config);
            &&& exists|i: int| 0 <= i < p.len() && less_than(zero(), #[trigger] p[i])
            &&& forall|c: int|
                0 <= c <= p.len() ==> plus(#[trigger] softmax::total(p.take(c)), zero())
                    == softmax::total(p.take(c))
        }),
    ensures
        ({
            let i = choice(logits, config, n);
            let s = tempered(logits, config.temperature);
            let k = config.top_k as int;
            &&& 0 <= i < logits.len()
            &&& cuts_to_k(logits.len() as int, k) ==> in_top_k(s, k, i)
            &&& cuts_to_k(logits.len() as int, k) && ranking::weakly_ordered(s) && s.len()
                <= usize::MAX ==> ranking::count_above(s, s[i]) < k
            &&& less_than(config.top_p, one()) ==> in_top_p(
                likelihoods(logits, config),
                config.top_p,
                i,
            )
        }),
{
    let p = distribution(logits, config);
    let q = likelihoods(logits, config);
    let s = tempered(logits, config.temperature);
    let k = config.top_k as int;
    let i = choice(logits, config, n);
    drawn_token_was_kept(p, unit_of::<T>(xorshift(config.start_at(n))));
    if less_than(config.top_p, one()) {
        assert(p == nucleus(q, config.top_p));
        let v = in_order(q);
        let kept = reach(v, config.top_p, 0);
        let front = ranking::order_of(q).take(kept);
        assert(front.contains(i) && q[i] != zero::<T>());
        let m = choose|m: int| 0 <= m < front.len() && front[m] == i;
        nucleus_is_the_smallest(v, config.top_p, 0);
        ranking::lemma_order_len(q);
        assert(ranking::order_of(q)[m] == i);
        if m > 0 {
            assert(!at_least(softmax::total(v.take(m)), config.top_p));
        }
    }
    assert(q[i] != zero::<T>());
    if cuts_to_k(logits.len() as int, k) {
        assert(in_top_k(s, k, i));
        if ranking::weakly_ordered(s) && s.len() <= usize::MAX {
            let order = ranking::lemma_ranking_exists(s);
            lemma_ranking(s, order);
            lemma_threshold(s, order, k, i);
        }
    }
}

/// Top-k keeps no value while it leaves out a larger one.
pub proof fn keeping_the_largest<T: Scalar>(s: Seq<T>, k: int, i: int, j: int)
    requires
        ranking::weakly_ordered(s),
        0 <= i < s.len(),
        0 <= j < s.len(),
        0 < k <= s.len() <= usize::MAX,
        ranking::count_above(s, s[i]) < k,
        less_than(s[i], s[j]),
    ensures
        ranking::count_above(s, s[j]) < k,
        largest(s, k)[j] == s[j],
{
    top_k_keeps_the_largest(s, k, j);
    let (a, b) = (ranking::places_above(s, s[j]), ranking::places_above(s, s[i]));
    let n = s.len() as int;
    vstd::set_lib::lemma_int_range(0, n);
    vstd::set_lib::lemma_len_subset(b, vstd::set_lib::set_int_range(0, n));
    assert(a.subset_of(b)) by {
        assert forall|x: int| a.contains(x) implies b.contains(x) by {
            assert(less_than(s[j], s[x]));
            assert(!less_than(s[j], s[i]));
            assert(less_than(s[j], s[i]) || less_than(s[i], s[x]));
        }
    }
    vstd::set_lib::lemma_len_subset(a, b);
}

/// The nucleus is the smallest number of most likely tokens that reach `p`: it
/// reaches `p` or is everything, and no smaller number, but none at all, reaches
/// it. It is never empty.
pub proof fn nucleus_is_the_smallest<T: Scalar>(v: Seq<T>, p: T, m: int)
    requires
        0 <= m <= v.len(),
    ensures
        m <= reach(v, p, m) <= v.len(),
        m < v.len() ==> m < reach(v, p, m),
        reach(v, p, m) == v.len() || at_least(softmax::total(v.take(reach(v, p, m))), p),
        forall|c: int|
            m < c < reach(v, p, m) ==> !at_least(softmax::total(#[trigger] v.take(c)), p),
    decreases v.len() - m,
{
    if m < v.len() && !at_least(softmax::total(v.take(m + 1)), p) {
        nucleus_is_the_smallest(v, p, m + 1);
    }
}

/// Where the values can be ranked, the greedy choice is a largest value, and the
/// first of those.
pub proof fn argmax_is_the_first_largest<T: Scalar>(s: Seq<T>)
    requires
        s.len() > 0,
        ranking::weakly_ordered(s),
    ensures
        0 <= argmax_of(s) < s.len(),
        forall|j: int| 0 <= j < s.len() ==> !less_than(s[argmax_of(s)], #[trigger] s[j]),
        forall|j: int| 0 <= j < argmax_of(s) ==> less_than(#[trigger] s[j], s[argmax_of(s)]),
    decreases s.len(),
{
    if s.len() > 1 {
        let front = s.drop_last();
        assert forall|i: int, j: int|
            0 <= i < front.len() && 0 <= j < front.len() && #[trigger] less_than(
                front[i],
                front[j],
            ) implies !less_than(front[j], front[i]) by {
            assert(less_than(s[i], s[j]));
        }
        assert forall|i: int, j: int, k: int|
            #![trigger less_than(front[i], front[k]), less_than(front[i], front[j])]
            #![trigger less_than(front[i], front[k]), less_than(front[j], front[k])]
            0 <= i < front.len() && 0 <= j < front.len() && 0 <= k < front.len() && less_than(
                front[i],
                front[k],
            ) implies less_than(front[i], front[j]) || less_than(front[j], front[k]) by {
            assert(less_than(s[i], s[k]));
            assert(less_than(s[i], s[j]) || less_than(s[j], s[k]));
        }
        argmax_is_the_first_largest(front);
        let b = argmax_of(front);
        let n = s.len() - 1;
        assert(front[b] == s[b]);
        if less_than(s[b], s[n]) {
            assert forall|j: int| 0 <= j < n implies less_than(#[trigger] s[j], s[n]) by {
                assert(!less_than(front[b], front[j]));
                assert(less_than(s[b], s[j]) || less_than(s[j], s[n]));
            }
            assert forall|j: int| 0 <= j < s.len() implies !less_than(s[n], #[trigger] s[j]) by {
                if j == n {
                    if less_than(s[n], s[n]) {
                        assert(!less_than(s[n], s[n]));
                    }
                } else {
                    assert(less_than(s[j], s[n]));
                }
            }
        } else {
            assert forall|j: int| 0 <= j < s.len() implies !less_than(s[b], #[trigger] s[j]) by {
                if j < n {
                    assert(!less_than(front[b], front[j]));
                }
            }
            assert forall|j: int| 0 <= j < b implies less_than(#[trigger] s[j], s[b]) by {
                assert(less_than(front[j], front[b]));
            }
        }
    } else {
        if less_than(s[0], s[0]) {
            assert(!less_than(s[0], s[0]));
        }
    }
}

/// The temperature divides the logits, once: sampling at a temperature is sampling, at a
/// temperature that divides nothing, of the logits divided by it.
pub proof fn temperature_divides_once<T: Scalar>(
    logits: Seq<T>,
    quotients: Seq<T>,
    config: SamplingConfig<T>,
    plain: SamplingConfig<T>,
    n: u64,
)
    requires
        !config.is_greedy(),
        !plain.is_greedy(),
        plain == (SamplingConfig { temperature: plain.temperature, ..config }),
        quotients.len() == logits.len(),
        forall|i: int|
            0 <= i < logits.len() ==> #[trigger] quotients[i] == over(
                logits[i],
                config.temperature,
            ),
        forall|i: int|
            0 <= i < logits.len() ==> over(#[trigger] quotients[i], plain.temperature)
                == quotients[i],
    ensures
        likelihoods(logits, config) == likelihoods(quotients, plain),
        distribution(logits, config) == distribution(quotients, plain),
        choice(logits, config, n) == choice(quotients, plain, n),
{
    assert(tempered(logits, config.temperature) =~= quotients);
    assert(tempered(quotients, plain.temperature) =~= quotients);
}

/// Tokens are drawn by e to their logits over the temperature: where neither top-k nor
/// top-p leaves anything out, the ratio of two probabilities is e to the difference of the
/// two logits, each divided by the temperature, wherever a common divisor and a common
/// shift cancel.
pub proof fn temperature_sets_the_ratios<T: Scalar>(
    logits: Seq<T>,
    config: SamplingConfig<T>,
    i: int,
    j: int,
)
    requires
        config.top_k == 0 || config.top_k >= logits.len(),
        !less_than(config.top_p, one()),
        0 <= i < logits.len(),
        0 <= j < logits.len(),
        forall|a: T, b: T, s: T|
            less_than(zero(), s) ==> #[trigger] over(over(a, s), over(b, s)) == over(a, b),
        forall|a: T, b: T, m: T| #[trigger] minus(minus(a, m), minus(b, m)) == minus(a, b),
        forall|a: T, b: T| #[trigger] over(exp(a), exp(b)) == exp(minus(a, b)),
    ensures
        distribution(logits, config).len() == logits.len(),
        over(distribution(logits, config)[i], distribution(logits, config)[j]) == exp(
            minus(over(logits[i], config.temperature), over(logits[j], config.temperature)),
        ),
{
    let s = tempered(logits, config.temperature);
    let m = softmax::vector_max(s);
    let e = softmax::shifted_exps(s, m);
    let sum = softmax::total(e);
    assert(distribution(logits, config) == shared_out(e));
    assert(over(e[i], e[j]) == exp(minus(minus(s[i], m), minus(s[j], m))));
    if less_than(zero(), sum) {
        assert(over(over(e[i], sum), over(e[j], sum)) == over(e[i], e[j]));
    }
}

/// What leaves nothing out changes nothing: a top-k of zero, or of as many as there are
/// tokens, and a top-p that is not below one.
pub proof fn leaving_nothing_out<T: Scalar>(
    logits: Seq<T>,
    config: SamplingConfig<T>,
    other: SamplingConfig<T>,
    n: u64,
)
    requires
        other.temperature == config.temperature,
        other.seed == config.seed,
        config.top_k == 0 || config.top_k >= logits.len(),
        other.top_k == 0 || other.top_k >= logits.len(),
        config.top_p == other.top_p || !less_than(config.top_p, one()) && !less_than(
            other.top_p,
            one(),
        ),
    ensures
        distribution(logits, config) == distribution(logits, other),
        choice(logits, config, n) == choice(logits, other, n),
{
}

/// Top-k and then top-p: what is left out by top-k is left out before probabilities are
/// shared out, and sampling with top-k is sampling, without it, of the logits over the
/// temperature with the others put out of reach.
pub proof fn top_k_comes_before_sharing<T: Scalar>(
    logits: Seq<T>,
    kept: Seq<T>,
    config: SamplingConfig<T>,
    plain: SamplingConfig<T>,
    n: u64,
)
    requires
        !config.is_greedy(),
        !plain.is_greedy(),
        plain.top_k == 0,
        plain.top_p == config.top_p,
        plain.seed == config.seed,
        0 < config.top_k < logits.len() <= usize::MAX,
        ranking::weakly_ordered(tempered(logits, config.temperature)),
        kept.len() == logits.len(),
        forall|i: int|
            0 <= i < logits.len() ==> #[trigger] kept[i] == (if ranking::count_above(
                tempered(logits, config.temperature),
                over(logits[i], config.temperature),
            ) < config.top_k {
                over(logits[i], config.temperature)
            } else {
                lowest()
            }),
        forall|i: int|
            0 <= i < logits.len() ==> over(#[trigger] kept[i], plain.temperature) == kept[i],
    ensures
        distribution(logits, config) == distribution(kept, plain),
        choice(logits, config, n) == choice(kept, plain, n),
{
    let s = tempered(logits, config.temperature);
    let k = config.top_k as int;
    assert(largest(s, k) =~= kept) by {
        assert forall|i: int| 0 <= i < s.len() implies largest(s, k)[i] == kept[i] by {
            top_k_keeps_the_largest(s, k, i);
            assert(s[i] == over(logits[i], config.temperature));
        }
    }
    assert(tempered(kept, plain.temperature) =~= kept);
}

/// The token drawn is the first at which the sum of the probabilities exceeds the number,
/// where some sum does.
pub proof fn drawing_goes_by_the_sums<T: Scalar>(p: Seq<T>, r: T, i: int)
    requires
        0 <= i < p.len(),
        less_than(r, softmax::total(p.take(i + 1))),
        forall|m: int|
            0 <= m < i ==> !less_than(r, #[trigger] softmax::total(p.take(m + 1))),
    ensures
        drawn(p, r) == i,
{
    lemma_first_above(p, r, i, 0);
}

proof fn lemma_first_above<T: Scalar>(p: Seq<T>, r: T, i: int, from: int)
    requires
        0 <= from <= i < p.len(),
        less_than(r, softmax::total(p.take(i + 1))),
        forall|m: int|
            0 <= m < i ==> !less_than(r, #[trigger] softmax::total(p.take(m + 1))),
    ensures
        drawn_from(p, r, from) == i,
    decreases i - from,
{
    if from < i {
        assert(!less_than(r, softmax::total(p.take(from + 1))));
        lemma_first_above(p, r, i, from + 1);
    }
}

/// The number drawn is a matter of the upper 24 bits: a state with the number `n` in them
/// draws `n` over 2 to the 24th, whatever its other bits are.
pub proof fn drawn_numbers_are_even_steps<T: Scalar>(n: u64, low: u64)
    requires
        n < 0x100_0000,
        low < 0x100_0000_0000,
    ensures
        unit_of::<T>((n << 40) | low) == over(from_count::<T>(n), from_count(0x100_0000)),
{
    assert(((n << 40) | low) >> 40 == n) by (bit_vector)
        requires
            n < 0x100_0000,
            low < 0x100_0000_0000,
    ;
}

/// Top-p keeps the likeliest: what it keeps keeps its probability, what it leaves out has
/// none, and nothing that it keeps is less likely than what it leaves out.
pub proof fn nucleus_keeps_the_likeliest<T: Scalar>(s: Seq<T>, p: T, i: int, j: int)
    requires
        ranking::weakly_ordered(s),
        s.len() <= usize::MAX,
        0 <= i < s.len(),
        0 <= j < s.len(),
    ensures
        cut_to_nucleus(s, p).len() == s.len(),
        cut_to_nucleus(s, p)[i] == s[i] || cut_to_nucleus(s, p)[i] == zero::<T>(),
        cut_to_nucleus(s, p)[i] != zero::<T>() && cut_to_nucleus(s, p)[j] != s[j] ==> !less_than(
            s[i],
            s[j],
        ),
{
    let order = ranking::lemma_ranking_exists(s);
    lemma_ranking(s, order);
    let kept = reach(in_order(s), p, 0);
    nucleus_is_the_smallest(in_order(s), p, 0);
    let places = ranking::order_of(s);
    let front = places.take(kept);
    if front.contains(i) && !front.contains(j) {
        let a = choose|a: int| 0 <= a < front.len() && front[a] == i;
        ranking::lemma_lists_all(order, s.len() as int, j);
        let b = choose|b: int| 0 <= b < order.len() && #[trigger] order[b] == j;
        assert(places[a] == i && places[b] == j);
        if b < kept {
            assert(front[b] == j);
        }
        assert(ranking::before(s, order[a] as int, order[b] as int));
    }
}

/// Where no sum of the probabilities exceeds the number, the last token that has a
/// probability is drawn.
pub proof fn drawing_falls_back_to_the_last<T: Scalar>(p: Seq<T>, r: T, i: int)
    requires
        0 <= i < p.len(),
        forall|m: int|
            0 <= m < p.len() ==> !less_than(r, #[trigger] softmax::total(p.take(m + 1))),
        less_than(zero(), p[i]),
        forall|m: int| i < m < p.len() ==> !less_than(zero(), #[trigger] p[m]),
    ensures
        drawn(p, r) == i,
{
    lemma_none_above(p, r, 0);
    lemma_last_kept_is(p, i);
}

proof fn lemma_none_above<T: Scalar>(p: Seq<T>, r: T, from: int)
    requires
        0 <= from <= p.len(),
        forall|m: int|
            0 <= m < p.len() ==> !less_than(r, #[trigger] softmax::total(p.take(m + 1))),
    ensures
        drawn_from(p, r, from) == last_kept(p),
    decreases p.len() - from,
{
    if from < p.len() {
        assert(!less_than(r, softmax::total(p.take(from + 1))));
        lemma_none_above(p, r, from + 1);
    }
}

proof fn lemma_last_kept_is<T: Scalar>(p: Seq<T>, i: int)
    requires
        0 <= i < p.len(),
        less_than(zero(), p[i]),
        forall|m: int| i < m < p.len() ==> !less_than(zero(), #[trigger] p[m]),
    ensures
        last_kept(p) == i,
    decreases p.len(),
{
    if i < p.len() - 1 {
        assert(!less_than(zero(), p[p.len() - 1]));
        let front = p.drop_last();
        assert forall|m: int| i < m < front.len() implies !less_than(
            zero(),
            #[trigger] front[m],
        ) by {
            assert(front[m] == p[m]);
        }
        lemma_last_kept_is(front, i);
    }
}

/// Sharing out keeps the ratios: where the sum is positive, each value is divided by it, so
/// that the values add up to one, and where it is not, they stay as they are.
pub proof fn sharing_out_keeps_ratios<T: Scalar>(s: Seq<T>, i: int, j: int)
    requires
        0 <= i < s.len(),
        0 <= j < s.len(),
        ({
            let sum = softmax::total(s);
            &&& over(over(s[i], sum), over(s[j], sum)) == over(s[i], s[j])
            &&& over(zero(), sum) == zero::<T>()
            &&& over(sum, sum) == one::<T>()
            &&& forall|a: T, b: T| #[trigger]
                over(plus(a, b), sum) == plus(over(a, sum), over(b, sum))
        }),
    ensures
        over(shared_out(s)[i], shared_out(s)[j]) == over(s[i], s[j]),
        less_than(zero(), softmax::total(s)) ==> softmax::total(shared_out(s)) == one::<T>(),
        !less_than(zero(), softmax::total(s)) ==> shared_out(s) == s,
{
    softmax::shares_add_up_to_one(s);
    if less_than(zero(), softmax::total(s)) {
        assert(shared_out(s) =~= softmax::shares(s));
    }
}

/// Top-p comes last: it cuts what tokens would be drawn by without it, and shares out what
/// is left.
pub proof fn top_p_comes_last<T: Scalar>(
    logits: Seq<T>,
    config: SamplingConfig<T>,
    plain: SamplingConfig<T>,
)
    requires
        plain == (SamplingConfig { top_p: plain.top_p, ..config }),
        less_than(config.top_p, one()),
        !less_than(plain.top_p, one()),
    ensures
        distribution(logits, config) == shared_out(
            cut_to_nucleus(distribution(logits, plain), config.top_p),
        ),
{
}

/// Chance decides by one number alone: the choice is the same wherever the generator, one
/// step on from where it starts, has the same upper bits.
pub proof fn one_number_decides<T: Scalar>(
    logits: Seq<T>,
    a: SamplingConfig<T>,
    b: SamplingConfig<T>,
    m: u64,
    n: u64,
)
    requires
        b == (SamplingConfig { seed: b.seed, ..a }),
        xorshift(a.start_at(m)) >> 40 == xorshift(b.start_at(n)) >> 40,
    ensures
        choice(logits, a, m) == choice(logits, b, n),
        a.seed matches Some(seed) ==> a.start_at(m) == seed,
{
}

/// Any temperature but zero draws: the token is the one that the first number of the
/// generator draws by the probabilities.
pub proof fn other_temperatures_draw<T: Scalar>(
    logits: Seq<T>,
    config: SamplingConfig<T>,
    n: u64,
)
    requires
        !same_as(config.temperature, zero::<T>()),
    ensures
        choice(logits, config, n) == drawn(
            distribution(logits, config),
            unit_of::<T>(xorshift(config.start_at(n))),
        ),
{
}

/// The largest logit is taken off before powers of e are taken: probabilities are shared
/// out among powers of e of numbers that are not above zero, the logits less a number that
/// none of them is above, wherever the larger of two numbers is below none that one of the
/// two is not below.
pub proof fn largest_logit_is_taken_off<T: Scalar>(s: Seq<T>)
    requires
        forall|d: int| 0 <= d < s.len() ==> !less_than(#[trigger] s[d], s[d]),
        forall|a: T, b: T, d: int|
            #![trigger larger(a, b), s[d]]
            0 <= d < s.len() && (!less_than(a, s[d]) || !less_than(b, s[d])) ==> !less_than(
                larger(a, b),
                s[d],
            ),
    ensures
        exists|m: T|
            {
                &&& #[trigger] softmax::none_above(s, m)
                &&& probabilities(s) == shared_out(
                    Seq::new(s.len(), |e: int| exp(minus(s[e], m))),
                )
            },
{
    let m = softmax::vector_max(s);
    assert(softmax::shifted_exps(s, m) =~= Seq::new(s.len(), |e: int| exp(minus(s[e], m))));
    assert forall|d: int| 0 <= d < s.len() implies !less_than(m, #[trigger] s[d]) by {
        softmax::largest_of_a_vector_is_no_smaller(s, d);
    }
    assert(softmax::none_above(s, m));
}

} // verus!
