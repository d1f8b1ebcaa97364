//! The period of the xorshift generator.
//!
//! The steps of the generator obey a polynomial among whose powers x runs through
//! every polynomial but zero before it is back at one. So the generator runs through
//! every number but zero before it is back where it started.
use crate::exponents;
use crate::powers::{
    is_additive, lemma_select_power, lemma_selected_sum, lemma_times_power, lemma_times_x, power,
    selected, REDUCED,
};
use crate::sampling::{after_steps, repeating_is_returning, steps_avoid_zero, xorshift};
use vstd::prelude::*;

verus! {

/// The number of steps of a full period: the number of the numbers that are not zero.
pub open spec fn full() -> nat {
    0xffff_ffff_ffff_ffff
}

/// No power of x is zero.
proof fn lemma_power_not_zero(k: nat)
    ensures
        power(k) != 0,
    decreases k,
{
    if k > 0 {
        lemma_power_not_zero((k - 1) as nat);
        lemma_times_x(power((k - 1) as nat), 0);
    }
}

/// Two powers that are the same are as far apart as a return to one.
proof fn lemma_same_powers(i: nat, j: nat)
    requires
        i <= j,
        power(i) == power(j),
    ensures
        power((j - i) as nat) == 1,
    decreases i,
{
    if i > 0 {
        let (a, b) = ((i - 1) as nat, (j - 1) as nat);
        lemma_times_x(power(a), power(b));
        lemma_same_powers(a, b);
    }
}

/// After a return to one the powers come again.
proof fn lemma_powers_repeat(d: nat, t: nat, r: nat)
    requires
        power(d) == 1,
    ensures
        power(d * t + r) == power(r),
    decreases t,
{
    if t > 0 {
        let u = (t - 1) as nat;
        lemma_powers_repeat(d, u, r);
        lemma_times_power(d, d * u + r);
        assert(d + (d * u + r) == d * t + r) by (nonlinear_arith)
            requires
                t == u + 1,
        ;
    } else {
        assert(d * t == 0) by (nonlinear_arith)
            requires
                t == 0,
        ;
    }
}

/// Whether `p` is a product of one and itself only.
spec fn is_prime(p: nat) -> bool {
    p > 1 && forall|a: nat, b: nat| #[trigger] (a * b) == p ==> a == 1 || a == p
}

proof fn lemma_primes()
    ensures
        is_prime(3),
        is_prime(5),
        is_prime(17),
        is_prime(257),
        is_prime(641),
        is_prime(65537),
        is_prime(6700417),
{
    assert(is_prime(3)) by {
        assert forall|a: nat, b: nat| #[trigger] (a * b) == 3 implies a == 1 || a == 3 by {
            lemma_factor(3, a, b);
        }
    }
    assert(is_prime(5)) by {
        assert forall|a: nat, b: nat| #[trigger] (a * b) == 5 implies a == 1 || a == 5 by {
            lemma_factor(5, a, b);
        }
    }
    assert(is_prime(17)) by {
        assert forall|a: nat, b: nat| #[trigger] (a * b) == 17 implies a == 1 || a == 17 by {
            lemma_factor(17, a, b);
        }
    }
    assert(is_prime(257)) by {
        assert forall|a: nat, b: nat| #[trigger] (a * b) == 257 implies a == 1 || a == 257 by {
            lemma_factor(257, a, b);
        }
    }
    assert(is_prime(641)) by {
        assert forall|a: nat, b: nat| #[trigger] (a * b) == 641 implies a == 1 || a == 641 by {
            lemma_factor(641, a, b);
        }
    }
    assert(is_prime(65537)) by {
        assert forall|a: nat, b: nat| #[trigger] (a * b) == 65537 implies a == 1 || a == 65537 by {
            lemma_factor(65537, a, b);
        }
    }
    assert(is_prime(6700417)) by {
        assert forall|a: nat, b: nat| #[trigger] (a * b) == 6700417 implies a == 1 || a
            == 6700417 by {
            lemma_factor(6700417, a, b);
        }
    }
}

/// Whether `p` is one of the prime factors of the full period.
spec fn is_factor(p: nat) -> bool {
    p == 3 || p == 5 || p == 17 || p == 257 || p == 641 || p == 65537 || p == 6700417
}

proof fn lemma_factor(p: nat, a: nat, b: nat)
    requires
        is_factor(p),
        a * b == p,
    ensures
        a == 1 || a == p,
{
    assert(0 < a <= p && 0 < b <= p) by (nonlinear_arith)
        requires
            a * b == p,
            p > 0,
    ;
    let (x, y) = (a as u32, b as u32);
    assert(x <= 6700417 && y <= 6700417 ==> {
        &&& x * y == 3 ==> x == 1 || x == 3
        &&& x * y == 5 ==> x == 1 || x == 5
        &&& x * y == 17 ==> x == 1 || x == 17
        &&& x * y == 257 ==> x == 1 || x == 257
        &&& x * y == 641 ==> x == 1 || x == 641
        &&& x * y == 65537 ==> x == 1 || x == 65537
        &&& x * y == 6700417 ==> x == 1 || x == 6700417
    }) by (bit_vector);
}

/// The states of the generator from 1 on.
spec fn states() -> spec_fn(nat) -> u64 {
    |i: nat| after_steps(1, i)
}

/// Whether bit `i` of the polynomial is set, and adding `state` to `sum` gives `next`.
spec fn takes(sum: u64, i: u128, state: u64, next: u64) -> bool {
    ((REDUCED as u128) >> i) & 1 == 1u128 && sum ^ state == next
}

/// Whether bit `i` of the polynomial is not set.
spec fn passes_over(sum: u64, i: u128) -> bool {
    ((REDUCED as u128) >> i) & 1 == 0u128 && sum ^ 0 == sum
}

proof fn lemma_next_state(i: nat, state: u64, next: u64, sum: u64, more: u64)
    requires
        i < 64,
        after_steps(1, i) == state,
        xorshift(state) == next,
        selected(states(), REDUCED as u128, i) == sum,
        takes(sum, i as u128, state, more) || (passes_over(sum, i as u128) && more == sum),
    ensures
        after_steps(1, i + 1) == next,
        selected(states(), REDUCED as u128, i + 1) == more,
{
    assert(states()(i) == state);
}

/// The steps of the generator obey the polynomial.
proof fn lemma_polynomial()
    ensures
        selected(states(), REDUCED as u128, 64) == after_steps(1, 64),
{
    assert({
        &&& xorshift(0x0000000000000001) == 0x0000000040822041u64
        &&& xorshift(0x0000000040822041) == 0x100041060c011441u64
        &&& xorshift(0x100041060c011441) == 0x9b1e842f6e862629u64
        &&& xorshift(0x9b1e842f6e862629) == 0xf554f503555d8025u64
        &&& xorshift(0xf554f503555d8025) == 0x860c1fb090599265u64
        &&& xorshift(0x860c1fb090599265) == 0xf6b05302e5531801u64
        &&& xorshift(0xf6b05302e5531801) == 0xa2460108ebbd9e71u64
        &&& xorshift(0xa2460108ebbd9e71) == 0xc62c9fc114d9590du64
        &&& xorshift(0xc62c9fc114d9590d) == 0x7d3e032e9a7908ffu64
        &&& xorshift(0x7d3e032e9a7908ff) == 0x73a397e1324c252eu64
        &&& xorshift(0x73a397e1324c252e) == 0x1ccac1c38a4c36e4u64
        &&& xorshift(0x1ccac1c38a4c36e4) == 0xefad64f8379b9789u64
        &&& xorshift(0xefad64f8379b9789) == 0x4e2aa10f962c62e6u64
        &&& xorshift(0x4e2aa10f962c62e6) == 0x90e459e5090243a3u64
        &&& xorshift(0x90e459e5090243a3) == 0x8986dedd543ccfe4u64
        &&& xorshift(0x8986dedd543ccfe4) == 0xcf9d3e05e6adcf7bu64
        &&& xorshift(0xcf9d3e05e6adcf7b) == 0x1b26c62dabb62a25u64
        &&& xorshift(0x1b26c62dabb62a25) == 0xa91f05e3064d6f31u64
        &&& xorshift(0xa91f05e3064d6f31) == 0x0ef1de18cda219afu64
        &&& xorshift(0x0ef1de18cda219af) == 0x711f0d367b32d65cu64
        &&& xorshift(0x711f0d367b32d65c) == 0xf231b2a1c85aa4f0u64
        &&& xorshift(0xf231b2a1c85aa4f0) == 0x4496d347928f2db9u64
        &&& xorshift(0x4496d347928f2db9) == 0x256b6af8a0927da2u64
        &&& xorshift(0x256b6af8a0927da2) == 0x648a63e7d94a71d9u64
        &&& xorshift(0x648a63e7d94a71d9) == 0xc35961406cabb37au64
        &&& xorshift(0xc35961406cabb37a) == 0xf2b6efee45c97a9cu64
        &&& xorshift(0xf2b6efee45c97a9c) == 0x4d2639865a9dcf69u64
        &&& xorshift(0x4d2639865a9dcf69) == 0x35624e5c55d80eb7u64
        &&& xorshift(0x35624e5c55d80eb7) == 0x528da2237c72f36au64
        &&& xorshift(0x528da2237c72f36a) == 0x5b68ae8160438c0cu64
        &&& xorshift(0x5b68ae8160438c0c) == 0xa93df44f13c98814u64
        &&& xorshift(0xa93df44f13c98814) == 0xebafe30772869e04u64
        &&& xorshift(0xebafe30772869e04) == 0x317a8f442a749238u64
        &&& xorshift(0x317a8f442a749238) == 0x3c6e7499477bf51cu64
        &&& xorshift(0x3c6e7499477bf51c) == 0xbe850d995e47c5f6u64
        &&& xorshift(0xbe850d995e47c5f6) == 0x8b324174ea4ef7fdu64
        &&& xorshift(0x8b324174ea4ef7fd) == 0x09907835247c3552u64
        &&& xorshift(0x09907835247c3552) == 0xe49c5e2464e3d9b8u64
        &&& xorshift(0xe49c5e2464e3d9b8) == 0xa9bcbccb8ffd700bu64
        &&& xorshift(0xa9bcbccb8ffd700b) == 0x330515d199e9e82bu64
        &&& xorshift(0x330515d199e9e82b) == 0x21dea3ebdfd3513bu64
        &&& xorshift(0x21dea3ebdfd3513b) == 0xcb0bb29e242dd959u64
        &&& xorshift(0xcb0bb29e242dd959) == 0x31cd9686416ef4abu64
        &&& xorshift(0x31cd9686416ef4ab) == 0x4a36f59e0fc06382u64
        &&& xorshift(0x4a36f59e0fc06382) == 0xe9b1a160483d43c5u64
        &&& xorshift(0xe9b1a160483d43c5) == 0xfa48cc3dff816802u64
        &&& xorshift(0xfa48cc3dff816802) == 0x385c7f621d802a52u64
        &&& xorshift(0x385c7f621d802a52) == 0x0f88255c41f7fe86u64
        &&& xorshift(0x0f88255c41f7fe86) == 0xdf451c8e9aad70fbu64
        &&& xorshift(0xdf451c8e9aad70fb) == 0xb0a463f26b6f74dau64
        &&& xorshift(0xb0a463f26b6f74da) == 0x0926ef3d0399dcb3u64
        &&& xorshift(0x0926ef3d0399dcb3) == 0x4ec9852fe3eba3cau64
        &&& xorshift(0x4ec9852fe3eba3ca) == 0x3dd0c4dbbea7c60du64
        &&& xorshift(0x3dd0c4dbbea7c60d) == 0x6dd395bc0d68aac1u64
        &&& xorshift(0x6dd395bc0d68aac1) == 0xa728a838eda8ebd4u64
        &&& xorshift(0xa728a838eda8ebd4) == 0x66863c817535cf03u64
        &&& xorshift(0x66863c817535cf03) == 0xdc53389b8bf6045du64
        &&& xorshift(0xdc53389b8bf6045d) == 0x28dbcaa03fc15f15u64
        &&& xorshift(0x28dbcaa03fc15f15) == 0xf4a99ad5d5ddb8ebu64
        &&& xorshift(0xf4a99ad5d5ddb8eb) == 0x4a21ba240cb1595au64
        &&& xorshift(0x4a21ba240cb1595a) == 0x9e15766f19052d68u64
        &&& xorshift(0x9e15766f19052d68) == 0x787363c7d9b57d32u64
        &&& xorshift(0x787363c7d9b57d32) == 0x0ba2a63ea26f1b48u64
        &&& xorshift(0x0ba2a63ea26f1b48) == 0x2ef4f79f8978177eu64
    }) by (bit_vector);
    assert({
        &&& takes(0x0000000000000000, 0, 0x0000000000000001, 0x0000000000000001)
        &&& passes_over(0x0000000000000001, 1)
        &&& passes_over(0x0000000000000001, 2)
        &&& passes_over(0x0000000000000001, 3)
        &&& passes_over(0x0000000000000001, 4)
        &&& passes_over(0x0000000000000001, 5)
        &&& passes_over(0x0000000000000001, 6)
        &&& passes_over(0x0000000000000001, 7)
        &&& passes_over(0x0000000000000001, 8)
        &&& takes(0x0000000000000001, 9, 0x7d3e032e9a7908ff, 0x7d3e032e9a7908fe)
        &&& passes_over(0x7d3e032e9a7908fe, 10)
        &&& passes_over(0x7d3e032e9a7908fe, 11)
        &&& takes(0x7d3e032e9a7908fe, 12, 0xefad64f8379b9789, 0x929367d6ade29f77)
        &&& takes(0x929367d6ade29f77, 13, 0x4e2aa10f962c62e6, 0xdcb9c6d93bcefd91)
        &&& passes_over(0xdcb9c6d93bcefd91, 14)
        &&& passes_over(0xdcb9c6d93bcefd91, 15)
        &&& takes(0xdcb9c6d93bcefd91, 16, 0xcf9d3e05e6adcf7b, 0x1324f8dcdd6332ea)
        &&& passes_over(0x1324f8dcdd6332ea, 17)
        &&& passes_over(0x1324f8dcdd6332ea, 18)
        &&& passes_over(0x1324f8dcdd6332ea, 19)
        &&& takes(0x1324f8dcdd6332ea, 20, 0x711f0d367b32d65c, 0x623bf5eaa651e4b6)
        &&& passes_over(0x623bf5eaa651e4b6, 21)
        &&& passes_over(0x623bf5eaa651e4b6, 22)
        &&& takes(0x623bf5eaa651e4b6, 23, 0x256b6af8a0927da2, 0x47509f1206c39914)
        &&& passes_over(0x47509f1206c39914, 24)
        &&& passes_over(0x47509f1206c39914, 25)
        &&& passes_over(0x47509f1206c39914, 26)
        &&& takes(0x47509f1206c39914, 27, 0x4d2639865a9dcf69, 0x0a76a6945c5e567d)
        &&& takes(0x0a76a6945c5e567d, 28, 0x35624e5c55d80eb7, 0x3f14e8c8098658ca)
        &&& passes_over(0x3f14e8c8098658ca, 29)
        &&& takes(0x3f14e8c8098658ca, 30, 0x5b68ae8160438c0c, 0x647c464969c5d4c6)
        &&& passes_over(0x647c464969c5d4c6, 31)
        &&& takes(0x647c464969c5d4c6, 32, 0xebafe30772869e04, 0x8fd3a54e1b434ac2)
        &&& takes(0x8fd3a54e1b434ac2, 33, 0x317a8f442a749238, 0xbea92a0a3137d8fa)
        &&& passes_over(0xbea92a0a3137d8fa, 34)
        &&& passes_over(0xbea92a0a3137d8fa, 35)
        &&& passes_over(0xbea92a0a3137d8fa, 36)
        &&& takes(0xbea92a0a3137d8fa, 37, 0x09907835247c3552, 0xb739523f154beda8)
        &&& passes_over(0xb739523f154beda8, 38)
        &&& takes(0xb739523f154beda8, 39, 0xa9bcbccb8ffd700b, 0x1e85eef49ab69da3)
        &&& passes_over(0x1e85eef49ab69da3, 40)
        &&& passes_over(0x1e85eef49ab69da3, 41)
        &&& takes(0x1e85eef49ab69da3, 42, 0xcb0bb29e242dd959, 0xd58e5c6abe9b44fa)
        &&& passes_over(0xd58e5c6abe9b44fa, 43)
        &&& takes(0xd58e5c6abe9b44fa, 44, 0x4a36f59e0fc06382, 0x9fb8a9f4b15b2778)
        &&& passes_over(0x9fb8a9f4b15b2778, 45)
        &&& takes(0x9fb8a9f4b15b2778, 46, 0xfa48cc3dff816802, 0x65f065c94eda4f7a)
        &&& takes(0x65f065c94eda4f7a, 47, 0x385c7f621d802a52, 0x5dac1aab535a6528)
        &&& passes_over(0x5dac1aab535a6528, 48)
        &&& takes(0x5dac1aab535a6528, 49, 0xdf451c8e9aad70fb, 0x82e90625c9f715d3)
        &&& takes(0x82e90625c9f715d3, 50, 0xb0a463f26b6f74da, 0x324d65d7a2986109)
        &&& takes(0x324d65d7a2986109, 51, 0x0926ef3d0399dcb3, 0x3b6b8aeaa101bdba)
        &&& takes(0x3b6b8aeaa101bdba, 52, 0x4ec9852fe3eba3ca, 0x75a20fc542ea1e70)
        &&& takes(0x75a20fc542ea1e70, 53, 0x3dd0c4dbbea7c60d, 0x4872cb1efc4dd87d)
        &&& passes_over(0x4872cb1efc4dd87d, 54)
        &&& passes_over(0x4872cb1efc4dd87d, 55)
        &&& takes(0x4872cb1efc4dd87d, 56, 0x66863c817535cf03, 0x2ef4f79f8978177e)
        &&& passes_over(0x2ef4f79f8978177e, 57)
        &&& passes_over(0x2ef4f79f8978177e, 58)
        &&& passes_over(0x2ef4f79f8978177e, 59)
        &&& passes_over(0x2ef4f79f8978177e, 60)
        &&& passes_over(0x2ef4f79f8978177e, 61)
        &&& passes_over(0x2ef4f79f8978177e, 62)
        &&& passes_over(0x2ef4f79f8978177e, 63)
    }) by (bit_vector);
    assert(selected(states(), REDUCED as u128, 0) == 0);
    lemma_next_state(0, 0x0000000000000001, 0x0000000040822041, 0x0000000000000000, 0x0000000000000001);
    lemma_next_state(1, 0x0000000040822041, 0x100041060c011441, 0x0000000000000001, 0x0000000000000001);
    lemma_next_state(2, 0x100041060c011441, 0x9b1e842f6e862629, 0x0000000000000001, 0x0000000000000001);
    lemma_next_state(3, 0x9b1e842f6e862629, 0xf554f503555d8025, 0x0000000000000001, 0x0000000000000001);
    lemma_next_state(4, 0xf554f503555d8025, 0x860c1fb090599265, 0x0000000000000001, 0x0000000000000001);
    lemma_next_state(5, 0x860c1fb090599265, 0xf6b05302e5531801, 0x0000000000000001, 0x0000000000000001);
    lemma_next_state(6, 0xf6b05302e5531801, 0xa2460108ebbd9e71, 0x0000000000000001, 0x0000000000000001);
    lemma_next_state(7, 0xa2460108ebbd9e71, 0xc62c9fc114d9590d, 0x0000000000000001, 0x0000000000000001);
    lemma_next_state(8, 0xc62c9fc114d9590d, 0x7d3e032e9a7908ff, 0x0000000000000001, 0x0000000000000001);
    lemma_next_state(9, 0x7d3e032e9a7908ff, 0x73a397e1324c252e, 0x0000000000000001, 0x7d3e032e9a7908fe);
    lemma_next_state(10, 0x73a397e1324c252e, 0x1ccac1c38a4c36e4, 0x7d3e032e9a7908fe, 0x7d3e032e9a7908fe);
    lemma_next_state(11, 0x1ccac1c38a4c36e4, 0xefad64f8379b9789, 0x7d3e032e9a7908fe, 0x7d3e032e9a7908fe);
    lemma_next_state(12, 0xefad64f8379b9789, 0x4e2aa10f962c62e6, 0x7d3e032e9a7908fe, 0x929367d6ade29f77);
    lemma_next_state(13, 0x4e2aa10f962c62e6, 0x90e459e5090243a3, 0x929367d6ade29f77, 0xdcb9c6d93bcefd91);
    lemma_next_state(14, 0x90e459e5090243a3, 0x8986dedd543ccfe4, 0xdcb9c6d93bcefd91, 0xdcb9c6d93bcefd91);
    lemma_next_state(15, 0x8986dedd543ccfe4, 0xcf9d3e05e6adcf7b, 0xdcb9c6d93bcefd91, 0xdcb9c6d93bcefd91);
    lemma_next_state(16, 0xcf9d3e05e6adcf7b, 0x1b26c62dabb62a25, 0xdcb9c6d93bcefd91, 0x1324f8dcdd6332ea);
    lemma_next_state(17, 0x1b26c62dabb62a25, 0xa91f05e3064d6f31, 0x1324f8dcdd6332ea, 0x1324f8dcdd6332ea);
    lemma_next_state(18, 0xa91f05e3064d6f31, 0x0ef1de18cda219af, 0x1324f8dcdd6332ea, 0x1324f8dcdd6332ea);
    lemma_next_state(19, 0x0ef1de18cda219af, 0x711f0d367b32d65c, 0x1324f8dcdd6332ea, 0x1324f8dcdd6332ea);
    lemma_next_state(20, 0x711f0d367b32d65c, 0xf231b2a1c85aa4f0, 0x1324f8dcdd6332ea, 0x623bf5eaa651e4b6);
    lemma_next_state(21, 0xf231b2a1c85aa4f0, 0x4496d347928f2db9, 0x623bf5eaa651e4b6, 0x623bf5eaa651e4b6);
    lemma_next_state(22, 0x4496d347928f2db9, 0x256b6af8a0927da2, 0x623bf5eaa651e4b6, 0x623bf5eaa651e4b6);
    lemma_next_state(23, 0x256b6af8a0927da2, 0x648a63e7d94a71d9, 0x623bf5eaa651e4b6, 0x47509f1206c39914);
    lemma_next_state(24, 0x648a63e7d94a71d9, 0xc35961406cabb37a, 0x47509f1206c39914, 0x47509f1206c39914);
    lemma_next_state(25, 0xc35961406cabb37a, 0xf2b6efee45c97a9c, 0x47509f1206c39914, 0x47509f1206c39914);
    lemma_next_state(26, 0xf2b6efee45c97a9c, 0x4d2639865a9dcf69, 0x47509f1206c39914, 0x47509f1206c39914);
    lemma_next_state(27, 0x4d2639865a9dcf69, 0x35624e5c55d80eb7, 0x47509f1206c39914, 0x0a76a6945c5e567d);
    lemma_next_state(28, 0x35624e5c55d80eb7, 0x528da2237c72f36a, 0x0a76a6945c5e567d, 0x3f14e8c8098658ca);
    lemma_next_state(29, 0x528da2237c72f36a, 0x5b68ae8160438c0c, 0x3f14e8c8098658ca, 0x3f14e8c8098658ca);
    lemma_next_state(30, 0x5b68ae8160438c0c, 0xa93df44f13c98814, 0x3f14e8c8098658ca, 0x647c464969c5d4c6);
    lemma_next_state(31, 0xa93df44f13c98814, 0xebafe30772869e04, 0x647c464969c5d4c6, 0x647c464969c5d4c6);
    lemma_next_state(32, 0xebafe30772869e04, 0x317a8f442a749238, 0x647c464969c5d4c6, 0x8fd3a54e1b434ac2);
    lemma_next_state(33, 0x317a8f442a749238, 0x3c6e7499477bf51c, 0x8fd3a54e1b434ac2, 0xbea92a0a3137d8fa);
    lemma_next_state(34, 0x3c6e7499477bf51c, 0xbe850d995e47c5f6, 0xbea92a0a3137d8fa, 0xbea92a0a3137d8fa);
    lemma_next_state(35, 0xbe850d995e47c5f6, 0x8b324174ea4ef7fd, 0xbea92a0a3137d8fa, 0xbea92a0a3137d8fa);
    lemma_next_state(36, 0x8b324174ea4ef7fd, 0x09907835247c3552, 0xbea92a0a3137d8fa, 0xbea92a0a3137d8fa);
    lemma_next_state(37, 0x09907835247c3552, 0xe49c5e2464e3d9b8, 0xbea92a0a3137d8fa, 0xb739523f154beda8);
    lemma_next_state(38, 0xe49c5e2464e3d9b8, 0xa9bcbccb8ffd700b, 0xb739523f154beda8, 0xb739523f154beda8);
    lemma_next_state(39, 0xa9bcbccb8ffd700b, 0x330515d199e9e82b, 0xb739523f154beda8, 0x1e85eef49ab69da3);
    lemma_next_state(40, 0x330515d199e9e82b, 0x21dea3ebdfd3513b, 0x1e85eef49ab69da3, 0x1e85eef49ab69da3);
    lemma_next_state(41, 0x21dea3ebdfd3513b, 0xcb0bb29e242dd959, 0x1e85eef49ab69da3, 0x1e85eef49ab69da3);
    lemma_next_state(42, 0xcb0bb29e242dd959, 0x31cd9686416ef4ab, 0x1e85eef49ab69da3, 0xd58e5c6abe9b44fa);
    lemma_next_state(43, 0x31cd9686416ef4ab, 0x4a36f59e0fc06382, 0xd58e5c6abe9b44fa, 0xd58e5c6abe9b44fa);
    lemma_next_state(44, 0x4a36f59e0fc06382, 0xe9b1a160483d43c5, 0xd58e5c6abe9b44fa, 0x9fb8a9f4b15b2778);
    lemma_next_state(45, 0xe9b1a160483d43c5, 0xfa48cc3dff816802, 0x9fb8a9f4b15b2778, 0x9fb8a9f4b15b2778);
    lemma_next_state(46, 0xfa48cc3dff816802, 0x385c7f621d802a52, 0x9fb8a9f4b15b2778, 0x65f065c94eda4f7a);
    lemma_next_state(47, 0x385c7f621d802a52, 0x0f88255c41f7fe86, 0x65f065c94eda4f7a, 0x5dac1aab535a6528);
    lemma_next_state(48, 0x0f88255c41f7fe86, 0xdf451c8e9aad70fb, 0x5dac1aab535a6528, 0x5dac1aab535a6528);
    lemma_next_state(49, 0xdf451c8e9aad70fb, 0xb0a463f26b6f74da, 0x5dac1aab535a6528, 0x82e90625c9f715d3);
    lemma_next_state(50, 0xb0a463f26b6f74da, 0x0926ef3d0399dcb3, 0x82e90625c9f715d3, 0x324d65d7a2986109);
    lemma_next_state(51, 0x0926ef3d0399dcb3, 0x4ec9852fe3eba3ca, 0x324d65d7a2986109, 0x3b6b8aeaa101bdba);
    lemma_next_state(52, 0x4ec9852fe3eba3ca, 0x3dd0c4dbbea7c60d, 0x3b6b8aeaa101bdba, 0x75a20fc542ea1e70);
    lemma_next_state(53, 0x3dd0c4dbbea7c60d, 0x6dd395bc0d68aac1, 0x75a20fc542ea1e70, 0x4872cb1efc4dd87d);
    lemma_next_state(54, 0x6dd395bc0d68aac1, 0xa728a838eda8ebd4, 0x4872cb1efc4dd87d, 0x4872cb1efc4dd87d);
    lemma_next_state(55, 0xa728a838eda8ebd4, 0x66863c817535cf03, 0x4872cb1efc4dd87d, 0x4872cb1efc4dd87d);
    lemma_next_state(56, 0x66863c817535cf03, 0xdc53389b8bf6045d, 0x4872cb1efc4dd87d, 0x2ef4f79f8978177e);
    lemma_next_state(57, 0xdc53389b8bf6045d, 0x28dbcaa03fc15f15, 0x2ef4f79f8978177e, 0x2ef4f79f8978177e);
    lemma_next_state(58, 0x28dbcaa03fc15f15, 0xf4a99ad5d5ddb8eb, 0x2ef4f79f8978177e, 0x2ef4f79f8978177e);
    lemma_next_state(59, 0xf4a99ad5d5ddb8eb, 0x4a21ba240cb1595a, 0x2ef4f79f8978177e, 0x2ef4f79f8978177e);
    lemma_next_state(60, 0x4a21ba240cb1595a, 0x9e15766f19052d68, 0x2ef4f79f8978177e, 0x2ef4f79f8978177e);
    lemma_next_state(61, 0x9e15766f19052d68, 0x787363c7d9b57d32, 0x2ef4f79f8978177e, 0x2ef4f79f8978177e);
    lemma_next_state(62, 0x787363c7d9b57d32, 0x0ba2a63ea26f1b48, 0x2ef4f79f8978177e, 0x2ef4f79f8978177e);
    lemma_next_state(63, 0x0ba2a63ea26f1b48, 0x2ef4f79f8978177e, 0x2ef4f79f8978177e, 0x2ef4f79f8978177e);
}

/// The smallest positive number up to `upto` whose product with `q` is a multiple of
/// `p`.
proof fn lemma_smallest(p: nat, q: nat, upto: nat) -> (m: nat)
    requires
        p > 0,
        0 < upto,
        (q * upto) % p == 0,
    ensures
        0 < m <= upto,
        (q * m) % p == 0,
        forall|j: nat| 0 < j < m ==> #[trigger] (q * j) % p != 0,
    decreases upto,
{
    if exists|j: nat| 0 < j < upto && #[trigger] (q * j) % p == 0 {
        let j = choose|j: nat| 0 < j < upto && #[trigger] (q * j) % p == 0;
        lemma_smallest(p, q, j)
    } else {
        upto
    }
}

/// The remainder of a number by the smallest one is zero, where both have products
/// with `q` that are multiples of `p`.
proof fn lemma_no_remainder(p: nat, q: nat, m: nat, x: nat)
    requires
        p > 0,
        0 < m,
        (q * m) % p == 0,
        (q * x) % p == 0,
        forall|j: nat| 0 < j < m ==> #[trigger] (q * j) % p != 0,
    ensures
        x % m == 0,
{
    let (t, r) = (x / m, x % m);
    let (c, d) = ((q * m) / p, (q * x) / p);
    vstd::arithmetic::div_mod::lemma_fundamental_div_mod(x as int, m as int);
    vstd::arithmetic::div_mod::lemma_fundamental_div_mod((q * m) as int, p as int);
    vstd::arithmetic::div_mod::lemma_fundamental_div_mod((q * x) as int, p as int);
    assert(q * r == p * (d - c * t)) by (nonlinear_arith)
        requires
            x == m * t + r,
            q * m == p * c,
            q * x == p * d,
    ;
    let e = d - c * t;
    assert(0 <= q * r) by (nonlinear_arith)
        requires
            0 <= q,
            0 <= r,
    ;
    vstd::arithmetic::div_mod::lemma_mod_multiples_basic(e, p as int);
    assert(p * e == e * p) by (nonlinear_arith);
    assert((q * r) % p == 0);
}

/// A prime that divides a product divides one of its factors.
proof fn lemma_prime_divides(p: nat, q: nat, x: nat)
    requires
        is_prime(p),
        (q * x) % p == 0,
    ensures
        q % p == 0 || x % p == 0,
{
    vstd::arithmetic::div_mod::lemma_mod_multiples_basic(q as int, p as int);
    let m = lemma_smallest(p, q, p);
    lemma_no_remainder(p, q, m, p);
    vstd::arithmetic::div_mod::lemma_fundamental_div_mod(p as int, m as int);
    assert(m * (p / m) == p);
    if m == 1 {
        assert(q * 1 == q) by (nonlinear_arith);
    } else {
        lemma_no_remainder(p, q, m, x);
    }
}

/// Takes a prime out of the second factor of a product.
proof fn lemma_take_out(p: nat, q: nat, x: nat, rest: nat) -> (y: nat)
    requires
        is_prime(p),
        q * x == p * rest,
        q % p != 0,
    ensures
        x == p * y,
        q * y == rest,
{
    vstd::arithmetic::div_mod::lemma_mod_multiples_basic(rest as int, p as int);
    assert(p * rest == rest * p) by (nonlinear_arith);
    lemma_prime_divides(p, q, x);
    let y = x / p;
    vstd::arithmetic::div_mod::lemma_fundamental_div_mod(x as int, p as int);
    assert(q * y == rest) by (nonlinear_arith)
        requires
            x == p * y,
            q * x == p * rest,
            p > 0,
    ;
    y
}

/// A divisor of the full period that is not one has one of the prime factors.
proof fn lemma_has_factor(q: nat, d: nat) -> (p: nat)
    requires
        q * d == full(),
        q > 1,
    ensures
        is_factor(p),
        q % p == 0,
{
    lemma_primes();
    if q % 3 == 0 {
        3
    } else if q % 5 == 0 {
        5
    } else if q % 17 == 0 {
        17
    } else if q % 257 == 0 {
        257
    } else if q % 641 == 0 {
        641
    } else if q % 65537 == 0 {
        65537
    } else if q % 6700417 == 0 {
        6700417
    } else {
        let a = lemma_take_out(3, q, d, 0x5555_5555_5555_5555);
        let b = lemma_take_out(5, q, a, 0x1111_1111_1111_1111);
        let c = lemma_take_out(17, q, b, 0x0101_0101_0101_0101);
        let e = lemma_take_out(257, q, c, 0x0001_0001_0001_0001);
        let f = lemma_take_out(65537, q, e, 0x1_0000_0001);
        let g = lemma_take_out(641, q, f, 6700417);
        let h = lemma_take_out(6700417, q, g, 1);
        assert(q * h == 1);
        assert(q == 1) by (nonlinear_arith)
            requires
                q * h == 1,
                q > 0,
        ;
        3
    }
}

/// Of the powers up to the `upto`th that are one, the first after the zeroth.
proof fn lemma_first_one(upto: nat) -> (d: nat)
    requires
        0 < upto,
        power(upto) == 1,
    ensures
        0 < d <= upto,
        power(d) == 1,
        forall|j: nat| 0 < j < d ==> #[trigger] power(j) != 1,
    decreases upto,
{
    if exists|j: nat| 0 < j < upto && #[trigger] power(j) == 1 {
        let j = choose|j: nat| 0 < j < upto && #[trigger] power(j) == 1;
        lemma_first_one(j)
    } else {
        upto
    }
}

/// The power of the full period divided by one of its prime factors is not one.
proof fn lemma_factor_is_needed(p: nat, n: nat)
    requires
        is_factor(p),
        n * p == full(),
    ensures
        power(n) != 1,
{
    if p == 3 {
        assert(n * 3 == full());
        assert(n == 0x5555555555555555);
        exponents::lemma_all_over_3();
    } else if p == 5 {
        assert(n * 5 == full());
        assert(n == 0x3333333333333333);
        exponents::lemma_all_over_5();
    } else if p == 17 {
        assert(n * 17 == full());
        assert(n == 0xf0f0f0f0f0f0f0f);
        exponents::lemma_all_over_17();
    } else if p == 257 {
        assert(n * 257 == full());
        assert(n == 0xff00ff00ff00ff);
        exponents::lemma_all_over_257();
    } else if p == 641 {
        assert(n * 641 == full());
        assert(n == 0x663d80ff99c27f);
        exponents::lemma_all_over_641();
    } else if p == 65537 {
        assert(n * 65537 == full());
        assert(n == 0xffff0000ffff);
        exponents::lemma_all_over_65537();
    } else if p == 6700417 {
        assert(n * 6700417 == full());
        assert(n == 0x280fffffd7f);
        exponents::lemma_all_over_6700417();
    }
}

/// No power of x is one before the full period.
proof fn lemma_order(d: nat)
    requires
        0 < d < full(),
    ensures
        power(d) != 1,
{
    if power(d) == 1 {
        let m = lemma_first_one(d);
        let n = full();
        exponents::lemma_all();
        vstd::arithmetic::div_mod::lemma_fundamental_div_mod(n as int, m as int);
        let (q, r) = (n / m, n % m);
        lemma_powers_repeat(m, q, r);
        assert(power(r) == 1);
        assert(r == 0);
        assert(q > 1) by (nonlinear_arith)
            requires
                m * q == n,
                m < n,
                n > 0,
        ;
        assert(q * m == m * q) by (nonlinear_arith);
        let p = lemma_has_factor(q, m);
        let s = q / p;
        vstd::arithmetic::div_mod::lemma_fundamental_div_mod(q as int, p as int);
        assert((m * s) * p == n) by (nonlinear_arith)
            requires
                m * q == n,
                q == p * s,
        ;
        lemma_powers_repeat(m, s, 0);
        lemma_factor_is_needed(p, m * s);
    }
}

/// As many different numbers as there are, none of them zero, are all the numbers that
/// are not zero.
proof fn lemma_all_are_met(f: spec_fn(nat) -> u64, y: u64) -> (k: nat)
    requires
        forall|i: nat| i < full() ==> #[trigger] f(i) != 0,
        forall|i: nat, j: nat| i < j < full() ==> #[trigger] f(i) != #[trigger] f(j),
        y != 0,
    ensures
        k < full(),
        f(k) == y,
{
    let n = full() as int;
    let met = Seq::new(full(), |k: int| f(k as nat) as int);
    assert(met.no_duplicates()) by {
        assert forall|i: int, j: int| 0 <= i < met.len() && 0 <= j < met.len() && i
            != j implies met[i] != met[j] by {
            if i < j {
                assert(f(i as nat) != f(j as nat));
            } else {
                assert(f(j as nat) != f(i as nat));
            }
        }
    }
    met.unique_seq_to_set();
    let all = vstd::set_lib::set_int_range(1, n + 1);
    vstd::set_lib::lemma_int_range(1, n + 1);
    if !met.to_set().contains(y as int) {
        let rest = all.remove(y as int);
        assert(met.to_set().subset_of(rest)) by {
            assert forall|v: int| met.to_set().contains(v) implies rest.contains(v) by {
                let k = choose|k: int| 0 <= k < met.len() && met[k] == v;
                assert(f(k as nat) != 0);
            }
        }
        vstd::set_lib::lemma_len_subset(met.to_set(), rest);
        assert(false);
    }
    let k = choose|k: int| 0 <= k < met.len() && met[k] == y as int;
    k as nat
}

/// Every polynomial but zero is a power of x.
proof fn lemma_every_polynomial(e: u64) -> (k: nat)
    requires
        e != 0,
    ensures
        power(k) == e,
{
    let f = |i: nat| power(i);
    assert forall|i: nat| i < full() implies #[trigger] f(i) != 0 by {
        lemma_power_not_zero(i);
    }
    assert forall|i: nat, j: nat| i < j < full() implies #[trigger] f(i) != #[trigger] f(j) by {
        if power(i) == power(j) {
            lemma_same_powers(i, j);
            lemma_order((j - i) as nat);
        }
    }
    lemma_all_are_met(f, e)
}

/// What a polynomial selects of the states.
spec fn mixed(e: u64) -> u64 {
    selected(states(), e as u128, 64)
}

/// A step of the generator, as a function of the state.
spec fn step() -> spec_fn(u64) -> u64 {
    |x: u64| xorshift(x)
}

proof fn lemma_step_adds()
    ensures
        is_additive(step()),
{
    let g = step();
    assert forall|a: u64, b: u64| #[trigger] g(a ^ b) == g(a) ^ g(b) by {
        lemma_xorshift_adds(a, b);
    }
    lemma_xorshift_adds(0, 0);
}

proof fn lemma_states_are_steps()
    ensures
        forall|i: nat| #[trigger] states()(i + 1) == step()(states()(i)),
{
    assert forall|i: nat| #[trigger] states()(i + 1) == step()(states()(i)) by {
        assert(after_steps(1, i + 1) == xorshift(after_steps(1, i)));
    }
}

/// A power of x selects the state that is as many steps on.
proof fn lemma_mixed_power(k: nat)
    ensures
        mixed(power(k)) == after_steps(1, k),
{
    lemma_step_adds();
    lemma_states_are_steps();
    lemma_polynomial();
    assert(states()(64) == after_steps(1, 64));
    lemma_select_power(step(), states(), k);
    assert(states()(k) == after_steps(1, k));
}

proof fn lemma_xorshift_adds(a: u64, b: u64)
    ensures
        xorshift(a ^ b) == xorshift(a) ^ xorshift(b),
        xorshift(0) == 0,
{
    assert(xorshift(a ^ b) == xorshift(a) ^ xorshift(b) && xorshift(0) == 0u64) by (bit_vector);
}

/// Different polynomials select different states.
proof fn lemma_mixed_differs(a: u64, b: u64)
    requires
        a != b,
    ensures
        mixed(a) != mixed(b),
{
    let e = a ^ b;
    assert(((a ^ b) as u128) == (a as u128) ^ (b as u128) && (a ^ b == 0u64 ==> a == b))
        by (bit_vector);
    let k = lemma_every_polynomial(e);
    lemma_mixed_power(k);
    steps_avoid_zero(1, k);
    lemma_selected_sum(states(), a as u128, b as u128, 64);
    let (p, q) = (mixed(a), mixed(b));
    assert(p == q ==> p ^ q == 0u64) by (bit_vector);
}

/// From 1 the generator is not back before the full period.
proof fn lemma_not_back_early(k: nat)
    requires
        0 < k < full(),
    ensures
        after_steps(1, k) != 1,
{
    lemma_order(k);
    lemma_mixed_differs(power(k), power(0));
    lemma_mixed_power(k);
    lemma_mixed_power(0);
}

/// Steps add up.
proof fn lemma_steps_add(x: u64, a: nat, b: nat)
    ensures
        after_steps(x, a + b) == after_steps(after_steps(x, a), b),
    decreases b,
{
    if b > 0 {
        lemma_steps_add(x, a, (b - 1) as nat);
        assert(after_steps(x, a + b) == xorshift(after_steps(x, (a + b - 1) as nat)));
    }
}

/// Every number but zero is met from 1.
proof fn lemma_met_from_one(x: u64) -> (j: nat)
    requires
        x != 0,
    ensures
        after_steps(1, j) == x,
{
    let f = states();
    assert forall|i: nat| i < full() implies #[trigger] f(i) != 0 by {
        steps_avoid_zero(1, i);
    }
    assert forall|i: nat, j: nat| i < j < full() implies #[trigger] f(i) != #[trigger] f(j) by {
        if after_steps(1, i) == after_steps(1, j) {
            repeating_is_returning(1, i, j);
            lemma_not_back_early((j - i) as nat);
        }
    }
    lemma_all_are_met(f, x)
}

/// The generator has the full period: from any number but zero it is back after 2 to
/// the 64th less 1 steps, and not before.
pub proof fn period_is_full(x: u64)
    requires
        x != 0,
    ensures
        after_steps(x, full()) == x,
        forall|k: nat| 0 < k < full() ==> #[trigger] after_steps(x, k) != x,
{
    let j = lemma_met_from_one(x);
    let n = full();
    exponents::lemma_all();
    lemma_mixed_power(n);
    lemma_mixed_power(0);
    lemma_steps_add(1, j, n);
    lemma_steps_add(1, n, j);
    assert(j + n == n + j);
    assert forall|k: nat| 0 < k < full() implies #[trigger] after_steps(x, k) != x by {
        lemma_steps_add(1, j, k);
        if after_steps(x, k) == x {
            repeating_is_returning(1, j, j + k);
            lemma_not_back_early(k);
        }
    }
}

/// One period of the generator passes through every number but zero, once.
pub proof fn period_passes_through_all(x: u64, y: u64) -> (k: nat)
    requires
        x != 0,
        y != 0,
    ensures
        k < full(),
        after_steps(x, k) == y,
        forall|i: nat| i < full() && #[trigger] after_steps(x, i) == y ==> i == k,
{
    period_is_full(x);
    let f = |i: nat| after_steps(x, i);
    assert forall|i: nat| i < full() implies #[trigger] f(i) != 0 by {
        steps_avoid_zero(x, i);
    }
    assert forall|i: nat, j: nat| i < j < full() implies #[trigger] f(i) != #[trigger] f(j) by {
        if after_steps(x, i) == after_steps(x, j) {
            repeating_is_returning(x, i, j);
            assert(after_steps(x, (j - i) as nat) != x);
        }
    }
    let k = lemma_all_are_met(f, y);
    assert forall|i: nat| i < full() && #[trigger] after_steps(x, i) == y implies i == k by {
        assert(f(i) == f(k));
    }
    k
}

} // verus!
