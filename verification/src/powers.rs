//! Powers of x among the polynomials over two elements, reduced by the polynomial of
//! the xorshift generator.
//!
//! The bits of a `u64` are the coefficients of a polynomial of degree below 64. To
//! multiply by x is to shift, and to reduce where a coefficient is shifted out.
use vstd::prelude::*;

verus! {

/// What x to the 64th reduces to.
pub const REDUCED: u64 = 0x13ed4a358913201;

/// A polynomial times x.
pub open spec fn times_x(e: u64) -> u64 {
    if e >> 63 == 1u64 {
        (e << 1) ^ REDUCED
    } else {
        e << 1
    }
}

/// A polynomial times x to the `k`th.
pub open spec fn times_x_to(e: u64, k: nat) -> u64
    decreases k,
{
    if k == 0 {
        e
    } else {
        times_x(times_x_to(e, (k - 1) as nat))
    }
}

/// The `k`th power of x.
pub open spec fn power(k: nat) -> u64 {
    times_x_to(1, k)
}

/// Bit `i` of `e`.
pub open spec fn has_bit(e: u128, i: nat) -> bool {
    (e >> (i as u128)) & 1 == 1u128
}

/// The sum, without carry, of those of the first `n` values of `f` whose bit is set in
/// `e`.
pub open spec fn selected(f: spec_fn(nat) -> u64, e: u128, n: nat) -> u64
    decreases n,
{
    if n == 0 {
        0
    } else {
        selected(f, e, (n - 1) as nat) ^ (if has_bit(e, (n - 1) as nat) {
            f((n - 1) as nat)
        } else {
            0
        })
    }
}

/// Whether `g` of a sum without carry is the sum of what `g` is of the parts.
pub open spec fn is_additive(g: spec_fn(u64) -> u64) -> bool {
    &&& g(0) == 0
    &&& forall|a: u64, b: u64| #[trigger] g(a ^ b) == g(a) ^ g(b)
}

proof fn lemma_bit_of_sum(a: u128, b: u128, i: nat)
    ensures
        has_bit(a ^ b, i) == (has_bit(a, i) != has_bit(b, i)),
{
    let m = i as u128;
    assert(((a ^ b) >> m) & 1 == ((a >> m) & 1) ^ ((b >> m) & 1)) by (bit_vector);
    let (x, y) = ((a >> m) & 1, (b >> m) & 1);
    assert((a >> m) & 1 <= 1 && (b >> m) & 1 <= 1) by (bit_vector);
    assert(x <= 1 && y <= 1 ==> (x ^ y == 1u128 <==> x != y)) by (bit_vector);
}

/// Selecting by a sum without carry is adding what is selected by the parts.
pub(crate) proof fn lemma_selected_sum(f: spec_fn(nat) -> u64, a: u128, b: u128, n: nat)
    ensures
        selected(f, a ^ b, n) == selected(f, a, n) ^ selected(f, b, n),
    decreases n,
{
    if n > 0 {
        let m = (n - 1) as nat;
        lemma_selected_sum(f, a, b, m);
        lemma_bit_of_sum(a, b, m);
        let (p, q, v) = (selected(f, a, m), selected(f, b, m), f(m));
        assert((p ^ v) ^ (q ^ v) == (p ^ q) ^ 0 && (p ^ v) ^ (q ^ 0) == (p ^ q) ^ v && (p ^ 0) ^ (q
            ^ v) == (p ^ q) ^ v && (p ^ 0) ^ (q ^ 0) == (p ^ q) ^ 0) by (bit_vector);
    } else {
        assert(0u64 ^ 0u64 == 0u64) by (bit_vector);
    }
}

/// What is selected depends on the values and bits that are looked at alone.
pub(crate) proof fn lemma_same_selected(
    f: spec_fn(nat) -> u64,
    a: u128,
    g: spec_fn(nat) -> u64,
    b: u128,
    n: nat,
)
    requires
        forall|i: nat| i < n ==> #[trigger] f(i) == g(i),
        forall|i: nat| i < n ==> #[trigger] has_bit(a, i) == has_bit(b, i),
    ensures
        selected(f, a, n) == selected(g, b, n),
    decreases n,
{
    if n > 0 {
        let m = (n - 1) as nat;
        lemma_same_selected(f, a, g, b, m);
        assert(f(m) == g(m));
        assert(has_bit(a, m) == has_bit(b, m));
    }
}

/// An additive map can be applied before or after selecting.
pub(crate) proof fn lemma_map_selected(
    g: spec_fn(u64) -> u64,
    f: spec_fn(nat) -> u64,
    h: spec_fn(nat) -> u64,
    e: u128,
    n: nat,
)
    requires
        is_additive(g),
        forall|i: nat| #[trigger] h(i) == g(f(i)),
    ensures
        selected(h, e, n) == g(selected(f, e, n)),
    decreases n,
{
    if n > 0 {
        let m = (n - 1) as nat;
        lemma_map_selected(g, f, h, e, m);
        let part = if has_bit(e, m) {
            f(m)
        } else {
            0
        };
        assert(g(selected(f, e, m) ^ part) == g(selected(f, e, m)) ^ g(part));
        assert(h(m) == g(f(m)));
    }
}

/// The lowest bit selects the first value.
pub(crate) proof fn lemma_select_first(f: spec_fn(nat) -> u64, n: nat)
    requires
        0 < n <= 128,
    ensures
        selected(f, 1, n) == f(0),
    decreases n,
{
    let m = (n - 1) as nat;
    let v = f(0);
    assert(0u64 ^ v == v && v ^ 0u64 == v) by (bit_vector);
    assert((1u128 >> 0u128) & 1 == 1u128) by (bit_vector);
    if n > 1 {
        lemma_select_first(f, m);
        let s = m as u128;
        assert(0 < s < 128 ==> (1u128 >> s) & 1 == 0u128) by (bit_vector);
        assert(!has_bit(1, m));
    } else {
        assert(selected(f, 1, 0) == 0);
        assert(has_bit(1, 0));
    }
}

/// Selecting one place further on is selecting by the shifted bits.
proof fn lemma_select_shifted(
    f: spec_fn(nat) -> u64,
    h: spec_fn(nat) -> u64,
    e: u128,
    n: nat,
)
    requires
        n <= 64,
        forall|i: nat| #[trigger] h(i) == f(i + 1),
    ensures
        selected(h, e, n) == selected(f, e << 1, n + 1),
    decreases n,
{
    let s = n as u128;
    if n > 0 {
        let m = (n - 1) as nat;
        lemma_select_shifted(f, h, e, m);
        assert(0 < s <= 64 ==> ((e << 1) >> s) & 1 == (e >> ((s - 1) as u128)) & 1) by (bit_vector);
        assert(has_bit(e << 1, n) == has_bit(e, m));
        assert(h(m) == f(n));
    } else {
        assert(((e << 1) >> 0u128) & 1 == 0u128) by (bit_vector);
        assert(!has_bit(e << 1, 0));
        assert(selected(f, e << 1, 0) == 0);
        assert(0u64 ^ 0u64 == 0u64) by (bit_vector);
    }
}

/// Multiplying by x is one step of any additive map whose steps obey the same
/// polynomial.
pub(crate) proof fn lemma_select_times_x(
    g: spec_fn(u64) -> u64,
    f: spec_fn(nat) -> u64,
    e: u64,
)
    requires
        is_additive(g),
        forall|i: nat| #[trigger] f(i + 1) == g(f(i)),
        f(64) == selected(f, REDUCED as u128, 64),
    ensures
        selected(f, times_x(e) as u128, 64) == g(selected(f, e as u128, 64)),
{
    let h = |i: nat| g(f(i));
    let wide = e as u128;
    lemma_map_selected(g, f, h, wide, 64);
    assert forall|i: nat| #[trigger] h(i) == f(i + 1) by {}
    lemma_select_shifted(f, h, wide, 64);
    let cut = e << 1;
    assert(((((e as u128) << 1) >> 64u128) & 1 == 1u128) <==> (e >> 63 == 1u64)) by (bit_vector);
    assert(has_bit(wide << 1, 64) == (e >> 63 == 1u64));
    assert forall|i: nat| i < 64 implies #[trigger] has_bit(wide << 1, i) == has_bit(
        cut as u128,
        i,
    ) by {
        let m = i as u128;
        assert(m < 64 ==> (((e as u128) << 1) >> m) & 1 == (((e << 1) as u128) >> m) & 1)
            by (bit_vector);
    }
    lemma_same_selected(f, wide << 1, f, cut as u128, 64);
    let low = selected(f, cut as u128, 64);
    if e >> 63 == 1u64 {
        assert((((e << 1) ^ REDUCED) as u128) == ((e << 1) as u128) ^ (REDUCED as u128))
            by (bit_vector);
        lemma_selected_sum(f, cut as u128, REDUCED as u128, 64);
    } else {
        assert(low ^ 0 == low) by (bit_vector);
    }
}

/// Selecting by a power of x is taking as many steps.
pub(crate) proof fn lemma_select_power(g: spec_fn(u64) -> u64, f: spec_fn(nat) -> u64, k: nat)
    requires
        is_additive(g),
        forall|i: nat| #[trigger] f(i + 1) == g(f(i)),
        f(64) == selected(f, REDUCED as u128, 64),
    ensures
        selected(f, power(k) as u128, 64) == f(k),
    decreases k,
{
    if k == 0 {
        lemma_select_first(f, 64);
    } else {
        let m = (k - 1) as nat;
        lemma_select_power(g, f, m);
        lemma_select_times_x(g, f, power(m));
        assert(f(m + 1) == g(f(m)));
    }
}

/// Multiplying by x adds up, loses nothing and keeps zero.
pub(crate) proof fn lemma_times_x(a: u64, b: u64)
    ensures
        times_x(a ^ b) == times_x(a) ^ times_x(b),
        times_x(0) == 0,
        times_x(a) == times_x(b) ==> a == b,
{
    assert(times_x(a ^ b) == times_x(a) ^ times_x(b) && times_x(0) == 0u64 && (times_x(a)
        == times_x(b) ==> a == b)) by (bit_vector);
}

proof fn lemma_times_x_to(a: u64, b: u64, k: nat)
    ensures
        times_x_to(a ^ b, k) == times_x_to(a, k) ^ times_x_to(b, k),
        times_x_to(0, k) == 0,
    decreases k,
{
    if k > 0 {
        let m = (k - 1) as nat;
        lemma_times_x_to(a, b, m);
        lemma_times_x(times_x_to(a, m), times_x_to(b, m));
    }
}

/// Powers add up their exponents.
pub(crate) proof fn lemma_times_power(i: nat, k: nat)
    ensures
        times_x_to(power(i), k) == power(i + k),
    decreases k,
{
    if k > 0 {
        lemma_times_power(i, (k - 1) as nat);
        assert(power(i + k) == times_x(power((i + k - 1) as nat)));
    }
}

/// The powers below the 64th have one coefficient; the 64th is reduced.
pub(crate) proof fn lemma_small_powers(i: nat)
    requires
        i <= 64,
    ensures
        i < 64 ==> power(i) == 1u64 << (i as u64),
        i == 64 ==> power(i) == REDUCED,
    decreases i,
{
    if i == 0 {
        assert(1u64 << 0u64 == 1u64) by (bit_vector);
    } else {
        lemma_small_powers((i - 1) as nat);
        let m = (i - 1) as u64;
        assert((m < 63 ==> times_x(1u64 << m) == 1u64 << ((m + 1) as u64)) && times_x(1u64 << 63u64)
            == REDUCED) by (bit_vector);
        assert(power(i) == times_x(power((i - 1) as nat)));
    }
}

/// The powers as a function of the exponent.
pub open spec fn power_fn() -> spec_fn(nat) -> u64 {
    |i: nat| power(i)
}

/// The powers from the `a`th on.
pub open spec fn powers_from(a: nat) -> spec_fn(nat) -> u64 {
    |i: nat| power(i + a)
}

/// A polynomial is the sum of the powers that it has.
proof fn lemma_selected_powers(e: u128, n: nat)
    requires
        n <= 64,
    ensures
        selected(power_fn(), e, n) as u128 == e & !(0xffff_ffff_ffff_ffff_ffff_ffff_ffff_ffffu128
            << (n as u128)),
    decreases n,
{
    let f = power_fn();
    if n == 0 {
        assert(e & !(0xffff_ffff_ffff_ffff_ffff_ffff_ffff_ffffu128 << 0u128) == 0u128)
            by (bit_vector);
    } else {
        let m = (n - 1) as nat;
        lemma_selected_powers(e, m);
        lemma_small_powers(m);
        let (s, t, p) = (m as u128, m as u64, selected(f, e, m));
        assert(s == t && s < 64 && p as u128 == e & !(0xffff_ffff_ffff_ffff_ffff_ffff_ffff_ffffu128
            << s) ==> (p ^ (if (e >> s) & 1 == 1u128 {
            1u64 << t
        } else {
            0
        })) as u128 == e & !(0xffff_ffff_ffff_ffff_ffff_ffff_ffff_ffffu128 << ((s + 1) as u128)))
            by (bit_vector);
        assert(f(m) == power(m));
    }
}

proof fn lemma_selected_self(e: u64)
    ensures
        selected(power_fn(), e as u128, 64) == e,
{
    lemma_selected_powers(e as u128, 64);
    assert((e as u128) & !(0xffff_ffff_ffff_ffff_ffff_ffff_ffff_ffffu128 << 64u128) == e as u128)
        by (bit_vector);
}

/// The powers from the `a`th on, selected by the `b`th power, add up to the power of
/// the sum.
proof fn lemma_power_of_sum(a: nat, b: nat)
    ensures
        selected(powers_from(a), power(b) as u128, 64) == power(a + b),
{
    let f = powers_from(a);
    let g = |e: u64| times_x(e);
    assert(is_additive(g)) by {
        lemma_times_x(0, 0);
        assert forall|x: u64, y: u64| #[trigger] g(x ^ y) == g(x) ^ g(y) by {
            lemma_times_x(x, y);
        }
    }
    let step = |e: u64| times_x_to(e, a);
    assert(is_additive(step)) by {
        lemma_times_x_to(0, 0, a);
        assert forall|x: u64, y: u64| #[trigger] step(x ^ y) == step(x) ^ step(y) by {
            lemma_times_x_to(x, y, a);
        }
    }
    assert forall|i: nat| #[trigger] f(i) == step(power_fn()(i)) by {
        lemma_times_power(i, a);
    }
    lemma_map_selected(step, power_fn(), f, REDUCED as u128, 64);
    lemma_selected_self(REDUCED);
    lemma_small_powers(64);
    lemma_times_power(64, a);
    assert forall|i: nat| #[trigger] f(i + 1) == g(f(i)) by {
        assert(power(i + 1 + a) == times_x(power(i + a)));
    }
    lemma_select_power(g, f, b);
}

/// The product of two polynomials, not reduced: the sum of what the lowest `n`
/// coefficients of `f` make of `e`.
pub open spec fn product(e: u64, f: u64, n: u64) -> u128
    decreases n,
{
    if n == 0 {
        0u128
    } else {
        let m = (n - 1) as u64;
        product(e, f, m) ^ (if (f >> m) & 1 == 1u64 {
            (e as u128) << m
        } else {
            0u128
        })
    }
}

/// A shifted polynomial selects powers that much further on.
proof fn lemma_shifted_value(e: u64, i: nat, n: nat)
    requires
        i <= 64,
        n <= 128,
    ensures
        selected(power_fn(), (e as u128) << (i as u128), n) == selected(
            powers_from(i),
            e as u128,
            (if n <= i {
                0
            } else if n - i <= 64 {
                (n - i) as nat
            } else {
                64
            }),
        ),
    decreases n,
{
    if n > 0 {
        let m = (n - 1) as nat;
        lemma_shifted_value(e, i, m);
        let (s, t) = (i as u128, m as u128);
        assert(s <= 64 && t < 128 ==> {
            &&& t < s ==> (((e as u128) << s) >> t) & 1 == 0u128
            &&& s <= t && t - s < 64 ==> (((e as u128) << s) >> t) & 1 == ((e as u128) >> ((t
                - s) as u128)) & 1
            &&& s <= t && t - s >= 64 ==> (((e as u128) << s) >> t) & 1 == 0u128
        }) by (bit_vector);
        let before = selected(power_fn(), (e as u128) << s, m);
        assert(before ^ 0u64 == before) by (bit_vector);
        if i <= m && m - i < 64 {
            let j = (m - i) as nat;
            assert(has_bit((e as u128) << s, m) == has_bit(e as u128, j));
            assert(power_fn()(m) == powers_from(i)(j));
        }
    }
}

/// The powers that a product selects are those that `f` selects from the `a`th on,
/// where `e` is the `a`th.
proof fn lemma_product_value(a: nat, e: u64, f: u64, n: u64)
    requires
        n <= 64,
        power(a) == e,
    ensures
        selected(power_fn(), product(e, f, n), 128) == selected(
            powers_from(a),
            f as u128,
            n as nat,
        ),
    decreases n,
{
    if n == 0 {
        lemma_select_nothing(128);
    } else {
        let m = (n - 1) as u64;
        lemma_product_value(a, e, f, m);
        let part = if (f >> m) & 1 == 1u64 {
            (e as u128) << m
        } else {
            0u128
        };
        lemma_selected_sum(power_fn(), product(e, f, m), part, 128);
        let t = m as u128;
        assert(t == m && m < 64 ==> ((f >> m) & 1 == 1u64 <==> ((f as u128) >> t) & 1 == 1u128)
            && (e as u128) << m == (e as u128) << t) by (bit_vector);
        if (f >> m) & 1 == 1u64 {
            lemma_shifted_value(e, m as nat, 128);
            lemma_power_of_sum(m as nat, a);
            assert(powers_from(a)(m as nat) == power((m + a) as nat));
        } else {
            lemma_select_nothing(128);
        }
    }
}

proof fn lemma_select_nothing(n: nat)
    requires
        n <= 128,
    ensures
        selected(power_fn(), 0, n) == 0,
    decreases n,
{
    if n > 0 {
        lemma_select_nothing((n - 1) as nat);
        let m = (n - 1) as u128;
        assert((0u128 >> m) & 1 == 0u128 && 0u64 ^ 0u64 == 0u64) by (bit_vector);
    }
}

/// Whether `e` times itself is `q` times the polynomial, and `r`.
pub open spec fn squares_to(e: u64, q: u64, r: u64) -> bool {
    product(e, e, 64) == product(REDUCED, q, 64) ^ ((q as u128) << 64) ^ (r as u128)
}

/// Whether `r` is `e` times itself, and times x where `odd` says so; `q` is the
/// quotient.
pub open spec fn doubles_to(e: u64, odd: bool, q: u64, s: u64, r: u64) -> bool {
    squares_to(e, q, s) && (if odd {
        times_x(s) == r
    } else {
        s == r
    })
}

/// Doubling the exponent is squaring.
pub(crate) proof fn lemma_double(k: nat, odd: bool, q: u64, s: u64, r: u64)
    requires
        doubles_to(power(k), odd, q, s, r),
    ensures
        power(2 * k + (if odd {
            1nat
        } else {
            0nat
        })) == r,
{
    let f = power_fn();
    let e = power(k);
    let (x, y, z) = (product(REDUCED, q, 64), (q as u128) << 64, s as u128);
    lemma_product_value(k, e, e, 64);
    lemma_power_of_sum(k, k);
    lemma_small_powers(64);
    lemma_product_value(64, REDUCED, q, 64);
    assert((q as u128) << 64 == (q as u128) << 64u128 && (s as u128) << 0u128 == s as u128)
        by (bit_vector);
    lemma_shifted_value(q, 64, 128);
    lemma_selected_sum(f, x ^ y, z, 128);
    lemma_selected_sum(f, x, y, 128);
    lemma_shifted_value(s, 0, 128);
    lemma_selected_self(s);
    lemma_same_selected(powers_from(0), s as u128, f, s as u128, 64);
    let v = selected(powers_from(64), q as u128, 64);
    assert((v ^ v) ^ s == s) by (bit_vector);
    assert(power(2 * k) == s);
    assert(power(2 * k + 1) == times_x(power(2 * k)));
}

} // verus!
