//! Rotary position embedding.
//!
//! A vector at position `p` is turned: each element of its first half, together
//! with the element at the same place of its second half, by an angle that grows
//! with `p`.
use crate::index::{lemma_cell, lemma_place};
use crate::scalar::{
    cos, from_count, functional, minus, negated, one, over, plus, powf, sin, times, zero, Scalar,
};
use crate::tensor::{lemma_matrix_at, lemma_matrix_wf, matrix, volume, Tensor, TensorView};
use vstd::prelude::*;

verus! {

/// The tensor of three dimensions whose element at `i`, `j`, `k` is `f(i, j, k)`.
pub open spec fn cube<T>(
    a: usize,
    b: usize,
    c: usize,
    f: spec_fn(int, int, int) -> T,
) -> TensorView<T> {
    TensorView {
        shape: seq![a, b, c],
        data: Seq::new(
            (a * b * c) as nat,
            |p: int| f((p / c as int) / b as int, (p / c as int) % b as int, p % c as int),
        ),
    }
}

/// The element of a tensor of three dimensions at `i`, `j`, `k`.
pub open spec fn at3<T>(t: TensorView<T>, i: int, j: int, k: int) -> T {
    t.data[(i * t.shape[1] + j) * t.shape[2] + k]
}

pub proof fn lemma_cube_volume(shape: Seq<usize>)
    requires
        shape.len() == 3,
    ensures
        volume(shape) == shape[0] * shape[1] * shape[2],
{
    let front = shape.drop_last();
    lemma_matrix_wf(TensorView::<u8> { shape: front, data: Seq::empty() });
}

/// The element at `i`, `j`, `k` of a tensor of three dimensions has a place of its
/// own.
pub proof fn lemma_cube_cell(i: int, j: int, k: int, a: int, b: int, c: int)
    requires
        0 <= i < a,
        0 <= j < b,
        0 <= k < c,
    ensures
        ({
            let p = (i * b + j) * c + k;
            0 <= p < a * b * c && (p / c) / b == i && (p / c) % b == j && p % c == k
        }),
        0 <= i * b + j < a * b,
        0 <= (i * b + j) * c,
        (i * b + j) * c + c <= a * b * c,
{
    lemma_cell(i, j, a, b);
    lemma_cell(i * b + j, k, a * b, c);
}

/// The frequency of dimension pair `i`: `1 / base^(2i / head_dim)`.
pub open spec fn frequency<T: Scalar>(head_dim: usize, theta_base: T, i: int) -> T {
    over(
        one(),
        powf(
            theta_base,
            over(times(from_count(2), from_count(i as u64)), from_count(head_dim as u64)),
        ),
    )
}

/// The angle by which dimension pair `i` is turned at position `p`.
pub open spec fn angle<T: Scalar>(head_dim: usize, theta_base: T, p: int, i: int) -> T {
    times(from_count(p as u64), frequency(head_dim, theta_base, i))
}

/// The cosines of the angles: a row for each position, a column for each pair.
pub open spec fn cos_table_of<T: Scalar>(
    head_dim: usize,
    max_seq_len: usize,
    theta_base: T,
) -> TensorView<T> {
    matrix(
        max_seq_len,
        (head_dim / 2) as usize,
        |p: int, i: int| cos(angle(head_dim, theta_base, p, i)),
    )
}

/// The sines of the angles: a row for each position, a column for each pair.
pub open spec fn sin_table_of<T: Scalar>(
    head_dim: usize,
    max_seq_len: usize,
    theta_base: T,
) -> TensorView<T> {
    matrix(
        max_seq_len,
        (head_dim / 2) as usize,
        |p: int, i: int| sin(angle(head_dim, theta_base, p, i)),
    )
}

/// The element at `k` of a head that is turned at position `p`.
pub open spec fn turned<T: Scalar>(
    x: TensorView<T>,
    cos_table: TensorView<T>,
    sin_table: TensorView<T>,
    p: int,
    h: int,
    k: int,
) -> T {
    let half = x.shape[2] as int / 2;
    if k < half {
        minus(
            times(at3(x, p, h, k), cos_table.at(p, k)),
            times(at3(x, p, h, k + half), sin_table.at(p, k)),
        )
    } else {
        plus(
            times(at3(x, p, h, k - half), sin_table.at(p, k - half)),
            times(at3(x, p, h, k), cos_table.at(p, k - half)),
        )
    }
}

/// Every head turned by the angles of its position.
pub open spec fn rotated<T: Scalar>(
    x: TensorView<T>,
    cos_table: TensorView<T>,
    sin_table: TensorView<T>,
) -> TensorView<T> {
    cube(
        x.shape[0],
        x.shape[1],
        x.shape[2],
        |p: int, h: int, k: int| turned(x, cos_table, sin_table, p, h, k),
    )
}

/// Computes the tables of cosines and sines for the positions below `max_seq_len`.
pub fn precompute_freqs<T: Scalar>(head_dim: usize, max_seq_len: usize, theta_base: T) -> (r: (
    Tensor<T>,
    Tensor<T>,
))
    requires
        head_dim % 2 == 0,
        max_seq_len * (head_dim / 2) <= usize::MAX,
    ensures
        r.0@.is_matrix(max_seq_len as int, head_dim as int / 2),
        r.1@.is_matrix(max_seq_len as int, head_dim as int / 2),
        r.0@.wf(),
        r.1@.wf(),
        functional::<T>() ==> r.0@ == cos_table_of(head_dim, max_seq_len, theta_base),
        functional::<T>() ==> r.1@ == sin_table_of(head_dim, max_seq_len, theta_base),
{
    let half: usize = head_dim / 2;
    let mut freqs: Vec<T> = Vec::with_capacity(half);
    let mut k: usize = 0;
    while k < half
        invariant
            k <= half,
            freqs@.len() == k,
            functional::<T>() ==> forall|i: int|
                0 <= i < k ==> #[trigger] freqs@[i] == frequency(head_dim, theta_base, i),
        decreases half - k,
    {
        let exponent: T = over(
            times(from_count(2), from_count(k as u64)),
            from_count(head_dim as u64),
        );
        freqs.push(over(one(), powf(theta_base, exponent)));
        k = k + 1;
    }
    let mut cos_data: Vec<T> = Vec::with_capacity(max_seq_len * half);
    let mut sin_data: Vec<T> = Vec::with_capacity(max_seq_len * half);
    let ghost f = |p: int, i: int| cos(angle(head_dim, theta_base, p, i));
    let ghost g = |p: int, i: int| sin(angle(head_dim, theta_base, p, i));
    let mut p: usize = 0;
    assert(0 * half == 0);
    while p < max_seq_len
        invariant
            p <= max_seq_len,
            freqs@.len() == half,
            functional::<T>() ==> forall|i: int|
                0 <= i < half ==> #[trigger] freqs@[i] == frequency(head_dim, theta_base, i),
            f == (|p: int, i: int| cos(angle(head_dim, theta_base, p, i))),
            g == (|p: int, i: int| sin(angle(head_dim, theta_base, p, i))),
            cos_data@.len() == p * half,
            sin_data@.len() == p * half,
            functional::<T>() ==> forall|q: int|
                0 <= q < cos_data@.len() ==> #[trigger] cos_data@[q] == f(
                    q / half as int,
                    q % half as int,
                ),
            functional::<T>() ==> forall|q: int|
                0 <= q < sin_data@.len() ==> #[trigger] sin_data@[q] == g(
                    q / half as int,
                    q % half as int,
                ),
        decreases max_seq_len - p,
    {
        let mut i: usize = 0;
        while i < half
            invariant
                p < max_seq_len,
                i <= half,
                freqs@.len() == half,
                functional::<T>() ==> forall|i: int|
                    0 <= i < half ==> #[trigger] freqs@[i] == frequency(head_dim, theta_base, i),
                f == (|p: int, i: int| cos(angle(head_dim, theta_base, p, i))),
                g == (|p: int, i: int| sin(angle(head_dim, theta_base, p, i))),
                cos_data@.len() == p * half + i,
                sin_data@.len() == p * half + i,
                functional::<T>() ==> forall|q: int|
                    0 <= q < cos_data@.len() ==> #[trigger] cos_data@[q] == f(
                        q / half as int,
                        q % half as int,
                    ),
                functional::<T>() ==> forall|q: int|
                    0 <= q < sin_data@.len() ==> #[trigger] sin_data@[q] == g(
                        q / half as int,
                        q % half as int,
                    ),
            decreases half - i,
        {
            proof {
                lemma_cell(p as int, i as int, max_seq_len as int, half as int);
            }
            let turn: T = times(from_count(p as u64), freqs[i]);
            cos_data.push(cos(turn));
            sin_data.push(sin(turn));
            i = i + 1;
        }
        assert((p + 1) * half == p * half + half) by (nonlinear_arith);
        p = p + 1;
    }
    let shape: Vec<usize> = vec![max_seq_len, half];
    let shape2: Vec<usize> = vec![max_seq_len, half];
    proof {
        assert(shape@ =~= seq![max_seq_len, half]);
        assert(shape2@ =~= shape@);
        lemma_matrix_wf(TensorView { shape: shape@, data: cos_data@ });
        lemma_matrix_wf(TensorView { shape: shape@, data: sin_data@ });
        if functional::<T>() {
            assert(cos_data@ =~= cos_table_of(head_dim, max_seq_len, theta_base).data);
            assert(sin_data@ =~= sin_table_of(head_dim, max_seq_len, theta_base).data);
        }
    }
    (Tensor::new(shape, cos_data), Tensor::new(shape2, sin_data))
}

/// Whether the tables fit the heads of `x`.
pub open spec fn tables_fit<T>(
    x: TensorView<T>,
    cos_table: TensorView<T>,
    sin_table: TensorView<T>,
) -> bool {
    &&& x.ndim() == 3
    &&& x.shape[2] % 2 == 0
    &&& cos_table.is_matrix(x.shape[0] as int, x.shape[2] as int / 2)
    &&& sin_table.is_matrix(x.shape[0] as int, x.shape[2] as int / 2)
}

/// Turns every head of `x` by the angles of its position.
pub fn apply_rope<T: Scalar>(x: &Tensor<T>, cos_table: &Tensor<T>, sin_table: &Tensor<T>) -> (r:
    Tensor<T>)
    requires
        x@.wf(),
        tables_fit(x@, cos_table@, sin_table@),
    ensures
        r@.wf(),
        r@.shape == x@.shape,
        functional::<T>() ==> r@ == rotated(x@, cos_table@, sin_table@),
{
    let seq_len: usize = x.shape()[0];
    let num_heads: usize = x.shape()[1];
    let head_dim: usize = x.shape()[2];
    let half: usize = head_dim / 2;
    let ghost (xv, cv, sv) = (x@, cos_table@, sin_table@);
    let ghost f = |p: int, h: int, k: int| turned(xv, cv, sv, p, h, k);
    proof {
        lemma_cube_volume(xv.shape);
    }
    let len: usize = x.len();
    let mut out: Vec<T> = Vec::with_capacity(len);
    let mut p: usize = 0;
    assert(0 * num_heads * head_dim == 0) by (nonlinear_arith);
    while p < seq_len
        invariant
            p <= seq_len,
            xv == x@,
            cv == cos_table@,
            sv == sin_table@,
            tables_fit(xv, cv, sv),
            xv.wf(),
            xv.shape =~= seq![seq_len, num_heads, head_dim],
            half == head_dim / 2,
            len == xv.data.len(),
            len == seq_len * num_heads * head_dim,
            f == (|p: int, h: int, k: int| turned(xv, cv, sv, p, h, k)),
            out@.len() == p * num_heads * head_dim,
            functional::<T>() ==> forall|q: int|
                0 <= q < out@.len() ==> #[trigger] out@[q] == f(
                    (q / head_dim as int) / num_heads as int,
                    (q / head_dim as int) % num_heads as int,
                    q % head_dim as int,
                ),
        decreases seq_len - p,
    {
        let mut h: usize = 0;
        assert(p * num_heads * head_dim == (p * num_heads + 0) * head_dim);
        while h < num_heads
            invariant
                p < seq_len,
                h <= num_heads,
                xv == x@,
                cv == cos_table@,
                sv == sin_table@,
                tables_fit(xv, cv, sv),
            xv.wf(),
                xv.shape =~= seq![seq_len, num_heads, head_dim],
                half == head_dim / 2,
                len == xv.data.len(),
                len == seq_len * num_heads * head_dim,
                f == (|p: int, h: int, k: int| turned(xv, cv, sv, p, h, k)),
                out@.len() == (p * num_heads + h) * head_dim,
                functional::<T>() ==> forall|q: int|
                    0 <= q < out@.len() ==> #[trigger] out@[q] == f(
                        (q / head_dim as int) / num_heads as int,
                        (q / head_dim as int) % num_heads as int,
                        q % head_dim as int,
                    ),
            decreases num_heads - h,
        {
            push_turned_head(x, cos_table, sin_table, p, h, &mut out);
            proof {
                let start = (p * num_heads + h) * head_dim;
                assert(start + head_dim == (p * num_heads + (h + 1)) * head_dim)
                    by (nonlinear_arith)
                    requires
                        start == (p * num_heads + h) * head_dim,
                ;
                if functional::<T>() {
                    assert forall|q: int| 0 <= q < out@.len() implies #[trigger] out@[q] == f(
                        (q / head_dim as int) / num_heads as int,
                        (q / head_dim as int) % num_heads as int,
                        q % head_dim as int,
                    ) by {
                        if q >= start {
                            let k = q - start;
                            lemma_cube_cell(
                                p as int,
                                h as int,
                                k,
                                seq_len as int,
                                num_heads as int,
                                head_dim as int,
                            );
                            assert(out@[start + k] == turned(xv, cv, sv, p as int, h as int, k));
                        }
                    }
                }
            }
            h = h + 1;
        }
        assert((p * num_heads + num_heads) * head_dim == (p + 1) * num_heads * head_dim)
            by (nonlinear_arith);
        p = p + 1;
    }
    let shape: Vec<usize> = vec![seq_len, num_heads, head_dim];
    proof {
        assert(shape@ =~= xv.shape);
        assert(functional::<T>() ==> out@ =~= rotated(xv, cv, sv).data);
    }
    Tensor::new(shape, out)
}

/// Appends head `h` of position `p`, turned, to `out`.
fn push_turned_head<T: Scalar>(
    x: &Tensor<T>,
    cos_table: &Tensor<T>,
    sin_table: &Tensor<T>,
    p: usize,
    h: usize,
    out: &mut Vec<T>,
)
    requires
        x@.wf(),
        tables_fit(x@, cos_table@, sin_table@),
        p < x@.shape[0],
        h < x@.shape[1],
    ensures
        final(out)@.len() == old(out)@.len() + x@.shape[2],
        forall|q: int| 0 <= q < old(out)@.len() ==> final(out)@[q] == old(out)@[q],
        functional::<T>() ==> forall|k: int|
            0 <= k < x@.shape[2] ==> #[trigger] final(out)@[old(out)@.len() + k] == turned(
                x@,
                cos_table@,
                sin_table@,
                p as int,
                h as int,
                k,
            ),
{
    let seq_len: usize = x.shape()[0];
    let num_heads: usize = x.shape()[1];
    let head_dim: usize = x.shape()[2];
    let half: usize = head_dim / 2;
    let ghost before = out@;
    let ghost start = out@.len();
    let ghost (xv, cv, sv) = (x@, cos_table@, sin_table@);
    let data = x.data();
    let cosines = cos_table.data();
    let sines = sin_table.data();
    let len: usize = data.len();
    let table_len: usize = cosines.len();
    if half == 0 {
        return;
    }
    proof {
        lemma_cube_volume(xv.shape);
        lemma_cube_cell(
            p as int,
            h as int,
            0,
            seq_len as int,
            num_heads as int,
            head_dim as int,
        );
        lemma_cell(p as int, 0, seq_len as int, half as int);
        assert(p * num_heads + h <= (p * num_heads + h) * head_dim) by (nonlinear_arith)
            requires
                head_dim >= 1,
                p * num_heads + h >= 0,
        ;
        assert(0 <= p * num_heads) by (nonlinear_arith);
    }
    let base: usize = (p * num_heads + h) * head_dim;
    let cs: usize = p * half;
    let mut i: usize = 0;
    while i < half
        invariant
            i <= half,
            xv == x@,
            cv == cos_table@,
            sv == sin_table@,
            tables_fit(xv, cv, sv),
            data@ == xv.data,
            cosines@ == cv.data,
            sines@ == sv.data,
            xv.shape =~= seq![seq_len, num_heads, head_dim],
            half == head_dim / 2,
            base == (p * num_heads + h) * head_dim,
            base + head_dim <= data@.len() <= usize::MAX,
            cs == p * half,
            cs + half <= cosines@.len() <= usize::MAX,
            cosines@.len() == sines@.len(),
            start == before.len(),
            out@.len() == start + i,
            forall|q: int| 0 <= q < start ==> out@[q] == before[q],
            functional::<T>() ==> forall|k: int|
                0 <= k < i ==> #[trigger] out@[start + k] == turned(
                    xv,
                    cv,
                    sv,
                    p as int,
                    h as int,
                    k,
                ),
        decreases half - i,
    {
        out.push(
            minus(
                times(data[base + i], cosines[cs + i]),
                times(data[base + (half + i)], sines[cs + i]),
            ),
        );
        i = i + 1;
    }
    let mut j: usize = 0;
    while j < half
        invariant
            j <= half,
            xv == x@,
            cv == cos_table@,
            sv == sin_table@,
            tables_fit(xv, cv, sv),
            data@ == xv.data,
            cosines@ == cv.data,
            sines@ == sv.data,
            xv.shape =~= seq![seq_len, num_heads, head_dim],
            half == head_dim / 2,
            base == (p * num_heads + h) * head_dim,
            base + head_dim <= data@.len() <= usize::MAX,
            cs == p * half,
            cs + half <= cosines@.len() <= usize::MAX,
            cosines@.len() == sines@.len(),
            start == before.len(),
            out@.len() == start + half + j,
            forall|q: int| 0 <= q < start ==> out@[q] == before[q],
            functional::<T>() ==> forall|k: int|
                0 <= k < half + j ==> #[trigger] out@[start + k] == turned(
                    xv,
                    cv,
                    sv,
                    p as int,
                    h as int,
                    k,
                ),
        decreases half - j,
    {
        out.push(
            plus(
                times(data[base + j], sines[cs + j]),
                times(data[base + (half + j)], cosines[cs + j]),
            ),
        );
        j = j + 1;
    }
}

/// A turn by an angle whose cosine is 1 and whose sine is 0 changes nothing,
/// wherever multiplying by 1 and adding or subtracting a multiple of 0 changes
/// nothing.
pub proof fn no_turn_at_angle_zero<T: Scalar>(
    x: TensorView<T>,
    cos_table: TensorView<T>,
    sin_table: TensorView<T>,
    none: T,
    unit: T,
)
    requires
        x.wf(),
        tables_fit(x, cos_table, sin_table),
        forall|p: int, i: int|
            0 <= p < x.shape[0] && 0 <= i < x.shape[2] as int / 2 ==> #[trigger] cos_table.at(p, i)
                == unit,
        forall|p: int, i: int|
            0 <= p < x.shape[0] && 0 <= i < x.shape[2] as int / 2 ==> #[trigger] sin_table.at(p, i)
                == none,
        forall|a: T, b: T|
            x.data.contains(a) && x.data.contains(b) ==> #[trigger] minus(
                times(a, unit),
                times(b, none),
            ) == a,
        forall|a: T, b: T|
            x.data.contains(a) && x.data.contains(b) ==> #[trigger] plus(
                times(a, none),
                times(b, unit),
            ) == b,
    ensures
        rotated(x, cos_table, sin_table) == x,
{
    let (a, b, c) = (x.shape[0] as int, x.shape[1] as int, x.shape[2] as int);
    let half = c / 2;
    lemma_cube_volume(x.shape);
    let r = rotated(x, cos_table, sin_table);
    assert(r.shape =~= x.shape);
    assert forall|q: int| 0 <= q < x.data.len() implies r.data[q] == x.data[q] by {
        lemma_place(q, a * b, c);
        lemma_place(q / c, a, b);
        let (p, h, k) = ((q / c) / b, (q / c) % b, q % c);
        assert(at3(x, p, h, k) == x.data[q]);
        assert(x.data.contains(at3(x, p, h, k)));
        if k < half {
            lemma_cube_cell(p, h, k + half, a, b, c);
            assert(x.data.contains(at3(x, p, h, k + half)));
            assert(cos_table.at(p, k) == unit && sin_table.at(p, k) == none);
        } else {
            lemma_cube_cell(p, h, k - half, a, b, c);
            assert(x.data.contains(at3(x, p, h, k - half)));
            assert(cos_table.at(p, k - half) == unit && sin_table.at(p, k - half) == none);
        }
    }
    assert(r.data =~= x.data);
}

/// A pair turns like a point in the plane: a head whose second half is zero goes to its
/// first half times the cosines, and then times the sines, wherever a multiple of zero
/// adds and takes nothing.
pub proof fn first_half_turns<T: Scalar>(
    x: TensorView<T>,
    cos_table: TensorView<T>,
    sin_table: TensorView<T>,
    p: int,
    h: int,
    k: int,
)
    requires
        x.wf(),
        tables_fit(x, cos_table, sin_table),
        0 <= p < x.shape[0],
        0 <= h < x.shape[1],
        0 <= k < x.shape[2] as int / 2,
        at3(x, p, h, k + x.shape[2] as int / 2) == zero::<T>(),
        ({
            let (a, c, s) = (at3(x, p, h, k), cos_table.at(p, k), sin_table.at(p, k));
            &&& minus(times(a, c), times(zero(), s)) == times(a, c)
            &&& plus(times(a, s), times(zero(), c)) == times(a, s)
        }),
    ensures
        at3(rotated(x, cos_table, sin_table), p, h, k) == times(
            at3(x, p, h, k),
            cos_table.at(p, k),
        ),
        at3(rotated(x, cos_table, sin_table), p, h, k + x.shape[2] as int / 2) == times(
            at3(x, p, h, k),
            sin_table.at(p, k),
        ),
{
    lemma_turned_pair(x, cos_table, sin_table, p, h, k);
}

/// A head whose first half is zero goes to the negative of its second half times the
/// sines, and then times the cosines.
pub proof fn second_half_turns<T: Scalar>(
    x: TensorView<T>,
    cos_table: TensorView<T>,
    sin_table: TensorView<T>,
    p: int,
    h: int,
    k: int,
)
    requires
        x.wf(),
        tables_fit(x, cos_table, sin_table),
        0 <= p < x.shape[0],
        0 <= h < x.shape[1],
        0 <= k < x.shape[2] as int / 2,
        at3(x, p, h, k) == zero::<T>(),
        ({
            let b = at3(x, p, h, k + x.shape[2] as int / 2);
            let (c, s) = (cos_table.at(p, k), sin_table.at(p, k));
            &&& minus(times(zero(), c), times(b, s)) == negated(times(b, s))
            &&& plus(times(zero(), s), times(b, c)) == times(b, c)
        }),
    ensures
        at3(rotated(x, cos_table, sin_table), p, h, k) == negated(
            times(at3(x, p, h, k + x.shape[2] as int / 2), sin_table.at(p, k)),
        ),
        at3(rotated(x, cos_table, sin_table), p, h, k + x.shape[2] as int / 2) == times(
            at3(x, p, h, k + x.shape[2] as int / 2),
            cos_table.at(p, k),
        ),
{
    lemma_turned_pair(x, cos_table, sin_table, p, h, k);
}

/// What a turn makes of the pair at `k` and half a head further.
pub proof fn lemma_turned_pair<T: Scalar>(
    x: TensorView<T>,
    cos_table: TensorView<T>,
    sin_table: TensorView<T>,
    p: int,
    h: int,
    k: int,
)
    requires
        x.ndim() == 3,
        x.shape[2] % 2 == 0,
        0 <= p < x.shape[0],
        0 <= h < x.shape[1],
        0 <= k < x.shape[2] as int / 2,
    ensures
        ({
            let half = x.shape[2] as int / 2;
            let (a, b) = (at3(x, p, h, k), at3(x, p, h, k + half));
            let (c, s) = (cos_table.at(p, k), sin_table.at(p, k));
            let r = rotated(x, cos_table, sin_table);
            &&& at3(r, p, h, k) == minus(times(a, c), times(b, s))
            &&& at3(r, p, h, k + half) == plus(times(a, s), times(b, c))
        }),
{
    let half = x.shape[2] as int / 2;
    let (m, n, d) = (x.shape[0] as int, x.shape[1] as int, x.shape[2] as int);
    lemma_cube_cell(p, h, k, m, n, d);
    lemma_cube_cell(p, h, k + half, m, n, d);
}

/// The first position is not turned: its cosines and sines are those of zero, wherever
/// no times a number is zero.
pub proof fn first_position_has_angle_zero<T: Scalar>(
    head_dim: usize,
    max_seq_len: usize,
    theta_base: T,
    i: int,
)
    requires
        0 < max_seq_len,
        0 <= i < head_dim as int / 2,
        forall|a: T| #[trigger] times(from_count(0), a) == zero::<T>(),
    ensures
        cos_table_of(head_dim, max_seq_len, theta_base).at(0, i) == cos(zero::<T>()),
        sin_table_of(head_dim, max_seq_len, theta_base).at(0, i) == sin(zero::<T>()),
{
    let half = (head_dim / 2) as usize;
    lemma_matrix_at(
        max_seq_len,
        half,
        |p: int, j: int| cos(angle(head_dim, theta_base, p, j)),
        0,
        i,
    );
    lemma_matrix_at(
        max_seq_len,
        half,
        |p: int, j: int| sin(angle(head_dim, theta_base, p, j)),
        0,
        i,
    );
}

/// The angle of a pair grows with the position by one step, and that step times the base
/// to the power of twice the pair over the size of a head is one, wherever multiplying
/// undoes dividing.
pub proof fn angles_grow_by_one_step<T: Scalar>(
    head_dim: usize,
    max_seq_len: usize,
    theta_base: T,
    p: int,
    i: int,
    power: T,
)
    requires
        0 <= p < max_seq_len,
        0 <= i < head_dim as int / 2,
        power == powf(
            theta_base,
            over(times(from_count(2), from_count(i as u64)), from_count(head_dim as u64)),
        ),
        times(over(one(), power), power) == one::<T>(),
    ensures
        exists|step: T|
            {
                &&& #[trigger] times(step, power) == one::<T>()
                &&& cos_table_of(head_dim, max_seq_len, theta_base).at(p, i) == cos(
                    times(from_count(p as u64), step),
                )
                &&& sin_table_of(head_dim, max_seq_len, theta_base).at(p, i) == sin(
                    times(from_count(p as u64), step),
                )
            },
{
    let half = (head_dim / 2) as usize;
    lemma_matrix_at(
        max_seq_len,
        half,
        |p: int, j: int| cos(angle(head_dim, theta_base, p, j)),
        p,
        i,
    );
    lemma_matrix_at(
        max_seq_len,
        half,
        |p: int, j: int| sin(angle(head_dim, theta_base, p, j)),
        p,
        i,
    );
    let step = over(one(), power);
    assert(times(step, power) == one::<T>());
}

} // verus!
