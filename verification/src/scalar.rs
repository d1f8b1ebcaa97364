//! The numbers that tensors hold.
//!
//! The crate computes over any element type that offers the operations of
//! [`Scalar`]. Floating-point numbers are one such type. What an operation
//! returns is left to the type. Where each operation is a function of its
//! arguments, which [`functional`] states, the functions of this module name its
//! result, and every contract of the crate says exactly which results are
//! combined, and in which order.
use vstd::prelude::*;

verus! {

/// A number that tensors can hold.
pub trait Scalar: Copy {
    /// The wider number type that configurations are written in.
    type Wide: Copy;

    /// The number 0.
    fn zero() -> Self;

    /// The number 1.
    fn one() -> Self;

    /// What lies below every number: negative infinity.
    fn lowest() -> Self;

    /// The number nearest to `n`.
    fn from_count(n: u64) -> Self;

    /// The number whose single-precision pattern is `bits`.
    fn from_bits(bits: u32) -> Self;

    /// The number nearest to `wide`.
    fn narrow(wide: Self::Wide) -> Self;

    /// The negative of `self`.
    fn negated(self) -> Self;

    /// e to the power of `self`.
    fn exp(self) -> Self;

    /// The square root of `self`.
    fn sqrt(self) -> Self;

    /// The cosine of `self`.
    fn cos(self) -> Self;

    /// The sine of `self`.
    fn sin(self) -> Self;

    /// The sum of `self` and `rhs`.
    fn plus(self, rhs: Self) -> Self;

    /// The difference of `self` and `rhs`.
    fn minus(self, rhs: Self) -> Self;

    /// The product of `self` and `rhs`.
    fn times(self, rhs: Self) -> Self;

    /// The quotient of `self` and `rhs`.
    fn over(self, rhs: Self) -> Self;

    /// `self` to the power of `rhs`.
    fn powf(self, rhs: Self) -> Self;

    /// The larger of `self` and `rhs`.
    fn larger(self, rhs: Self) -> Self;

    /// Whether `self` is less than `rhs`.
    fn less_than(self, rhs: Self) -> bool;

    /// Whether `self` is at least `rhs`.
    fn at_least(self, rhs: Self) -> bool;

    /// Whether `self` and `rhs` compare as equal.
    fn same_as(self, rhs: Self) -> bool;
}

/// Whether every operation of `T` returns the same result whenever it is given the
/// same arguments.
pub open spec fn functional<T: Scalar>() -> bool {
    &&& forall|r: T| #[trigger] call_ensures(T::zero, (), r) ==> r == spec_zero::<T>()
    &&& forall|r: T| #[trigger] call_ensures(T::one, (), r) ==> r == spec_one::<T>()
    &&& forall|r: T| #[trigger] call_ensures(T::lowest, (), r) ==> r == spec_lowest::<T>()
    &&& forall|n: u64, r: T| #[trigger] call_ensures(T::from_count, (n,), r) ==> r == spec_from_count::<T>(n)
    &&& forall|n: u32, r: T| #[trigger] call_ensures(T::from_bits, (n,), r) ==> r == spec_from_bits::<T>(n)
    &&& forall|w: T::Wide, r: T| #[trigger] call_ensures(T::narrow, (w,), r) ==> r == spec_narrow::<T>(w)
    &&& forall|a: T, r: T| #[trigger] call_ensures(T::negated, (a,), r) ==> r == spec_negated(a)
    &&& forall|a: T, r: T| #[trigger] call_ensures(T::exp, (a,), r) ==> r == spec_exp(a)
    &&& forall|a: T, r: T| #[trigger] call_ensures(T::sqrt, (a,), r) ==> r == spec_sqrt(a)
    &&& forall|a: T, r: T| #[trigger] call_ensures(T::cos, (a,), r) ==> r == spec_cos(a)
    &&& forall|a: T, r: T| #[trigger] call_ensures(T::sin, (a,), r) ==> r == spec_sin(a)
    &&& forall|a: T, b: T, r: T| #[trigger] call_ensures(T::plus, (a, b), r) ==> r == spec_plus(a, b)
    &&& forall|a: T, b: T, r: T| #[trigger] call_ensures(T::minus, (a, b), r) ==> r == spec_minus(a, b)
    &&& forall|a: T, b: T, r: T| #[trigger] call_ensures(T::times, (a, b), r) ==> r == spec_times(a, b)
    &&& forall|a: T, b: T, r: T| #[trigger] call_ensures(T::over, (a, b), r) ==> r == spec_over(a, b)
    &&& forall|a: T, b: T, r: T| #[trigger] call_ensures(T::powf, (a, b), r) ==> r == spec_powf(a, b)
    &&& forall|a: T, b: T, r: T| #[trigger] call_ensures(T::larger, (a, b), r) ==> r == spec_larger(a, b)
    &&& forall|a: T, b: T, r: bool| #[trigger] call_ensures(T::less_than, (a, b), r) ==> r == spec_less_than(a, b)
    &&& forall|a: T, b: T, r: bool| #[trigger] call_ensures(T::at_least, (a, b), r) ==> r == spec_at_least(a, b)
    &&& forall|a: T, b: T, r: bool| #[trigger] call_ensures(T::same_as, (a, b), r) ==> r == spec_same_as(a, b)
}

/// The number 0.
pub open spec fn spec_zero<T: Scalar>() -> T {
    choose|r: T| call_ensures(T::zero, (), r)
}

/// The number 0.
#[verifier::when_used_as_spec(spec_zero)]
pub fn zero<T: Scalar>() -> (r: T)
    ensures
        functional::<T>() ==> r == spec_zero::<T>(),
{
    T::zero()
}

/// The number 1.
pub open spec fn spec_one<T: Scalar>() -> T {
    choose|r: T| call_ensures(T::one, (), r)
}

/// The number 1.
#[verifier::when_used_as_spec(spec_one)]
pub fn one<T: Scalar>() -> (r: T)
    ensures
        functional::<T>() ==> r == spec_one::<T>(),
{
    T::one()
}

/// What lies below every number: negative infinity.
pub open spec fn spec_lowest<T: Scalar>() -> T {
    choose|r: T| call_ensures(T::lowest, (), r)
}

/// What lies below every number: negative infinity.
#[verifier::when_used_as_spec(spec_lowest)]
pub fn lowest<T: Scalar>() -> (r: T)
    ensures
        functional::<T>() ==> r == spec_lowest::<T>(),
{
    T::lowest()
}

/// The number nearest to `n`.
pub open spec fn spec_from_count<T: Scalar>(n: u64) -> T {
    choose|r: T| call_ensures(T::from_count, (n,), r)
}

/// The number nearest to `n`.
#[verifier::when_used_as_spec(spec_from_count)]
pub fn from_count<T: Scalar>(n: u64) -> (r: T)
    ensures
        functional::<T>() ==> r == spec_from_count::<T>(n),
{
    T::from_count(n)
}

/// The number whose single-precision pattern is `bits`.
pub open spec fn spec_from_bits<T: Scalar>(bits: u32) -> T {
    choose|r: T| call_ensures(T::from_bits, (bits,), r)
}

/// The number whose single-precision pattern is `bits`.
#[verifier::when_used_as_spec(spec_from_bits)]
pub fn from_bits<T: Scalar>(bits: u32) -> (r: T)
    ensures
        functional::<T>() ==> r == spec_from_bits::<T>(bits),
{
    T::from_bits(bits)
}

/// The number nearest to `wide`.
pub open spec fn spec_narrow<T: Scalar>(wide: T::Wide) -> T {
    choose|r: T| call_ensures(T::narrow, (wide,), r)
}

/// The number nearest to `wide`.
#[verifier::when_used_as_spec(spec_narrow)]
pub fn narrow<T: Scalar>(wide: T::Wide) -> (r: T)
    ensures
        functional::<T>() ==> r == spec_narrow::<T>(wide),
{
    T::narrow(wide)
}

/// The negative of `a`.
pub open spec fn spec_negated<T: Scalar>(a: T) -> T {
    choose|r: T| call_ensures(T::negated, (a,), r)
}

/// The negative of `a`.
#[verifier::when_used_as_spec(spec_negated)]
pub fn negated<T: Scalar>(a: T) -> (r: T)
    ensures
        functional::<T>() ==> r == spec_negated(a),
{
    a.negated()
}

/// e to the power of `a`.
pub open spec fn spec_exp<T: Scalar>(a: T) -> T {
    choose|r: T| call_ensures(T::exp, (a,), r)
}

/// e to the power of `a`.
#[verifier::when_used_as_spec(spec_exp)]
pub fn exp<T: Scalar>(a: T) -> (r: T)
    ensures
        functional::<T>() ==> r == spec_exp(a),
{
    a.exp()
}

/// The square root of `a`.
pub open spec fn spec_sqrt<T: Scalar>(a: T) -> T {
    choose|r: T| call_ensures(T::sqrt, (a,), r)
}

/// The square root of `a`.
#[verifier::when_used_as_spec(spec_sqrt)]
pub fn sqrt<T: Scalar>(a: T) -> (r: T)
    ensures
        functional::<T>() ==> r == spec_sqrt(a),
{
    a.sqrt()
}

/// The cosine of `a`.
pub open spec fn spec_cos<T: Scalar>(a: T) -> T {
    choose|r: T| call_ensures(T::cos, (a,), r)
}

/// The cosine of `a`.
#[verifier::when_used_as_spec(spec_cos)]
pub fn cos<T: Scalar>(a: T) -> (r: T)
    ensures
        functional::<T>() ==> r == spec_cos(a),
{
    a.cos()
}

/// The sine of `a`.
pub open spec fn spec_sin<T: Scalar>(a: T) -> T {
    choose|r: T| call_ensures(T::sin, (a,), r)
}

/// The sine of `a`.
#[verifier::when_used_as_spec(spec_sin)]
pub fn sin<T: Scalar>(a: T) -> (r: T)
    ensures
        functional::<T>() ==> r == spec_sin(a),
{
    a.sin()
}

/// The sum of `a` and `b`.
pub open spec fn spec_plus<T: Scalar>(a: T, b: T) -> T {
    choose|r: T| call_ensures(T::plus, (a, b), r)
}

/// The sum of `a` and `b`.
#[verifier::when_used_as_spec(spec_plus)]
pub fn plus<T: Scalar>(a: T, b: T) -> (r: T)
    ensures
        functional::<T>() ==> r == spec_plus(a, b),
{
    a.plus(b)
}

/// The difference of `a` and `b`.
pub open spec fn spec_minus<T: Scalar>(a: T, b: T) -> T {
    choose|r: T| call_ensures(T::minus, (a, b), r)
}

/// The difference of `a` and `b`.
#[verifier::when_used_as_spec(spec_minus)]
pub fn minus<T: Scalar>(a: T, b: T) -> (r: T)
    ensures
        functional::<T>() ==> r == spec_minus(a, b),
{
    a.minus(b)
}

/// The product of `a` and `b`.
pub open spec fn spec_times<T: Scalar>(a: T, b: T) -> T {
    choose|r: T| call_ensures(T::times, (a, b), r)
}

/// The product of `a` and `b`.
#[verifier::when_used_as_spec(spec_times)]
pub fn times<T: Scalar>(a: T, b: T) -> (r: T)
    ensures
        functional::<T>() ==> r == spec_times(a, b),
{
    a.times(b)
}

/// The quotient of `a` and `b`.
pub open spec fn spec_over<T: Scalar>(a: T, b: T) -> T {
    choose|r: T| call_ensures(T::over, (a, b), r)
}

/// The quotient of `a` and `b`.
#[verifier::when_used_as_spec(spec_over)]
pub fn over<T: Scalar>(a: T, b: T) -> (r: T)
    ensures
        functional::<T>() ==> r == spec_over(a, b),
{
    a.over(b)
}

/// `a` to the power of `b`.
pub open spec fn spec_powf<T: Scalar>(a: T, b: T) -> T {
    choose|r: T| call_ensures(T::powf, (a, b), r)
}

/// `a` to the power of `b`.
#[verifier::when_used_as_spec(spec_powf)]
pub fn powf<T: Scalar>(a: T, b: T) -> (r: T)
    ensures
        functional::<T>() ==> r == spec_powf(a, b),
{
    a.powf(b)
}

/// The larger of `a` and `b`.
pub open spec fn spec_larger<T: Scalar>(a: T, b: T) -> T {
    choose|r: T| call_ensures(T::larger, (a, b), r)
}

/// The larger of `a` and `b`.
#[verifier::when_used_as_spec(spec_larger)]
pub fn larger<T: Scalar>(a: T, b: T) -> (r: T)
    ensures
        functional::<T>() ==> r == spec_larger(a, b),
{
    a.larger(b)
}

/// Whether `a` is less than `b`.
pub open spec fn spec_less_than<T: Scalar>(a: T, b: T) -> bool {
    choose|r: bool| call_ensures(T::less_than, (a, b), r)
}

/// Whether `a` is less than `b`.
#[verifier::when_used_as_spec(spec_less_than)]
pub fn less_than<T: Scalar>(a: T, b: T) -> (r: bool)
    ensures
        functional::<T>() ==> r == spec_less_than(a, b),
{
    a.less_than(b)
}

/// Whether `a` is at least `b`.
pub open spec fn spec_at_least<T: Scalar>(a: T, b: T) -> bool {
    choose|r: bool| call_ensures(T::at_least, (a, b), r)
}

/// Whether `a` is at least `b`.
#[verifier::when_used_as_spec(spec_at_least)]
pub fn at_least<T: Scalar>(a: T, b: T) -> (r: bool)
    ensures
        functional::<T>() ==> r == spec_at_least(a, b),
{
    a.at_least(b)
}

/// Whether `a` and `b` compare as equal.
pub open spec fn spec_same_as<T: Scalar>(a: T, b: T) -> bool {
    choose|r: bool| call_ensures(T::same_as, (a, b), r)
}

/// Whether `a` and `b` compare as equal.
#[verifier::when_used_as_spec(spec_same_as)]
pub fn same_as<T: Scalar>(a: T, b: T) -> (r: bool)
    ensures
        functional::<T>() ==> r == spec_same_as(a, b),
{
    a.same_as(b)
}

/// Whether `a` without its share adds nothing: zero and `a` times zero is zero.
pub open spec fn adds_nothing<T: Scalar>(a: T) -> bool {
    plus(zero(), times(a, zero())) == zero::<T>()
}

/// Whether a sum in which one number of `s` is taken once, and the others not at all,
/// is that number.
pub open spec fn unit_selects<T: Scalar>(s: Seq<T>) -> bool {
    &&& forall|i: int| 0 <= i < s.len() ==> adds_nothing(#[trigger] s[i])
    &&& forall|i: int| 0 <= i < s.len() ==> plus(zero(), times(#[trigger] s[i], one())) == s[i]
    &&& forall|i: int, j: int|
        0 <= i < s.len() && 0 <= j < s.len() ==> plus(
            #[trigger] s[i],
            times(#[trigger] s[j], zero()),
        ) == s[i]
}

/// Whether multiplying by one changes no number.
pub open spec fn one_is_neutral<T: Scalar>() -> bool {
    forall|a: T| #[trigger] times(a, one()) == a
}

} // verus!
