//! Operators as capabilities: every kernel is written once, generic over
//! the operator it applies, and instantiated per operator and element type.
use vstd::prelude::*;

pub mod signed;
pub mod unsigned;

verus! {

/// A binary operator on elements of type `T`.
pub trait BinaryOp<T: Copy>: Sized {
    /// The operand pairs on which the operator is defined.
    spec fn admits(lhs: T, rhs: T) -> bool;

    /// The value of the operator on an admitted pair.
    spec fn eval(lhs: T, rhs: T) -> T;

    /// Computes the operator on an admitted pair.
    fn apply(lhs: T, rhs: T) -> (out: T)
        requires
            Self::admits(lhs, rhs),
        ensures
            out == Self::eval(lhs, rhs),
    ;
}

/// A binary operator that is defined on every pair of operands.
pub trait TotalOp<T: Copy>: BinaryOp<T> {
    /// The operator is defined on every pair.
    proof fn lemma_total(a: T, b: T)
        ensures
            Self::admits(a, b),
    ;
}

/// A binary operator fit for reductions: defined everywhere, associative and
/// commutative, with an identity element that seeds every accumulator.
pub trait ReduceOp<T: Copy>: TotalOp<T> {
    /// The element that leaves every other element unchanged.
    spec fn identity() -> T;

    /// The identity element, with which every accumulator starts.
    fn seed() -> (out: T)
        ensures
            out == Self::identity(),
    ;

    /// Grouping does not matter.
    proof fn lemma_associative(a: T, b: T, c: T)
        ensures
            Self::eval(Self::eval(a, b), c) == Self::eval(a, Self::eval(b, c)),
    ;

    /// Order does not matter.
    proof fn lemma_commutative(a: T, b: T)
        ensures
            Self::eval(a, b) == Self::eval(b, a),
    ;

    /// Combining with the identity changes nothing.
    proof fn lemma_identity(a: T)
        ensures
            Self::eval(Self::identity(), a) == a,
    ;
}

/// Addition, wrapping around at the bounds of the element type.
pub struct Add;

/// Subtraction, wrapping around at the bounds of the element type.
pub struct Sub;

/// Multiplication, wrapping around at the bounds of the element type.
pub struct Mul;

/// Division rounding toward zero; undefined for a zero divisor and for the
/// one signed quotient that does not fit.
pub struct Div;

/// Remainder of the division rounding toward zero, with the sign of the
/// dividend; undefined where `Div` is.
pub struct Rem;

/// Bitwise AND.
pub struct BitAnd;

/// Bitwise OR.
pub struct BitOr;

/// Shift left by the count taken modulo the bit width, as the element
/// types shift natively.
pub struct Shl;

/// Shift right by the count taken modulo the bit width, as the element
/// types shift natively.
pub struct Shr;

/// The smaller of two elements.
pub struct Min;

/// The larger of two elements.
pub struct Max;

/// The number of bits a shift by `count` moves in a type of `bits` bits:
/// the count wraps around at the bit width.
pub open spec fn shift_count(count: int, bits: int) -> u32 {
    (count % bits) as u32
}

/// The operator is defined on every pair of corresponding elements.
pub open spec fn admissible<T: Copy, Op: BinaryOp<T>>(lhs: Seq<T>, rhs: Seq<T>) -> bool {
    &&& lhs.len() == rhs.len()
    &&& forall|k: int| 0 <= k < lhs.len() ==> Op::admits(#[trigger] lhs[k], rhs[k])
}

/// A total operator is defined on every pair of sequences of equal length.
pub proof fn lemma_total_admissible<T: Copy, Op: TotalOp<T>>(lhs: Seq<T>, rhs: Seq<T>)
    requires
        lhs.len() == rhs.len(),
    ensures
        admissible::<T, Op>(lhs, rhs),
{
    assert forall|k: int| 0 <= k < lhs.len() implies Op::admits(#[trigger] lhs[k], rhs[k]) by {
        Op::lemma_total(lhs[k], rhs[k]);
    }
}

/// The operator applied to corresponding elements of two sequences.
pub open spec fn elementwise<T: Copy, Op: BinaryOp<T>>(lhs: Seq<T>, rhs: Seq<T>) -> Seq<T> {
    Seq::new(lhs.len(), |k: int| Op::eval(lhs[k], rhs[k]))
}

/// The sequential fold of a sequence, seeded with the operator's identity.
pub open spec fn fold<T: Copy, Op: ReduceOp<T>>(items: Seq<T>) -> T
    decreases items.len(),
{
    if items.len() == 0 {
        Op::identity()
    } else {
        Op::eval(fold::<T, Op>(items.drop_last()), items.last())
    }
}

/// Quotient of the division that rounds toward zero.
pub open spec fn truncated_div(x: int, d: int) -> int {
    if x >= 0 && d > 0 {
        x / d
    } else if x < 0 && d < 0 {
        (-x) / (-d)
    } else if x < 0 {
        -((-x) / d)
    } else {
        -(x / (-d))
    }
}

/// Remainder of the division that rounds toward zero.
pub open spec fn truncated_rem(x: int, d: int) -> int {
    if x >= 0 && d > 0 {
        x % d
    } else if x < 0 && d < 0 {
        -((-x) % (-d))
    } else if x < 0 {
        -((-x) % d)
    } else {
        x % (-d)
    }
}

/// Dividing toward zero stays inside a two's-complement range, except for
/// the least value divided by -1.
pub proof fn lemma_truncated_div_bounds(x: int, d: int, max: int)
    requires
        d != 0,
        max >= 1,
        -max - 1 <= x <= max,
        !(x == -max - 1 && d == -1),
    ensures
        -max - 1 <= truncated_div(x, d) <= max,
{
    let ax = if x < 0 {
        -x
    } else {
        x
    };
    let ad = if d < 0 {
        -d
    } else {
        d
    };
    vstd::arithmetic::div_mod::lemma_div_pos_is_pos(ax, ad);
    vstd::arithmetic::div_mod::lemma_div_nonincreasing(ax, ad);
    if ad >= 2 {
        vstd::arithmetic::div_mod::lemma_div_is_ordered_by_denominator(ax, 2, ad);
    } else {
        vstd::arithmetic::div_mod::lemma_div_basics(ax);
    }
}

/// The remainder of dividing toward zero stays inside a two's-complement
/// range.
pub proof fn lemma_truncated_rem_bounds(x: int, d: int, max: int)
    requires
        d != 0,
        max >= 1,
        -max - 1 <= x <= max,
        -max - 1 <= d <= max,
    ensures
        -max - 1 <= truncated_rem(x, d) <= max,
{
    let ax = if x < 0 {
        -x
    } else {
        x
    };
    let ad = if d < 0 {
        -d
    } else {
        d
    };
    vstd::arithmetic::div_mod::lemma_mod_bound(ax, ad);
}

/// The representative of `x` modulo `m` in the signed range centred on 0.
pub open spec fn signed_wrap(x: int, m: int) -> int {
    if 2 * (x % m) >= m {
        x % m - m
    } else {
        x % m
    }
}

/// Multiplying residues is associative.
pub proof fn lemma_mul_mod_associative(a: int, b: int, c: int, m: int)
    requires
        m > 0,
    ensures
        (((a * b) % m) * c) % m == (a * ((b * c) % m)) % m,
{
    vstd::arithmetic::div_mod::lemma_mul_mod_noop_left(a * b, c, m);
    vstd::arithmetic::div_mod::lemma_mul_mod_noop_right(a, b * c, m);
    vstd::arithmetic::mul::lemma_mul_is_associative(a, b, c);
}

/// Wrapping into the signed range keeps the residue.
pub proof fn lemma_signed_wrap_residue(x: int, m: int)
    requires
        m > 0,
    ensures
        signed_wrap(x, m) % m == x % m,
{
    vstd::arithmetic::div_mod::lemma_mod_twice(x, m);
    vstd::arithmetic::div_mod::lemma_mod_sub_multiples_vanish(x % m, m);
}

/// Multiplying signed representatives is associative.
pub proof fn lemma_signed_mul_associative(a: int, b: int, c: int, m: int)
    requires
        m > 0,
    ensures
        signed_wrap(signed_wrap(a * b, m) * c, m) == signed_wrap(a * signed_wrap(b * c, m), m),
{
    lemma_signed_wrap_residue(a * b, m);
    lemma_signed_wrap_residue(b * c, m);
    vstd::arithmetic::div_mod::lemma_mul_mod_noop_left(signed_wrap(a * b, m), c, m);
    vstd::arithmetic::div_mod::lemma_mul_mod_noop_left(a * b, c, m);
    vstd::arithmetic::div_mod::lemma_mul_mod_noop_right(a, signed_wrap(b * c, m), m);
    vstd::arithmetic::div_mod::lemma_mul_mod_noop_right(a, b * c, m);
    vstd::arithmetic::mul::lemma_mul_is_associative(a, b, c);
}

} // verus!
