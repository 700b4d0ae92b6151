//! The operators on the signed integer types.
use crate::ops::{
    fold, lemma_signed_mul_associative, lemma_truncated_div_bounds, lemma_truncated_rem_bounds,
    shift_count, signed_wrap, truncated_div, truncated_rem, Add, BinaryOp, BitAnd, BitOr, Div,
    Max, Min, Mul, ReduceOp, Rem, Shl, Shr, Sub, TotalOp,
};
use crate::simd_reduce_ops::lemma_fold_three;
use vstd::pervasive::unreached;
use vstd::prelude::*;

verus! {

impl BinaryOp<i8> for Add {
    open spec fn admits(lhs: i8, rhs: i8) -> bool {
        true
    }

    open spec fn eval(lhs: i8, rhs: i8) -> i8 {
        lhs.wrapping_add(rhs)
    }

    fn apply(lhs: i8, rhs: i8) -> (out: i8) {
        lhs.wrapping_add(rhs)
    }
}

impl TotalOp<i8> for Add {
    proof fn lemma_total(a: i8, b: i8) {
    }
}

impl ReduceOp<i8> for Add {
    open spec fn identity() -> i8 {
        0
    }

    fn seed() -> (out: i8) {
        0
    }

    proof fn lemma_associative(a: i8, b: i8, c: i8) {
    }

    proof fn lemma_commutative(a: i8, b: i8) {
    }

    proof fn lemma_identity(a: i8) {
    }
}

impl BinaryOp<i8> for Sub {
    open spec fn admits(lhs: i8, rhs: i8) -> bool {
        true
    }

    open spec fn eval(lhs: i8, rhs: i8) -> i8 {
        lhs.wrapping_sub(rhs)
    }

    fn apply(lhs: i8, rhs: i8) -> (out: i8) {
        lhs.wrapping_sub(rhs)
    }
}

impl TotalOp<i8> for Sub {
    proof fn lemma_total(a: i8, b: i8) {
    }
}

impl BinaryOp<i8> for Mul {
    open spec fn admits(lhs: i8, rhs: i8) -> bool {
        true
    }

    open spec fn eval(lhs: i8, rhs: i8) -> i8 {
        lhs.wrapping_mul(rhs)
    }

    fn apply(lhs: i8, rhs: i8) -> (out: i8) {
        lhs.wrapping_mul(rhs)
    }
}

impl TotalOp<i8> for Mul {
    proof fn lemma_total(a: i8, b: i8) {
    }
}

impl ReduceOp<i8> for Mul {
    open spec fn identity() -> i8 {
        1
    }

    fn seed() -> (out: i8) {
        1
    }

    proof fn lemma_associative(a: i8, b: i8, c: i8) {
        let m = u8::MAX + 1;
        lemma_signed_mul_associative(a as int, b as int, c as int, m);
        assert(a.wrapping_mul(b) == signed_wrap(a * b, m));
        assert(b.wrapping_mul(c) == signed_wrap(b * c, m));
    }

    proof fn lemma_commutative(a: i8, b: i8) {
        vstd::arithmetic::mul::lemma_mul_is_commutative(a as int, b as int);
    }

    proof fn lemma_identity(a: i8) {
        let m = u8::MAX + 1;
        if a >= 0 {
            vstd::arithmetic::div_mod::lemma_small_mod(a as nat, m as nat);
        } else {
            vstd::arithmetic::div_mod::lemma_small_mod((a + m) as nat, m as nat);
            vstd::arithmetic::div_mod::lemma_mod_add_multiples_vanish(a as int, m);
        }
    }
}

impl BinaryOp<i8> for Div {
    open spec fn admits(lhs: i8, rhs: i8) -> bool {
        rhs != 0 && !(lhs == i8::MIN && rhs == -1)
    }

    open spec fn eval(lhs: i8, rhs: i8) -> i8 {
        truncated_div(lhs as int, rhs as int) as i8
    }

    fn apply(lhs: i8, rhs: i8) -> (out: i8) {
        proof {
            lemma_truncated_div_bounds(lhs as int, rhs as int, i8::MAX as int);
        }
        match lhs.checked_div(rhs) {
            Some(q) => q,
            None => unreached(),
        }
    }
}

impl BinaryOp<i8> for Rem {
    open spec fn admits(lhs: i8, rhs: i8) -> bool {
        rhs != 0 && !(lhs == i8::MIN && rhs == -1)
    }

    open spec fn eval(lhs: i8, rhs: i8) -> i8 {
        truncated_rem(lhs as int, rhs as int) as i8
    }

    fn apply(lhs: i8, rhs: i8) -> (out: i8) {
        proof {
            lemma_truncated_rem_bounds(lhs as int, rhs as int, i8::MAX as int);
        }
        match lhs.checked_rem(rhs) {
            Some(r) => r,
            None => unreached(),
        }
    }
}

impl BinaryOp<i8> for BitAnd {
    open spec fn admits(lhs: i8, rhs: i8) -> bool {
        true
    }

    open spec fn eval(lhs: i8, rhs: i8) -> i8 {
        lhs & rhs
    }

    fn apply(lhs: i8, rhs: i8) -> (out: i8) {
        lhs & rhs
    }
}

impl TotalOp<i8> for BitAnd {
    proof fn lemma_total(a: i8, b: i8) {
    }
}

impl BinaryOp<i8> for BitOr {
    open spec fn admits(lhs: i8, rhs: i8) -> bool {
        true
    }

    open spec fn eval(lhs: i8, rhs: i8) -> i8 {
        lhs | rhs
    }

    fn apply(lhs: i8, rhs: i8) -> (out: i8) {
        lhs | rhs
    }
}

impl TotalOp<i8> for BitOr {
    proof fn lemma_total(a: i8, b: i8) {
    }
}

impl BinaryOp<i8> for Shl {
    open spec fn admits(lhs: i8, rhs: i8) -> bool {
        true
    }

    open spec fn eval(lhs: i8, rhs: i8) -> i8 {
        lhs.wrapping_shl(shift_count(rhs as int, i8::BITS as int))
    }

    fn apply(lhs: i8, rhs: i8) -> (out: i8) {
        match rhs.checked_rem_euclid(i8::BITS as i8) {
            Some(count) => lhs.wrapping_shl(count as u32),
            None => unreached(),
        }
    }
}

impl TotalOp<i8> for Shl {
    proof fn lemma_total(a: i8, b: i8) {
    }
}

impl BinaryOp<i8> for Shr {
    open spec fn admits(lhs: i8, rhs: i8) -> bool {
        true
    }

    open spec fn eval(lhs: i8, rhs: i8) -> i8 {
        lhs.wrapping_shr(shift_count(rhs as int, i8::BITS as int))
    }

    fn apply(lhs: i8, rhs: i8) -> (out: i8) {
        match rhs.checked_rem_euclid(i8::BITS as i8) {
            Some(count) => lhs.wrapping_shr(count as u32),
            None => unreached(),
        }
    }
}

impl TotalOp<i8> for Shr {
    proof fn lemma_total(a: i8, b: i8) {
    }
}

impl BinaryOp<i8> for Min {
    open spec fn admits(lhs: i8, rhs: i8) -> bool {
        true
    }

    open spec fn eval(lhs: i8, rhs: i8) -> i8 {
        if lhs < rhs {
            lhs
        } else {
            rhs
        }
    }

    fn apply(lhs: i8, rhs: i8) -> (out: i8) {
        if lhs < rhs {
            lhs
        } else {
            rhs
        }
    }
}

impl TotalOp<i8> for Min {
    proof fn lemma_total(a: i8, b: i8) {
    }
}

impl ReduceOp<i8> for Min {
    open spec fn identity() -> i8 {
        i8::MAX
    }

    fn seed() -> (out: i8) {
        i8::MAX
    }

    proof fn lemma_associative(a: i8, b: i8, c: i8) {
    }

    proof fn lemma_commutative(a: i8, b: i8) {
    }

    proof fn lemma_identity(a: i8) {
    }
}

impl BinaryOp<i8> for Max {
    open spec fn admits(lhs: i8, rhs: i8) -> bool {
        true
    }

    open spec fn eval(lhs: i8, rhs: i8) -> i8 {
        if lhs > rhs {
            lhs
        } else {
            rhs
        }
    }

    fn apply(lhs: i8, rhs: i8) -> (out: i8) {
        if lhs > rhs {
            lhs
        } else {
            rhs
        }
    }
}

impl TotalOp<i8> for Max {
    proof fn lemma_total(a: i8, b: i8) {
    }
}

impl ReduceOp<i8> for Max {
    open spec fn identity() -> i8 {
        i8::MIN
    }

    fn seed() -> (out: i8) {
        i8::MIN
    }

    proof fn lemma_associative(a: i8, b: i8, c: i8) {
    }

    proof fn lemma_commutative(a: i8, b: i8) {
    }

    proof fn lemma_identity(a: i8) {
    }
}


impl BinaryOp<i16> for Add {
    open spec fn admits(lhs: i16, rhs: i16) -> bool {
        true
    }

    open spec fn eval(lhs: i16, rhs: i16) -> i16 {
        lhs.wrapping_add(rhs)
    }

    fn apply(lhs: i16, rhs: i16) -> (out: i16) {
        lhs.wrapping_add(rhs)
    }
}

impl TotalOp<i16> for Add {
    proof fn lemma_total(a: i16, b: i16) {
    }
}

impl ReduceOp<i16> for Add {
    open spec fn identity() -> i16 {
        0
    }

    fn seed() -> (out: i16) {
        0
    }

    proof fn lemma_associative(a: i16, b: i16, c: i16) {
    }

    proof fn lemma_commutative(a: i16, b: i16) {
    }

    proof fn lemma_identity(a: i16) {
    }
}

impl BinaryOp<i16> for Sub {
    open spec fn admits(lhs: i16, rhs: i16) -> bool {
        true
    }

    open spec fn eval(lhs: i16, rhs: i16) -> i16 {
        lhs.wrapping_sub(rhs)
    }

    fn apply(lhs: i16, rhs: i16) -> (out: i16) {
        lhs.wrapping_sub(rhs)
    }
}

impl TotalOp<i16> for Sub {
    proof fn lemma_total(a: i16, b: i16) {
    }
}

impl BinaryOp<i16> for Mul {
    open spec fn admits(lhs: i16, rhs: i16) -> bool {
        true
    }

    open spec fn eval(lhs: i16, rhs: i16) -> i16 {
        lhs.wrapping_mul(rhs)
    }

    fn apply(lhs: i16, rhs: i16) -> (out: i16) {
        lhs.wrapping_mul(rhs)
    }
}

impl TotalOp<i16> for Mul {
    proof fn lemma_total(a: i16, b: i16) {
    }
}

impl ReduceOp<i16> for Mul {
    open spec fn identity() -> i16 {
        1
    }

    fn seed() -> (out: i16) {
        1
    }

    proof fn lemma_associative(a: i16, b: i16, c: i16) {
        let m = u16::MAX + 1;
        lemma_signed_mul_associative(a as int, b as int, c as int, m);
        assert(a.wrapping_mul(b) == signed_wrap(a * b, m));
        assert(b.wrapping_mul(c) == signed_wrap(b * c, m));
    }

    proof fn lemma_commutative(a: i16, b: i16) {
        vstd::arithmetic::mul::lemma_mul_is_commutative(a as int, b as int);
    }

    proof fn lemma_identity(a: i16) {
        let m = u16::MAX + 1;
        if a >= 0 {
            vstd::arithmetic::div_mod::lemma_small_mod(a as nat, m as nat);
        } else {
            vstd::arithmetic::div_mod::lemma_small_mod((a + m) as nat, m as nat);
            vstd::arithmetic::div_mod::lemma_mod_add_multiples_vanish(a as int, m);
        }
    }
}

impl BinaryOp<i16> for Div {
    open spec fn admits(lhs: i16, rhs: i16) -> bool {
        rhs != 0 && !(lhs == i16::MIN && rhs == -1)
    }

    open spec fn eval(lhs: i16, rhs: i16) -> i16 {
        truncated_div(lhs as int, rhs as int) as i16
    }

    fn apply(lhs: i16, rhs: i16) -> (out: i16) {
        proof {
            lemma_truncated_div_bounds(lhs as int, rhs as int, i16::MAX as int);
        }
        match lhs.checked_div(rhs) {
            Some(q) => q,
            None => unreached(),
        }
    }
}

impl BinaryOp<i16> for Rem {
    open spec fn admits(lhs: i16, rhs: i16) -> bool {
        rhs != 0 && !(lhs == i16::MIN && rhs == -1)
    }

    open spec fn eval(lhs: i16, rhs: i16) -> i16 {
        truncated_rem(lhs as int, rhs as int) as i16
    }

    fn apply(lhs: i16, rhs: i16) -> (out: i16) {
        proof {
            lemma_truncated_rem_bounds(lhs as int, rhs as int, i16::MAX as int);
        }
        match lhs.checked_rem(rhs) {
            Some(r) => r,
            None => unreached(),
        }
    }
}

impl BinaryOp<i16> for BitAnd {
    open spec fn admits(lhs: i16, rhs: i16) -> bool {
        true
    }

    open spec fn eval(lhs: i16, rhs: i16) -> i16 {
        lhs & rhs
    }

    fn apply(lhs: i16, rhs: i16) -> (out: i16) {
        lhs & rhs
    }
}

impl TotalOp<i16> for BitAnd {
    proof fn lemma_total(a: i16, b: i16) {
    }
}

impl BinaryOp<i16> for BitOr {
    open spec fn admits(lhs: i16, rhs: i16) -> bool {
        true
    }

    open spec fn eval(lhs: i16, rhs: i16) -> i16 {
        lhs | rhs
    }

    fn apply(lhs: i16, rhs: i16) -> (out: i16) {
        lhs | rhs
    }
}

impl TotalOp<i16> for BitOr {
    proof fn lemma_total(a: i16, b: i16) {
    }
}

impl BinaryOp<i16> for Shl {
    open spec fn admits(lhs: i16, rhs: i16) -> bool {
        true
    }

    open spec fn eval(lhs: i16, rhs: i16) -> i16 {
        lhs.wrapping_shl(shift_count(rhs as int, i16::BITS as int))
    }

    fn apply(lhs: i16, rhs: i16) -> (out: i16) {
        match rhs.checked_rem_euclid(i16::BITS as i16) {
            Some(count) => lhs.wrapping_shl(count as u32),
            None => unreached(),
        }
    }
}

impl TotalOp<i16> for Shl {
    proof fn lemma_total(a: i16, b: i16) {
    }
}

impl BinaryOp<i16> for Shr {
    open spec fn admits(lhs: i16, rhs: i16) -> bool {
        true
    }

    open spec fn eval(lhs: i16, rhs: i16) -> i16 {
        lhs.wrapping_shr(shift_count(rhs as int, i16::BITS as int))
    }

    fn apply(lhs: i16, rhs: i16) -> (out: i16) {
        match rhs.checked_rem_euclid(i16::BITS as i16) {
            Some(count) => lhs.wrapping_shr(count as u32),
            None => unreached(),
        }
    }
}

impl TotalOp<i16> for Shr {
    proof fn lemma_total(a: i16, b: i16) {
    }
}

impl BinaryOp<i16> for Min {
    open spec fn admits(lhs: i16, rhs: i16) -> bool {
        true
    }

    open spec fn eval(lhs: i16, rhs: i16) -> i16 {
        if lhs < rhs {
            lhs
        } else {
            rhs
        }
    }

    fn apply(lhs: i16, rhs: i16) -> (out: i16) {
        if lhs < rhs {
            lhs
        } else {
            rhs
        }
    }
}

impl TotalOp<i16> for Min {
    proof fn lemma_total(a: i16, b: i16) {
    }
}

impl ReduceOp<i16> for Min {
    open spec fn identity() -> i16 {
        i16::MAX
    }

    fn seed() -> (out: i16) {
        i16::MAX
    }

    proof fn lemma_associative(a: i16, b: i16, c: i16) {
    }

    proof fn lemma_commutative(a: i16, b: i16) {
    }

    proof fn lemma_identity(a: i16) {
    }
}

impl BinaryOp<i16> for Max {
    open spec fn admits(lhs: i16, rhs: i16) -> bool {
        true
    }

    open spec fn eval(lhs: i16, rhs: i16) -> i16 {
        if lhs > rhs {
            lhs
        } else {
            rhs
        }
    }

    fn apply(lhs: i16, rhs: i16) -> (out: i16) {
        if lhs > rhs {
            lhs
        } else {
            rhs
        }
    }
}

impl TotalOp<i16> for Max {
    proof fn lemma_total(a: i16, b: i16) {
    }
}

impl ReduceOp<i16> for Max {
    open spec fn identity() -> i16 {
        i16::MIN
    }

    fn seed() -> (out: i16) {
        i16::MIN
    }

    proof fn lemma_associative(a: i16, b: i16, c: i16) {
    }

    proof fn lemma_commutative(a: i16, b: i16) {
    }

    proof fn lemma_identity(a: i16) {
    }
}


impl BinaryOp<i32> for Add {
    open spec fn admits(lhs: i32, rhs: i32) -> bool {
        true
    }

    open spec fn eval(lhs: i32, rhs: i32) -> i32 {
        lhs.wrapping_add(rhs)
    }

    fn apply(lhs: i32, rhs: i32) -> (out: i32) {
        lhs.wrapping_add(rhs)
    }
}

impl TotalOp<i32> for Add {
    proof fn lemma_total(a: i32, b: i32) {
    }
}

impl ReduceOp<i32> for Add {
    open spec fn identity() -> i32 {
        0
    }

    fn seed() -> (out: i32) {
        0
    }

    proof fn lemma_associative(a: i32, b: i32, c: i32) {
    }

    proof fn lemma_commutative(a: i32, b: i32) {
    }

    proof fn lemma_identity(a: i32) {
    }
}

impl BinaryOp<i32> for Sub {
    open spec fn admits(lhs: i32, rhs: i32) -> bool {
        true
    }

    open spec fn eval(lhs: i32, rhs: i32) -> i32 {
        lhs.wrapping_sub(rhs)
    }

    fn apply(lhs: i32, rhs: i32) -> (out: i32) {
        lhs.wrapping_sub(rhs)
    }
}

impl TotalOp<i32> for Sub {
    proof fn lemma_total(a: i32, b: i32) {
    }
}

impl BinaryOp<i32> for Mul {
    open spec fn admits(lhs: i32, rhs: i32) -> bool {
        true
    }

    open spec fn eval(lhs: i32, rhs: i32) -> i32 {
        lhs.wrapping_mul(rhs)
    }

    fn apply(lhs: i32, rhs: i32) -> (out: i32) {
        lhs.wrapping_mul(rhs)
    }
}

impl TotalOp<i32> for Mul {
    proof fn lemma_total(a: i32, b: i32) {
    }
}

impl ReduceOp<i32> for Mul {
    open spec fn identity() -> i32 {
        1
    }

    fn seed() -> (out: i32) {
        1
    }

    proof fn lemma_associative(a: i32, b: i32, c: i32) {
        let m = u32::MAX + 1;
        lemma_signed_mul_associative(a as int, b as int, c as int, m);
        assert(a.wrapping_mul(b) == signed_wrap(a * b, m));
        assert(b.wrapping_mul(c) == signed_wrap(b * c, m));
    }

    proof fn lemma_commutative(a: i32, b: i32) {
        vstd::arithmetic::mul::lemma_mul_is_commutative(a as int, b as int);
    }

    proof fn lemma_identity(a: i32) {
        let m = u32::MAX + 1;
        if a >= 0 {
            vstd::arithmetic::div_mod::lemma_small_mod(a as nat, m as nat);
        } else {
            vstd::arithmetic::div_mod::lemma_small_mod((a + m) as nat, m as nat);
            vstd::arithmetic::div_mod::lemma_mod_add_multiples_vanish(a as int, m);
        }
    }
}

impl BinaryOp<i32> for Div {
    open spec fn admits(lhs: i32, rhs: i32) -> bool {
        rhs != 0 && !(lhs == i32::MIN && rhs == -1)
    }

    open spec fn eval(lhs: i32, rhs: i32) -> i32 {
        truncated_div(lhs as int, rhs as int) as i32
    }

    fn apply(lhs: i32, rhs: i32) -> (out: i32) {
        proof {
            lemma_truncated_div_bounds(lhs as int, rhs as int, i32::MAX as int);
        }
        match lhs.checked_div(rhs) {
            Some(q) => q,
            None => unreached(),
        }
    }
}

impl BinaryOp<i32> for Rem {
    open spec fn admits(lhs: i32, rhs: i32) -> bool {
        rhs != 0 && !(lhs == i32::MIN && rhs == -1)
    }

    open spec fn eval(lhs: i32, rhs: i32) -> i32 {
        truncated_rem(lhs as int, rhs as int) as i32
    }

    fn apply(lhs: i32, rhs: i32) -> (out: i32) {
        proof {
            lemma_truncated_rem_bounds(lhs as int, rhs as int, i32::MAX as int);
        }
        match lhs.checked_rem(rhs) {
            Some(r) => r,
            None => unreached(),
        }
    }
}

impl BinaryOp<i32> for BitAnd {
    open spec fn admits(lhs: i32, rhs: i32) -> bool {
        true
    }

    open spec fn eval(lhs: i32, rhs: i32) -> i32 {
        lhs & rhs
    }

    fn apply(lhs: i32, rhs: i32) -> (out: i32) {
        lhs & rhs
    }
}

impl TotalOp<i32> for BitAnd {
    proof fn lemma_total(a: i32, b: i32) {
    }
}

impl BinaryOp<i32> for BitOr {
    open spec fn admits(lhs: i32, rhs: i32) -> bool {
        true
    }

    open spec fn eval(lhs: i32, rhs: i32) -> i32 {
        lhs | rhs
    }

    fn apply(lhs: i32, rhs: i32) -> (out: i32) {
        lhs | rhs
    }
}

impl TotalOp<i32> for BitOr {
    proof fn lemma_total(a: i32, b: i32) {
    }
}

impl BinaryOp<i32> for Shl {
    open spec fn admits(lhs: i32, rhs: i32) -> bool {
        true
    }

    open spec fn eval(lhs: i32, rhs: i32) -> i32 {
        lhs.wrapping_shl(shift_count(rhs as int, i32::BITS as int))
    }

    fn apply(lhs: i32, rhs: i32) -> (out: i32) {
        match rhs.checked_rem_euclid(i32::BITS as i32) {
            Some(count) => lhs.wrapping_shl(count as u32),
            None => unreached(),
        }
    }
}

impl TotalOp<i32> for Shl {
    proof fn lemma_total(a: i32, b: i32) {
    }
}

impl BinaryOp<i32> for Shr {
    open spec fn admits(lhs: i32, rhs: i32) -> bool {
        true
    }

    open spec fn eval(lhs: i32, rhs: i32) -> i32 {
        lhs.wrapping_shr(shift_count(rhs as int, i32::BITS as int))
    }

    fn apply(lhs: i32, rhs: i32) -> (out: i32) {
        match rhs.checked_rem_euclid(i32::BITS as i32) {
            Some(count) => lhs.wrapping_shr(count as u32),
            None => unreached(),
        }
    }
}

impl TotalOp<i32> for Shr {
    proof fn lemma_total(a: i32, b: i32) {
    }
}

impl BinaryOp<i32> for Min {
    open spec fn admits(lhs: i32, rhs: i32) -> bool {
        true
    }

    open spec fn eval(lhs: i32, rhs: i32) -> i32 {
        if lhs < rhs {
            lhs
        } else {
            rhs
        }
    }

    fn apply(lhs: i32, rhs: i32) -> (out: i32) {
        if lhs < rhs {
            lhs
        } else {
            rhs
        }
    }
}

impl TotalOp<i32> for Min {
    proof fn lemma_total(a: i32, b: i32) {
    }
}

impl ReduceOp<i32> for Min {
    open spec fn identity() -> i32 {
        i32::MAX
    }

    fn seed() -> (out: i32) {
        i32::MAX
    }

    proof fn lemma_associative(a: i32, b: i32, c: i32) {
    }

    proof fn lemma_commutative(a: i32, b: i32) {
    }

    proof fn lemma_identity(a: i32) {
    }
}

impl BinaryOp<i32> for Max {
    open spec fn admits(lhs: i32, rhs: i32) -> bool {
        true
    }

    open spec fn eval(lhs: i32, rhs: i32) -> i32 {
        if lhs > rhs {
            lhs
        } else {
            rhs
        }
    }

    fn apply(lhs: i32, rhs: i32) -> (out: i32) {
        if lhs > rhs {
            lhs
        } else {
            rhs
        }
    }
}

impl TotalOp<i32> for Max {
    proof fn lemma_total(a: i32, b: i32) {
    }
}

impl ReduceOp<i32> for Max {
    open spec fn identity() -> i32 {
        i32::MIN
    }

    fn seed() -> (out: i32) {
        i32::MIN
    }

    proof fn lemma_associative(a: i32, b: i32, c: i32) {
    }

    proof fn lemma_commutative(a: i32, b: i32) {
    }

    proof fn lemma_identity(a: i32) {
    }
}


impl BinaryOp<i64> for Add {
    open spec fn admits(lhs: i64, rhs: i64) -> bool {
        true
    }

    open spec fn eval(lhs: i64, rhs: i64) -> i64 {
        lhs.wrapping_add(rhs)
    }

    fn apply(lhs: i64, rhs: i64) -> (out: i64) {
        lhs.wrapping_add(rhs)
    }
}

impl TotalOp<i64> for Add {
    proof fn lemma_total(a: i64, b: i64) {
    }
}

impl ReduceOp<i64> for Add {
    open spec fn identity() -> i64 {
        0
    }

    fn seed() -> (out: i64) {
        0
    }

    proof fn lemma_associative(a: i64, b: i64, c: i64) {
    }

    proof fn lemma_commutative(a: i64, b: i64) {
    }

    proof fn lemma_identity(a: i64) {
    }
}

impl BinaryOp<i64> for Sub {
    open spec fn admits(lhs: i64, rhs: i64) -> bool {
        true
    }

    open spec fn eval(lhs: i64, rhs: i64) -> i64 {
        lhs.wrapping_sub(rhs)
    }

    fn apply(lhs: i64, rhs: i64) -> (out: i64) {
        lhs.wrapping_sub(rhs)
    }
}

impl TotalOp<i64> for Sub {
    proof fn lemma_total(a: i64, b: i64) {
    }
}

impl BinaryOp<i64> for Mul {
    open spec fn admits(lhs: i64, rhs: i64) -> bool {
        true
    }

    open spec fn eval(lhs: i64, rhs: i64) -> i64 {
        lhs.wrapping_mul(rhs)
    }

    fn apply(lhs: i64, rhs: i64) -> (out: i64) {
        lhs.wrapping_mul(rhs)
    }
}

impl TotalOp<i64> for Mul {
    proof fn lemma_total(a: i64, b: i64) {
    }
}

impl ReduceOp<i64> for Mul {
    open spec fn identity() -> i64 {
        1
    }

    fn seed() -> (out: i64) {
        1
    }

    proof fn lemma_associative(a: i64, b: i64, c: i64) {
        let m = u64::MAX + 1;
        lemma_signed_mul_associative(a as int, b as int, c as int, m);
        assert(a.wrapping_mul(b) == signed_wrap(a * b, m));
        assert(b.wrapping_mul(c) == signed_wrap(b * c, m));
    }

    proof fn lemma_commutative(a: i64, b: i64) {
        vstd::arithmetic::mul::lemma_mul_is_commutative(a as int, b as int);
    }

    proof fn lemma_identity(a: i64) {
        let m = u64::MAX + 1;
        if a >= 0 {
            vstd::arithmetic::div_mod::lemma_small_mod(a as nat, m as nat);
        } else {
            vstd::arithmetic::div_mod::lemma_small_mod((a + m) as nat, m as nat);
            vstd::arithmetic::div_mod::lemma_mod_add_multiples_vanish(a as int, m);
        }
    }
}

impl BinaryOp<i64> for Div {
    open spec fn admits(lhs: i64, rhs: i64) -> bool {
        rhs != 0 && !(lhs == i64::MIN && rhs == -1)
    }

    open spec fn eval(lhs: i64, rhs: i64) -> i64 {
        truncated_div(lhs as int, rhs as int) as i64
    }

    fn apply(lhs: i64, rhs: i64) -> (out: i64) {
        proof {
            lemma_truncated_div_bounds(lhs as int, rhs as int, i64::MAX as int);
        }
        match lhs.checked_div(rhs) {
            Some(q) => q,
            None => unreached(),
        }
    }
}

impl BinaryOp<i64> for Rem {
    open spec fn admits(lhs: i64, rhs: i64) -> bool {
        rhs != 0 && !(lhs == i64::MIN && rhs == -1)
    }

    open spec fn eval(lhs: i64, rhs: i64) -> i64 {
        truncated_rem(lhs as int, rhs as int) as i64
    }

    fn apply(lhs: i64, rhs: i64) -> (out: i64) {
        proof {
            lemma_truncated_rem_bounds(lhs as int, rhs as int, i64::MAX as int);
        }
        match lhs.checked_rem(rhs) {
            Some(r) => r,
            None => unreached(),
        }
    }
}

impl BinaryOp<i64> for BitAnd {
    open spec fn admits(lhs: i64, rhs: i64) -> bool {
        true
    }

    open spec fn eval(lhs: i64, rhs: i64) -> i64 {
        lhs & rhs
    }

    fn apply(lhs: i64, rhs: i64) -> (out: i64) {
        lhs & rhs
    }
}

impl TotalOp<i64> for BitAnd {
    proof fn lemma_total(a: i64, b: i64) {
    }
}

impl BinaryOp<i64> for BitOr {
    open spec fn admits(lhs: i64, rhs: i64) -> bool {
        true
    }

    open spec fn eval(lhs: i64, rhs: i64) -> i64 {
        lhs | rhs
    }

    fn apply(lhs: i64, rhs: i64) -> (out: i64) {
        lhs | rhs
    }
}

impl TotalOp<i64> for BitOr {
    proof fn lemma_total(a: i64, b: i64) {
    }
}

impl BinaryOp<i64> for Shl {
    open spec fn admits(lhs: i64, rhs: i64) -> bool {
        true
    }

    open spec fn eval(lhs: i64, rhs: i64) -> i64 {
        lhs.wrapping_shl(shift_count(rhs as int, i64::BITS as int))
    }

    fn apply(lhs: i64, rhs: i64) -> (out: i64) {
        match rhs.checked_rem_euclid(i64::BITS as i64) {
            Some(count) => lhs.wrapping_shl(count as u32),
            None => unreached(),
        }
    }
}

impl TotalOp<i64> for Shl {
    proof fn lemma_total(a: i64, b: i64) {
    }
}

impl BinaryOp<i64> for Shr {
    open spec fn admits(lhs: i64, rhs: i64) -> bool {
        true
    }

    open spec fn eval(lhs: i64, rhs: i64) -> i64 {
        lhs.wrapping_shr(shift_count(rhs as int, i64::BITS as int))
    }

    fn apply(lhs: i64, rhs: i64) -> (out: i64) {
        match rhs.checked_rem_euclid(i64::BITS as i64) {
            Some(count) => lhs.wrapping_shr(count as u32),
            None => unreached(),
        }
    }
}

impl TotalOp<i64> for Shr {
    proof fn lemma_total(a: i64, b: i64) {
    }
}

impl BinaryOp<i64> for Min {
    open spec fn admits(lhs: i64, rhs: i64) -> bool {
        true
    }

    open spec fn eval(lhs: i64, rhs: i64) -> i64 {
        if lhs < rhs {
            lhs
        } else {
            rhs
        }
    }

    fn apply(lhs: i64, rhs: i64) -> (out: i64) {
        if lhs < rhs {
            lhs
        } else {
            rhs
        }
    }
}

impl TotalOp<i64> for Min {
    proof fn lemma_total(a: i64, b: i64) {
    }
}

impl ReduceOp<i64> for Min {
    open spec fn identity() -> i64 {
        i64::MAX
    }

    fn seed() -> (out: i64) {
        i64::MAX
    }

    proof fn lemma_associative(a: i64, b: i64, c: i64) {
    }

    proof fn lemma_commutative(a: i64, b: i64) {
    }

    proof fn lemma_identity(a: i64) {
    }
}

impl BinaryOp<i64> for Max {
    open spec fn admits(lhs: i64, rhs: i64) -> bool {
        true
    }

    open spec fn eval(lhs: i64, rhs: i64) -> i64 {
        if lhs > rhs {
            lhs
        } else {
            rhs
        }
    }

    fn apply(lhs: i64, rhs: i64) -> (out: i64) {
        if lhs > rhs {
            lhs
        } else {
            rhs
        }
    }
}

impl TotalOp<i64> for Max {
    proof fn lemma_total(a: i64, b: i64) {
    }
}

impl ReduceOp<i64> for Max {
    open spec fn identity() -> i64 {
        i64::MIN
    }

    fn seed() -> (out: i64) {
        i64::MIN
    }

    proof fn lemma_associative(a: i64, b: i64, c: i64) {
    }

    proof fn lemma_commutative(a: i64, b: i64) {
    }

    proof fn lemma_identity(a: i64) {
    }
}


impl BinaryOp<i128> for Add {
    open spec fn admits(lhs: i128, rhs: i128) -> bool {
        true
    }

    open spec fn eval(lhs: i128, rhs: i128) -> i128 {
        lhs.wrapping_add(rhs)
    }

    fn apply(lhs: i128, rhs: i128) -> (out: i128) {
        lhs.wrapping_add(rhs)
    }
}

impl TotalOp<i128> for Add {
    proof fn lemma_total(a: i128, b: i128) {
    }
}

impl ReduceOp<i128> for Add {
    open spec fn identity() -> i128 {
        0
    }

    fn seed() -> (out: i128) {
        0
    }

    proof fn lemma_associative(a: i128, b: i128, c: i128) {
    }

    proof fn lemma_commutative(a: i128, b: i128) {
    }

    proof fn lemma_identity(a: i128) {
    }
}

impl BinaryOp<i128> for Sub {
    open spec fn admits(lhs: i128, rhs: i128) -> bool {
        true
    }

    open spec fn eval(lhs: i128, rhs: i128) -> i128 {
        lhs.wrapping_sub(rhs)
    }

    fn apply(lhs: i128, rhs: i128) -> (out: i128) {
        lhs.wrapping_sub(rhs)
    }
}

impl TotalOp<i128> for Sub {
    proof fn lemma_total(a: i128, b: i128) {
    }
}

impl BinaryOp<i128> for Mul {
    open spec fn admits(lhs: i128, rhs: i128) -> bool {
        true
    }

    open spec fn eval(lhs: i128, rhs: i128) -> i128 {
        lhs.wrapping_mul(rhs)
    }

    fn apply(lhs: i128, rhs: i128) -> (out: i128) {
        lhs.wrapping_mul(rhs)
    }
}

impl TotalOp<i128> for Mul {
    proof fn lemma_total(a: i128, b: i128) {
    }
}

impl ReduceOp<i128> for Mul {
    open spec fn identity() -> i128 {
        1
    }

    fn seed() -> (out: i128) {
        1
    }

    proof fn lemma_associative(a: i128, b: i128, c: i128) {
        let m = u128::MAX + 1;
        lemma_signed_mul_associative(a as int, b as int, c as int, m);
        assert(a.wrapping_mul(b) == signed_wrap(a * b, m));
        assert(b.wrapping_mul(c) == signed_wrap(b * c, m));
    }

    proof fn lemma_commutative(a: i128, b: i128) {
        vstd::arithmetic::mul::lemma_mul_is_commutative(a as int, b as int);
    }

    proof fn lemma_identity(a: i128) {
        let m = u128::MAX + 1;
        if a >= 0 {
            vstd::arithmetic::div_mod::lemma_small_mod(a as nat, m as nat);
        } else {
            vstd::arithmetic::div_mod::lemma_small_mod((a + m) as nat, m as nat);
            vstd::arithmetic::div_mod::lemma_mod_add_multiples_vanish(a as int, m);
        }
    }
}

impl BinaryOp<i128> for Div {
    open spec fn admits(lhs: i128, rhs: i128) -> bool {
        rhs != 0 && !(lhs == i128::MIN && rhs == -1)
    }

    open spec fn eval(lhs: i128, rhs: i128) -> i128 {
        truncated_div(lhs as int, rhs as int) as i128
    }

    fn apply(lhs: i128, rhs: i128) -> (out: i128) {
        proof {
            lemma_truncated_div_bounds(lhs as int, rhs as int, i128::MAX as int);
        }
        match lhs.checked_div(rhs) {
            Some(q) => q,
            None => unreached(),
        }
    }
}

impl BinaryOp<i128> for Rem {
    open spec fn admits(lhs: i128, rhs: i128) -> bool {
        rhs != 0 && !(lhs == i128::MIN && rhs == -1)
    }

    open spec fn eval(lhs: i128, rhs: i128) -> i128 {
        truncated_rem(lhs as int, rhs as int) as i128
    }

    fn apply(lhs: i128, rhs: i128) -> (out: i128) {
        proof {
            lemma_truncated_rem_bounds(lhs as int, rhs as int, i128::MAX as int);
        }
        match lhs.checked_rem(rhs) {
            Some(r) => r,
            None => unreached(),
        }
    }
}

impl BinaryOp<i128> for BitAnd {
    open spec fn admits(lhs: i128, rhs: i128) -> bool {
        true
    }

    open spec fn eval(lhs: i128, rhs: i128) -> i128 {
        lhs & rhs
    }

    fn apply(lhs: i128, rhs: i128) -> (out: i128) {
        lhs & rhs
    }
}

impl TotalOp<i128> for BitAnd {
    proof fn lemma_total(a: i128, b: i128) {
    }
}

impl BinaryOp<i128> for BitOr {
    open spec fn admits(lhs: i128, rhs: i128) -> bool {
        true
    }

    open spec fn eval(lhs: i128, rhs: i128) -> i128 {
        lhs | rhs
    }

    fn apply(lhs: i128, rhs: i128) -> (out: i128) {
        lhs | rhs
    }
}

impl TotalOp<i128> for BitOr {
    proof fn lemma_total(a: i128, b: i128) {
    }
}

impl BinaryOp<i128> for Shl {
    open spec fn admits(lhs: i128, rhs: i128) -> bool {
        true
    }

    open spec fn eval(lhs: i128, rhs: i128) -> i128 {
        lhs.wrapping_shl(shift_count(rhs as int, i128::BITS as int))
    }

    fn apply(lhs: i128, rhs: i128) -> (out: i128) {
        match rhs.checked_rem_euclid(i128::BITS as i128) {
            Some(count) => lhs.wrapping_shl(count as u32),
            None => unreached(),
        }
    }
}

impl TotalOp<i128> for Shl {
    proof fn lemma_total(a: i128, b: i128) {
    }
}

impl BinaryOp<i128> for Shr {
    open spec fn admits(lhs: i128, rhs: i128) -> bool {
        true
    }

    open spec fn eval(lhs: i128, rhs: i128) -> i128 {
        lhs.wrapping_shr(shift_count(rhs as int, i128::BITS as int))
    }

    fn apply(lhs: i128, rhs: i128) -> (out: i128) {
        match rhs.checked_rem_euclid(i128::BITS as i128) {
            Some(count) => lhs.wrapping_shr(count as u32),
            None => unreached(),
        }
    }
}

impl TotalOp<i128> for Shr {
    proof fn lemma_total(a: i128, b: i128) {
    }
}

impl BinaryOp<i128> for Min {
    open spec fn admits(lhs: i128, rhs: i128) -> bool {
        true
    }

    open spec fn eval(lhs: i128, rhs: i128) -> i128 {
        if lhs < rhs {
            lhs
        } else {
            rhs
        }
    }

    fn apply(lhs: i128, rhs: i128) -> (out: i128) {
        if lhs < rhs {
            lhs
        } else {
            rhs
        }
    }
}

impl TotalOp<i128> for Min {
    proof fn lemma_total(a: i128, b: i128) {
    }
}

impl ReduceOp<i128> for Min {
    open spec fn identity() -> i128 {
        i128::MAX
    }

    fn seed() -> (out: i128) {
        i128::MAX
    }

    proof fn lemma_associative(a: i128, b: i128, c: i128) {
    }

    proof fn lemma_commutative(a: i128, b: i128) {
    }

    proof fn lemma_identity(a: i128) {
    }
}

impl BinaryOp<i128> for Max {
    open spec fn admits(lhs: i128, rhs: i128) -> bool {
        true
    }

    open spec fn eval(lhs: i128, rhs: i128) -> i128 {
        if lhs > rhs {
            lhs
        } else {
            rhs
        }
    }

    fn apply(lhs: i128, rhs: i128) -> (out: i128) {
        if lhs > rhs {
            lhs
        } else {
            rhs
        }
    }
}

impl TotalOp<i128> for Max {
    proof fn lemma_total(a: i128, b: i128) {
    }
}

impl ReduceOp<i128> for Max {
    open spec fn identity() -> i128 {
        i128::MIN
    }

    fn seed() -> (out: i128) {
        i128::MIN
    }

    proof fn lemma_associative(a: i128, b: i128, c: i128) {
    }

    proof fn lemma_commutative(a: i128, b: i128) {
    }

    proof fn lemma_identity(a: i128) {
    }
}


impl BinaryOp<isize> for Add {
    open spec fn admits(lhs: isize, rhs: isize) -> bool {
        true
    }

    open spec fn eval(lhs: isize, rhs: isize) -> isize {
        lhs.wrapping_add(rhs)
    }

    fn apply(lhs: isize, rhs: isize) -> (out: isize) {
        lhs.wrapping_add(rhs)
    }
}

impl TotalOp<isize> for Add {
    proof fn lemma_total(a: isize, b: isize) {
    }
}

impl ReduceOp<isize> for Add {
    open spec fn identity() -> isize {
        0
    }

    fn seed() -> (out: isize) {
        0
    }

    proof fn lemma_associative(a: isize, b: isize, c: isize) {
    }

    proof fn lemma_commutative(a: isize, b: isize) {
    }

    proof fn lemma_identity(a: isize) {
    }
}

impl BinaryOp<isize> for Sub {
    open spec fn admits(lhs: isize, rhs: isize) -> bool {
        true
    }

    open spec fn eval(lhs: isize, rhs: isize) -> isize {
        lhs.wrapping_sub(rhs)
    }

    fn apply(lhs: isize, rhs: isize) -> (out: isize) {
        lhs.wrapping_sub(rhs)
    }
}

impl TotalOp<isize> for Sub {
    proof fn lemma_total(a: isize, b: isize) {
    }
}

impl BinaryOp<isize> for Mul {
    open spec fn admits(lhs: isize, rhs: isize) -> bool {
        true
    }

    open spec fn eval(lhs: isize, rhs: isize) -> isize {
        lhs.wrapping_mul(rhs)
    }

    fn apply(lhs: isize, rhs: isize) -> (out: isize) {
        lhs.wrapping_mul(rhs)
    }
}

impl TotalOp<isize> for Mul {
    proof fn lemma_total(a: isize, b: isize) {
    }
}

impl ReduceOp<isize> for Mul {
    open spec fn identity() -> isize {
        1
    }

    fn seed() -> (out: isize) {
        1
    }

    proof fn lemma_associative(a: isize, b: isize, c: isize) {
        let m = usize::MAX + 1;
        lemma_signed_mul_associative(a as int, b as int, c as int, m);
        assert(a.wrapping_mul(b) == signed_wrap(a * b, m));
        assert(b.wrapping_mul(c) == signed_wrap(b * c, m));
    }

    proof fn lemma_commutative(a: isize, b: isize) {
        vstd::arithmetic::mul::lemma_mul_is_commutative(a as int, b as int);
    }

    proof fn lemma_identity(a: isize) {
        let m = usize::MAX + 1;
        if a >= 0 {
            vstd::arithmetic::div_mod::lemma_small_mod(a as nat, m as nat);
        } else {
            vstd::arithmetic::div_mod::lemma_small_mod((a + m) as nat, m as nat);
            vstd::arithmetic::div_mod::lemma_mod_add_multiples_vanish(a as int, m);
        }
    }
}

impl BinaryOp<isize> for Div {
    open spec fn admits(lhs: isize, rhs: isize) -> bool {
        rhs != 0 && !(lhs == isize::MIN && rhs == -1)
    }

    open spec fn eval(lhs: isize, rhs: isize) -> isize {
        truncated_div(lhs as int, rhs as int) as isize
    }

    fn apply(lhs: isize, rhs: isize) -> (out: isize) {
        proof {
            lemma_truncated_div_bounds(lhs as int, rhs as int, isize::MAX as int);
        }
        match lhs.checked_div(rhs) {
            Some(q) => q,
            None => unreached(),
        }
    }
}

impl BinaryOp<isize> for Rem {
    open spec fn admits(lhs: isize, rhs: isize) -> bool {
        rhs != 0 && !(lhs == isize::MIN && rhs == -1)
    }

    open spec fn eval(lhs: isize, rhs: isize) -> isize {
        truncated_rem(lhs as int, rhs as int) as isize
    }

    fn apply(lhs: isize, rhs: isize) -> (out: isize) {
        proof {
            lemma_truncated_rem_bounds(lhs as int, rhs as int, isize::MAX as int);
        }
        match lhs.checked_rem(rhs) {
            Some(r) => r,
            None => unreached(),
        }
    }
}

impl BinaryOp<isize> for BitAnd {
    open spec fn admits(lhs: isize, rhs: isize) -> bool {
        true
    }

    open spec fn eval(lhs: isize, rhs: isize) -> isize {
        lhs & rhs
    }

    fn apply(lhs: isize, rhs: isize) -> (out: isize) {
        lhs & rhs
    }
}

impl TotalOp<isize> for BitAnd {
    proof fn lemma_total(a: isize, b: isize) {
    }
}

impl BinaryOp<isize> for BitOr {
    open spec fn admits(lhs: isize, rhs: isize) -> bool {
        true
    }

    open spec fn eval(lhs: isize, rhs: isize) -> isize {
        lhs | rhs
    }

    fn apply(lhs: isize, rhs: isize) -> (out: isize) {
        lhs | rhs
    }
}

impl TotalOp<isize> for BitOr {
    proof fn lemma_total(a: isize, b: isize) {
    }
}

impl BinaryOp<isize> for Shl {
    open spec fn admits(lhs: isize, rhs: isize) -> bool {
        true
    }

    open spec fn eval(lhs: isize, rhs: isize) -> isize {
        lhs.wrapping_shl(shift_count(rhs as int, isize::BITS as int))
    }

    fn apply(lhs: isize, rhs: isize) -> (out: isize) {
        match rhs.checked_rem_euclid(isize::BITS as isize) {
            Some(count) => lhs.wrapping_shl(count as u32),
            None => unreached(),
        }
    }
}

impl TotalOp<isize> for Shl {
    proof fn lemma_total(a: isize, b: isize) {
    }
}

impl BinaryOp<isize> for Shr {
    open spec fn admits(lhs: isize, rhs: isize) -> bool {
        true
    }

    open spec fn eval(lhs: isize, rhs: isize) -> isize {
        lhs.wrapping_shr(shift_count(rhs as int, isize::BITS as int))
    }

    fn apply(lhs: isize, rhs: isize) -> (out: isize) {
        match rhs.checked_rem_euclid(isize::BITS as isize) {
            Some(count) => lhs.wrapping_shr(count as u32),
            None => unreached(),
        }
    }
}

impl TotalOp<isize> for Shr {
    proof fn lemma_total(a: isize, b: isize) {
    }
}

impl BinaryOp<isize> for Min {
    open spec fn admits(lhs: isize, rhs: isize) -> bool {
        true
    }

    open spec fn eval(lhs: isize, rhs: isize) -> isize {
        if lhs < rhs {
            lhs
        } else {
            rhs
        }
    }

    fn apply(lhs: isize, rhs: isize) -> (out: isize) {
        if lhs < rhs {
            lhs
        } else {
            rhs
        }
    }
}

impl TotalOp<isize> for Min {
    proof fn lemma_total(a: isize, b: isize) {
    }
}

impl ReduceOp<isize> for Min {
    open spec fn identity() -> isize {
        isize::MAX
    }

    fn seed() -> (out: isize) {
        isize::MAX
    }

    proof fn lemma_associative(a: isize, b: isize, c: isize) {
    }

    proof fn lemma_commutative(a: isize, b: isize) {
    }

    proof fn lemma_identity(a: isize) {
    }
}

impl BinaryOp<isize> for Max {
    open spec fn admits(lhs: isize, rhs: isize) -> bool {
        true
    }

    open spec fn eval(lhs: isize, rhs: isize) -> isize {
        if lhs > rhs {
            lhs
        } else {
            rhs
        }
    }

    fn apply(lhs: isize, rhs: isize) -> (out: isize) {
        if lhs > rhs {
            lhs
        } else {
            rhs
        }
    }
}

impl TotalOp<isize> for Max {
    proof fn lemma_total(a: isize, b: isize) {
    }
}

impl ReduceOp<isize> for Max {
    open spec fn identity() -> isize {
        isize::MIN
    }

    fn seed() -> (out: isize) {
        isize::MIN
    }

    proof fn lemma_associative(a: isize, b: isize, c: isize) {
    }

    proof fn lemma_commutative(a: isize, b: isize) {
    }

    proof fn lemma_identity(a: isize) {
    }
}

/// The sum of three `i8` elements is their exact sum wherever that fits.
pub proof fn lemma_sum_three_i8(a: i8, b: i8, c: i8)
    requires
        i8::MIN <= a + b + c <= i8::MAX,
    ensures
        fold::<i8, Add>(seq![a, b, c]) == a + b + c,
{
    lemma_fold_three::<i8, Add>(a, b, c);
}

/// The sum of three `i16` elements is their exact sum wherever that fits.
pub proof fn lemma_sum_three_i16(a: i16, b: i16, c: i16)
    requires
        i16::MIN <= a + b + c <= i16::MAX,
    ensures
        fold::<i16, Add>(seq![a, b, c]) == a + b + c,
{
    lemma_fold_three::<i16, Add>(a, b, c);
}

/// The sum of three `i32` elements is their exact sum wherever that fits.
pub proof fn lemma_sum_three_i32(a: i32, b: i32, c: i32)
    requires
        i32::MIN <= a + b + c <= i32::MAX,
    ensures
        fold::<i32, Add>(seq![a, b, c]) == a + b + c,
{
    lemma_fold_three::<i32, Add>(a, b, c);
}

/// The sum of three `i64` elements is their exact sum wherever that fits.
pub proof fn lemma_sum_three_i64(a: i64, b: i64, c: i64)
    requires
        i64::MIN <= a + b + c <= i64::MAX,
    ensures
        fold::<i64, Add>(seq![a, b, c]) == a + b + c,
{
    lemma_fold_three::<i64, Add>(a, b, c);
}

/// The sum of three `i128` elements is their exact sum wherever that fits.
pub proof fn lemma_sum_three_i128(a: i128, b: i128, c: i128)
    requires
        i128::MIN <= a + b + c <= i128::MAX,
    ensures
        fold::<i128, Add>(seq![a, b, c]) == a + b + c,
{
    lemma_fold_three::<i128, Add>(a, b, c);
}

/// The sum of three `isize` elements is their exact sum wherever that fits.
pub proof fn lemma_sum_three_isize(a: isize, b: isize, c: isize)
    requires
        isize::MIN <= a + b + c <= isize::MAX,
    ensures
        fold::<isize, Add>(seq![a, b, c]) == a + b + c,
{
    lemma_fold_three::<isize, Add>(a, b, c);
}

} // verus!
