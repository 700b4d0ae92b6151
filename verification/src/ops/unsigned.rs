//! The operators on the unsigned integer types.
use crate::ops::{
    fold, lemma_mul_mod_associative, shift_count, Add, BinaryOp, BitAnd, BitOr, Div, Max, Min,
    Mul, ReduceOp, Rem, Shl, Shr, Sub, TotalOp,
};
use crate::simd_reduce_ops::lemma_fold_three;
use vstd::prelude::*;

verus! {

impl BinaryOp<u8> for Add {
    open spec fn admits(lhs: u8, rhs: u8) -> bool {
        true
    }

    open spec fn eval(lhs: u8, rhs: u8) -> u8 {
        lhs.wrapping_add(rhs)
    }

    fn apply(lhs: u8, rhs: u8) -> (out: u8) {
        lhs.wrapping_add(rhs)
    }
}

impl TotalOp<u8> for Add {
    proof fn lemma_total(a: u8, b: u8) {
    }
}

impl ReduceOp<u8> for Add {
    open spec fn identity() -> u8 {
        0
    }

    fn seed() -> (out: u8) {
        0
    }

    proof fn lemma_associative(a: u8, b: u8, c: u8) {
    }

    proof fn lemma_commutative(a: u8, b: u8) {
    }

    proof fn lemma_identity(a: u8) {
    }
}

impl BinaryOp<u8> for Sub {
    open spec fn admits(lhs: u8, rhs: u8) -> bool {
        true
    }

    open spec fn eval(lhs: u8, rhs: u8) -> u8 {
        lhs.wrapping_sub(rhs)
    }

    fn apply(lhs: u8, rhs: u8) -> (out: u8) {
        lhs.wrapping_sub(rhs)
    }
}

impl TotalOp<u8> for Sub {
    proof fn lemma_total(a: u8, b: u8) {
    }
}

impl BinaryOp<u8> for Mul {
    open spec fn admits(lhs: u8, rhs: u8) -> bool {
        true
    }

    open spec fn eval(lhs: u8, rhs: u8) -> u8 {
        lhs.wrapping_mul(rhs)
    }

    fn apply(lhs: u8, rhs: u8) -> (out: u8) {
        lhs.wrapping_mul(rhs)
    }
}

impl TotalOp<u8> for Mul {
    proof fn lemma_total(a: u8, b: u8) {
    }
}

impl ReduceOp<u8> for Mul {
    open spec fn identity() -> u8 {
        1
    }

    fn seed() -> (out: u8) {
        1
    }

    proof fn lemma_associative(a: u8, b: u8, c: u8) {
        lemma_mul_mod_associative(a as int, b as int, c as int, u8::MAX + 1);
    }

    proof fn lemma_commutative(a: u8, b: u8) {
        vstd::arithmetic::mul::lemma_mul_is_commutative(a as int, b as int);
    }

    proof fn lemma_identity(a: u8) {
        vstd::arithmetic::div_mod::lemma_small_mod(a as nat, (u8::MAX + 1) as nat);
    }
}

impl BinaryOp<u8> for Div {
    open spec fn admits(lhs: u8, rhs: u8) -> bool {
        rhs != 0
    }

    open spec fn eval(lhs: u8, rhs: u8) -> u8 {
        lhs / rhs
    }

    fn apply(lhs: u8, rhs: u8) -> (out: u8) {
        lhs / rhs
    }
}

impl BinaryOp<u8> for Rem {
    open spec fn admits(lhs: u8, rhs: u8) -> bool {
        rhs != 0
    }

    open spec fn eval(lhs: u8, rhs: u8) -> u8 {
        lhs % rhs
    }

    fn apply(lhs: u8, rhs: u8) -> (out: u8) {
        lhs % rhs
    }
}

impl BinaryOp<u8> for BitAnd {
    open spec fn admits(lhs: u8, rhs: u8) -> bool {
        true
    }

    open spec fn eval(lhs: u8, rhs: u8) -> u8 {
        lhs & rhs
    }

    fn apply(lhs: u8, rhs: u8) -> (out: u8) {
        lhs & rhs
    }
}

impl TotalOp<u8> for BitAnd {
    proof fn lemma_total(a: u8, b: u8) {
    }
}

impl BinaryOp<u8> for BitOr {
    open spec fn admits(lhs: u8, rhs: u8) -> bool {
        true
    }

    open spec fn eval(lhs: u8, rhs: u8) -> u8 {
        lhs | rhs
    }

    fn apply(lhs: u8, rhs: u8) -> (out: u8) {
        lhs | rhs
    }
}

impl TotalOp<u8> for BitOr {
    proof fn lemma_total(a: u8, b: u8) {
    }
}

impl BinaryOp<u8> for Shl {
    open spec fn admits(lhs: u8, rhs: u8) -> bool {
        true
    }

    open spec fn eval(lhs: u8, rhs: u8) -> u8 {
        lhs.wrapping_shl(shift_count(rhs as int, u8::BITS as int))
    }

    fn apply(lhs: u8, rhs: u8) -> (out: u8) {
        lhs.wrapping_shl((rhs % (u8::BITS as u8)) as u32)
    }
}

impl TotalOp<u8> for Shl {
    proof fn lemma_total(a: u8, b: u8) {
    }
}

impl BinaryOp<u8> for Shr {
    open spec fn admits(lhs: u8, rhs: u8) -> bool {
        true
    }

    open spec fn eval(lhs: u8, rhs: u8) -> u8 {
        lhs.wrapping_shr(shift_count(rhs as int, u8::BITS as int))
    }

    fn apply(lhs: u8, rhs: u8) -> (out: u8) {
        lhs.wrapping_shr((rhs % (u8::BITS as u8)) as u32)
    }
}

impl TotalOp<u8> for Shr {
    proof fn lemma_total(a: u8, b: u8) {
    }
}

impl BinaryOp<u8> for Min {
    open spec fn admits(lhs: u8, rhs: u8) -> bool {
        true
    }

    open spec fn eval(lhs: u8, rhs: u8) -> u8 {
        if lhs < rhs {
            lhs
        } else {
            rhs
        }
    }

    fn apply(lhs: u8, rhs: u8) -> (out: u8) {
        if lhs < rhs {
            lhs
        } else {
            rhs
        }
    }
}

impl TotalOp<u8> for Min {
    proof fn lemma_total(a: u8, b: u8) {
    }
}

impl ReduceOp<u8> for Min {
    open spec fn identity() -> u8 {
        u8::MAX
    }

    fn seed() -> (out: u8) {
        u8::MAX
    }

    proof fn lemma_associative(a: u8, b: u8, c: u8) {
    }

    proof fn lemma_commutative(a: u8, b: u8) {
    }

    proof fn lemma_identity(a: u8) {
    }
}

impl BinaryOp<u8> for Max {
    open spec fn admits(lhs: u8, rhs: u8) -> bool {
        true
    }

    open spec fn eval(lhs: u8, rhs: u8) -> u8 {
        if lhs > rhs {
            lhs
        } else {
            rhs
        }
    }

    fn apply(lhs: u8, rhs: u8) -> (out: u8) {
        if lhs > rhs {
            lhs
        } else {
            rhs
        }
    }
}

impl TotalOp<u8> for Max {
    proof fn lemma_total(a: u8, b: u8) {
    }
}

impl ReduceOp<u8> for Max {
    open spec fn identity() -> u8 {
        u8::MIN
    }

    fn seed() -> (out: u8) {
        u8::MIN
    }

    proof fn lemma_associative(a: u8, b: u8, c: u8) {
    }

    proof fn lemma_commutative(a: u8, b: u8) {
    }

    proof fn lemma_identity(a: u8) {
    }
}


impl BinaryOp<u16> for Add {
    open spec fn admits(lhs: u16, rhs: u16) -> bool {
        true
    }

    open spec fn eval(lhs: u16, rhs: u16) -> u16 {
        lhs.wrapping_add(rhs)
    }

    fn apply(lhs: u16, rhs: u16) -> (out: u16) {
        lhs.wrapping_add(rhs)
    }
}

impl TotalOp<u16> for Add {
    proof fn lemma_total(a: u16, b: u16) {
    }
}

impl ReduceOp<u16> for Add {
    open spec fn identity() -> u16 {
        0
    }

    fn seed() -> (out: u16) {
        0
    }

    proof fn lemma_associative(a: u16, b: u16, c: u16) {
    }

    proof fn lemma_commutative(a: u16, b: u16) {
    }

    proof fn lemma_identity(a: u16) {
    }
}

impl BinaryOp<u16> for Sub {
    open spec fn admits(lhs: u16, rhs: u16) -> bool {
        true
    }

    open spec fn eval(lhs: u16, rhs: u16) -> u16 {
        lhs.wrapping_sub(rhs)
    }

    fn apply(lhs: u16, rhs: u16) -> (out: u16) {
        lhs.wrapping_sub(rhs)
    }
}

impl TotalOp<u16> for Sub {
    proof fn lemma_total(a: u16, b: u16) {
    }
}

impl BinaryOp<u16> for Mul {
    open spec fn admits(lhs: u16, rhs: u16) -> bool {
        true
    }

    open spec fn eval(lhs: u16, rhs: u16) -> u16 {
        lhs.wrapping_mul(rhs)
    }

    fn apply(lhs: u16, rhs: u16) -> (out: u16) {
        lhs.wrapping_mul(rhs)
    }
}

impl TotalOp<u16> for Mul {
    proof fn lemma_total(a: u16, b: u16) {
    }
}

impl ReduceOp<u16> for Mul {
    open spec fn identity() -> u16 {
        1
    }

    fn seed() -> (out: u16) {
        1
    }

    proof fn lemma_associative(a: u16, b: u16, c: u16) {
        lemma_mul_mod_associative(a as int, b as int, c as int, u16::MAX + 1);
    }

    proof fn lemma_commutative(a: u16, b: u16) {
        vstd::arithmetic::mul::lemma_mul_is_commutative(a as int, b as int);
    }

    proof fn lemma_identity(a: u16) {
        vstd::arithmetic::div_mod::lemma_small_mod(a as nat, (u16::MAX + 1) as nat);
    }
}

impl BinaryOp<u16> for Div {
    open spec fn admits(lhs: u16, rhs: u16) -> bool {
        rhs != 0
    }

    open spec fn eval(lhs: u16, rhs: u16) -> u16 {
        lhs / rhs
    }

    fn apply(lhs: u16, rhs: u16) -> (out: u16) {
        lhs / rhs
    }
}

impl BinaryOp<u16> for Rem {
    open spec fn admits(lhs: u16, rhs: u16) -> bool {
        rhs != 0
    }

    open spec fn eval(lhs: u16, rhs: u16) -> u16 {
        lhs % rhs
    }

    fn apply(lhs: u16, rhs: u16) -> (out: u16) {
        lhs % rhs
    }
}

impl BinaryOp<u16> for BitAnd {
    open spec fn admits(lhs: u16, rhs: u16) -> bool {
        true
    }

    open spec fn eval(lhs: u16, rhs: u16) -> u16 {
        lhs & rhs
    }

    fn apply(lhs: u16, rhs: u16) -> (out: u16) {
        lhs & rhs
    }
}

impl TotalOp<u16> for BitAnd {
    proof fn lemma_total(a: u16, b: u16) {
    }
}

impl BinaryOp<u16> for BitOr {
    open spec fn admits(lhs: u16, rhs: u16) -> bool {
        true
    }

    open spec fn eval(lhs: u16, rhs: u16) -> u16 {
        lhs | rhs
    }

    fn apply(lhs: u16, rhs: u16) -> (out: u16) {
        lhs | rhs
    }
}

impl TotalOp<u16> for BitOr {
    proof fn lemma_total(a: u16, b: u16) {
    }
}

impl BinaryOp<u16> for Shl {
    open spec fn admits(lhs: u16, rhs: u16) -> bool {
        true
    }

    open spec fn eval(lhs: u16, rhs: u16) -> u16 {
        lhs.wrapping_shl(shift_count(rhs as int, u16::BITS as int))
    }

    fn apply(lhs: u16, rhs: u16) -> (out: u16) {
        lhs.wrapping_shl((rhs % (u16::BITS as u16)) as u32)
    }
}

impl TotalOp<u16> for Shl {
    proof fn lemma_total(a: u16, b: u16) {
    }
}

impl BinaryOp<u16> for Shr {
    open spec fn admits(lhs: u16, rhs: u16) -> bool {
        true
    }

    open spec fn eval(lhs: u16, rhs: u16) -> u16 {
        lhs.wrapping_shr(shift_count(rhs as int, u16::BITS as int))
    }

    fn apply(lhs: u16, rhs: u16) -> (out: u16) {
        lhs.wrapping_shr((rhs % (u16::BITS as u16)) as u32)
    }
}

impl TotalOp<u16> for Shr {
    proof fn lemma_total(a: u16, b: u16) {
    }
}

impl BinaryOp<u16> for Min {
    open spec fn admits(lhs: u16, rhs: u16) -> bool {
        true
    }

    open spec fn eval(lhs: u16, rhs: u16) -> u16 {
        if lhs < rhs {
            lhs
        } else {
            rhs
        }
    }

    fn apply(lhs: u16, rhs: u16) -> (out: u16) {
        if lhs < rhs {
            lhs
        } else {
            rhs
        }
    }
}

impl TotalOp<u16> for Min {
    proof fn lemma_total(a: u16, b: u16) {
    }
}

impl ReduceOp<u16> for Min {
    open spec fn identity() -> u16 {
        u16::MAX
    }

    fn seed() -> (out: u16) {
        u16::MAX
    }

    proof fn lemma_associative(a: u16, b: u16, c: u16) {
    }

    proof fn lemma_commutative(a: u16, b: u16) {
    }

    proof fn lemma_identity(a: u16) {
    }
}

impl BinaryOp<u16> for Max {
    open spec fn admits(lhs: u16, rhs: u16) -> bool {
        true
    }

    open spec fn eval(lhs: u16, rhs: u16) -> u16 {
        if lhs > rhs {
            lhs
        } else {
            rhs
        }
    }

    fn apply(lhs: u16, rhs: u16) -> (out: u16) {
        if lhs > rhs {
            lhs
        } else {
            rhs
        }
    }
}

impl TotalOp<u16> for Max {
    proof fn lemma_total(a: u16, b: u16) {
    }
}

impl ReduceOp<u16> for Max {
    open spec fn identity() -> u16 {
        u16::MIN
    }

    fn seed() -> (out: u16) {
        u16::MIN
    }

    proof fn lemma_associative(a: u16, b: u16, c: u16) {
    }

    proof fn lemma_commutative(a: u16, b: u16) {
    }

    proof fn lemma_identity(a: u16) {
    }
}


impl BinaryOp<u32> for Add {
    open spec fn admits(lhs: u32, rhs: u32) -> bool {
        true
    }

    open spec fn eval(lhs: u32, rhs: u32) -> u32 {
        lhs.wrapping_add(rhs)
    }

    fn apply(lhs: u32, rhs: u32) -> (out: u32) {
        lhs.wrapping_add(rhs)
    }
}

impl TotalOp<u32> for Add {
    proof fn lemma_total(a: u32, b: u32) {
    }
}

impl ReduceOp<u32> for Add {
    open spec fn identity() -> u32 {
        0
    }

    fn seed() -> (out: u32) {
        0
    }

    proof fn lemma_associative(a: u32, b: u32, c: u32) {
    }

    proof fn lemma_commutative(a: u32, b: u32) {
    }

    proof fn lemma_identity(a: u32) {
    }
}

impl BinaryOp<u32> for Sub {
    open spec fn admits(lhs: u32, rhs: u32) -> bool {
        true
    }

    open spec fn eval(lhs: u32, rhs: u32) -> u32 {
        lhs.wrapping_sub(rhs)
    }

    fn apply(lhs: u32, rhs: u32) -> (out: u32) {
        lhs.wrapping_sub(rhs)
    }
}

impl TotalOp<u32> for Sub {
    proof fn lemma_total(a: u32, b: u32) {
    }
}

impl BinaryOp<u32> for Mul {
    open spec fn admits(lhs: u32, rhs: u32) -> bool {
        true
    }

    open spec fn eval(lhs: u32, rhs: u32) -> u32 {
        lhs.wrapping_mul(rhs)
    }

    fn apply(lhs: u32, rhs: u32) -> (out: u32) {
        lhs.wrapping_mul(rhs)
    }
}

impl TotalOp<u32> for Mul {
    proof fn lemma_total(a: u32, b: u32) {
    }
}

impl ReduceOp<u32> for Mul {
    open spec fn identity() -> u32 {
        1
    }

    fn seed() -> (out: u32) {
        1
    }

    proof fn lemma_associative(a: u32, b: u32, c: u32) {
        lemma_mul_mod_associative(a as int, b as int, c as int, u32::MAX + 1);
    }

    proof fn lemma_commutative(a: u32, b: u32) {
        vstd::arithmetic::mul::lemma_mul_is_commutative(a as int, b as int);
    }

    proof fn lemma_identity(a: u32) {
        vstd::arithmetic::div_mod::lemma_small_mod(a as nat, (u32::MAX + 1) as nat);
    }
}

impl BinaryOp<u32> for Div {
    open spec fn admits(lhs: u32, rhs: u32) -> bool {
        rhs != 0
    }

    open spec fn eval(lhs: u32, rhs: u32) -> u32 {
        lhs / rhs
    }

    fn apply(lhs: u32, rhs: u32) -> (out: u32) {
        lhs / rhs
    }
}

impl BinaryOp<u32> for Rem {
    open spec fn admits(lhs: u32, rhs: u32) -> bool {
        rhs != 0
    }

    open spec fn eval(lhs: u32, rhs: u32) -> u32 {
        lhs % rhs
    }

    fn apply(lhs: u32, rhs: u32) -> (out: u32) {
        lhs % rhs
    }
}

impl BinaryOp<u32> for BitAnd {
    open spec fn admits(lhs: u32, rhs: u32) -> bool {
        true
    }

    open spec fn eval(lhs: u32, rhs: u32) -> u32 {
        lhs & rhs
    }

    fn apply(lhs: u32, rhs: u32) -> (out: u32) {
        lhs & rhs
    }
}

impl TotalOp<u32> for BitAnd {
    proof fn lemma_total(a: u32, b: u32) {
    }
}

impl BinaryOp<u32> for BitOr {
    open spec fn admits(lhs: u32, rhs: u32) -> bool {
        true
    }

    open spec fn eval(lhs: u32, rhs: u32) -> u32 {
        lhs | rhs
    }

    fn apply(lhs: u32, rhs: u32) -> (out: u32) {
        lhs | rhs
    }
}

impl TotalOp<u32> for BitOr {
    proof fn lemma_total(a: u32, b: u32) {
    }
}

impl BinaryOp<u32> for Shl {
    open spec fn admits(lhs: u32, rhs: u32) -> bool {
        true
    }

    open spec fn eval(lhs: u32, rhs: u32) -> u32 {
        lhs.wrapping_shl(shift_count(rhs as int, u32::BITS as int))
    }

    fn apply(lhs: u32, rhs: u32) -> (out: u32) {
        lhs.wrapping_shl((rhs % (u32::BITS as u32)) as u32)
    }
}

impl TotalOp<u32> for Shl {
    proof fn lemma_total(a: u32, b: u32) {
    }
}

impl BinaryOp<u32> for Shr {
    open spec fn admits(lhs: u32, rhs: u32) -> bool {
        true
    }

    open spec fn eval(lhs: u32, rhs: u32) -> u32 {
        lhs.wrapping_shr(shift_count(rhs as int, u32::BITS as int))
    }

    fn apply(lhs: u32, rhs: u32) -> (out: u32) {
        lhs.wrapping_shr((rhs % (u32::BITS as u32)) as u32)
    }
}

impl TotalOp<u32> for Shr {
    proof fn lemma_total(a: u32, b: u32) {
    }
}

impl BinaryOp<u32> for Min {
    open spec fn admits(lhs: u32, rhs: u32) -> bool {
        true
    }

    open spec fn eval(lhs: u32, rhs: u32) -> u32 {
        if lhs < rhs {
            lhs
        } else {
            rhs
        }
    }

    fn apply(lhs: u32, rhs: u32) -> (out: u32) {
        if lhs < rhs {
            lhs
        } else {
            rhs
        }
    }
}

impl TotalOp<u32> for Min {
    proof fn lemma_total(a: u32, b: u32) {
    }
}

impl ReduceOp<u32> for Min {
    open spec fn identity() -> u32 {
        u32::MAX
    }

    fn seed() -> (out: u32) {
        u32::MAX
    }

    proof fn lemma_associative(a: u32, b: u32, c: u32) {
    }

    proof fn lemma_commutative(a: u32, b: u32) {
    }

    proof fn lemma_identity(a: u32) {
    }
}

impl BinaryOp<u32> for Max {
    open spec fn admits(lhs: u32, rhs: u32) -> bool {
        true
    }

    open spec fn eval(lhs: u32, rhs: u32) -> u32 {
        if lhs > rhs {
            lhs
        } else {
            rhs
        }
    }

    fn apply(lhs: u32, rhs: u32) -> (out: u32) {
        if lhs > rhs {
            lhs
        } else {
            rhs
        }
    }
}

impl TotalOp<u32> for Max {
    proof fn lemma_total(a: u32, b: u32) {
    }
}

impl ReduceOp<u32> for Max {
    open spec fn identity() -> u32 {
        u32::MIN
    }

    fn seed() -> (out: u32) {
        u32::MIN
    }

    proof fn lemma_associative(a: u32, b: u32, c: u32) {
    }

    proof fn lemma_commutative(a: u32, b: u32) {
    }

    proof fn lemma_identity(a: u32) {
    }
}


impl BinaryOp<u64> for Add {
    open spec fn admits(lhs: u64, rhs: u64) -> bool {
        true
    }

    open spec fn eval(lhs: u64, rhs: u64) -> u64 {
        lhs.wrapping_add(rhs)
    }

    fn apply(lhs: u64, rhs: u64) -> (out: u64) {
        lhs.wrapping_add(rhs)
    }
}

impl TotalOp<u64> for Add {
    proof fn lemma_total(a: u64, b: u64) {
    }
}

impl ReduceOp<u64> for Add {
    open spec fn identity() -> u64 {
        0
    }

    fn seed() -> (out: u64) {
        0
    }

    proof fn lemma_associative(a: u64, b: u64, c: u64) {
    }

    proof fn lemma_commutative(a: u64, b: u64) {
    }

    proof fn lemma_identity(a: u64) {
    }
}

impl BinaryOp<u64> for Sub {
    open spec fn admits(lhs: u64, rhs: u64) -> bool {
        true
    }

    open spec fn eval(lhs: u64, rhs: u64) -> u64 {
        lhs.wrapping_sub(rhs)
    }

    fn apply(lhs: u64, rhs: u64) -> (out: u64) {
        lhs.wrapping_sub(rhs)
    }
}

impl TotalOp<u64> for Sub {
    proof fn lemma_total(a: u64, b: u64) {
    }
}

impl BinaryOp<u64> for Mul {
    open spec fn admits(lhs: u64, rhs: u64) -> bool {
        true
    }

    open spec fn eval(lhs: u64, rhs: u64) -> u64 {
        lhs.wrapping_mul(rhs)
    }

    fn apply(lhs: u64, rhs: u64) -> (out: u64) {
        lhs.wrapping_mul(rhs)
    }
}

impl TotalOp<u64> for Mul {
    proof fn lemma_total(a: u64, b: u64) {
    }
}

impl ReduceOp<u64> for Mul {
    open spec fn identity() -> u64 {
        1
    }

    fn seed() -> (out: u64) {
        1
    }

    proof fn lemma_associative(a: u64, b: u64, c: u64) {
        lemma_mul_mod_associative(a as int, b as int, c as int, u64::MAX + 1);
    }

    proof fn lemma_commutative(a: u64, b: u64) {
        vstd::arithmetic::mul::lemma_mul_is_commutative(a as int, b as int);
    }

    proof fn lemma_identity(a: u64) {
        vstd::arithmetic::div_mod::lemma_small_mod(a as nat, (u64::MAX + 1) as nat);
    }
}

impl BinaryOp<u64> for Div {
    open spec fn admits(lhs: u64, rhs: u64) -> bool {
        rhs != 0
    }

    open spec fn eval(lhs: u64, rhs: u64) -> u64 {
        lhs / rhs
    }

    fn apply(lhs: u64, rhs: u64) -> (out: u64) {
        lhs / rhs
    }
}

impl BinaryOp<u64> for Rem {
    open spec fn admits(lhs: u64, rhs: u64) -> bool {
        rhs != 0
    }

    open spec fn eval(lhs: u64, rhs: u64) -> u64 {
        lhs % rhs
    }

    fn apply(lhs: u64, rhs: u64) -> (out: u64) {
        lhs % rhs
    }
}

impl BinaryOp<u64> for BitAnd {
    open spec fn admits(lhs: u64, rhs: u64) -> bool {
        true
    }

    open spec fn eval(lhs: u64, rhs: u64) -> u64 {
        lhs & rhs
    }

    fn apply(lhs: u64, rhs: u64) -> (out: u64) {
        lhs & rhs
    }
}

impl TotalOp<u64> for BitAnd {
    proof fn lemma_total(a: u64, b: u64) {
    }
}

impl BinaryOp<u64> for BitOr {
    open spec fn admits(lhs: u64, rhs: u64) -> bool {
        true
    }

    open spec fn eval(lhs: u64, rhs: u64) -> u64 {
        lhs | rhs
    }

    fn apply(lhs: u64, rhs: u64) -> (out: u64) {
        lhs | rhs
    }
}

impl TotalOp<u64> for BitOr {
    proof fn lemma_total(a: u64, b: u64) {
    }
}

impl BinaryOp<u64> for Shl {
    open spec fn admits(lhs: u64, rhs: u64) -> bool {
        true
    }

    open spec fn eval(lhs: u64, rhs: u64) -> u64 {
        lhs.wrapping_shl(shift_count(rhs as int, u64::BITS as int))
    }

    fn apply(lhs: u64, rhs: u64) -> (out: u64) {
        lhs.wrapping_shl((rhs % (u64::BITS as u64)) as u32)
    }
}

impl TotalOp<u64> for Shl {
    proof fn lemma_total(a: u64, b: u64) {
    }
}

impl BinaryOp<u64> for Shr {
    open spec fn admits(lhs: u64, rhs: u64) -> bool {
        true
    }

    open spec fn eval(lhs: u64, rhs: u64) -> u64 {
        lhs.wrapping_shr(shift_count(rhs as int, u64::BITS as int))
    }

    fn apply(lhs: u64, rhs: u64) -> (out: u64) {
        lhs.wrapping_shr((rhs % (u64::BITS as u64)) as u32)
    }
}

impl TotalOp<u64> for Shr {
    proof fn lemma_total(a: u64, b: u64) {
    }
}

impl BinaryOp<u64> for Min {
    open spec fn admits(lhs: u64, rhs: u64) -> bool {
        true
    }

    open spec fn eval(lhs: u64, rhs: u64) -> u64 {
        if lhs < rhs {
            lhs
        } else {
            rhs
        }
    }

    fn apply(lhs: u64, rhs: u64) -> (out: u64) {
        if lhs < rhs {
            lhs
        } else {
            rhs
        }
    }
}

impl TotalOp<u64> for Min {
    proof fn lemma_total(a: u64, b: u64) {
    }
}

impl ReduceOp<u64> for Min {
    open spec fn identity() -> u64 {
        u64::MAX
    }

    fn seed() -> (out: u64) {
        u64::MAX
    }

    proof fn lemma_associative(a: u64, b: u64, c: u64) {
    }

    proof fn lemma_commutative(a: u64, b: u64) {
    }

    proof fn lemma_identity(a: u64) {
    }
}

impl BinaryOp<u64> for Max {
    open spec fn admits(lhs: u64, rhs: u64) -> bool {
        true
    }

    open spec fn eval(lhs: u64, rhs: u64) -> u64 {
        if lhs > rhs {
            lhs
        } else {
            rhs
        }
    }

    fn apply(lhs: u64, rhs: u64) -> (out: u64) {
        if lhs > rhs {
            lhs
        } else {
            rhs
        }
    }
}

impl TotalOp<u64> for Max {
    proof fn lemma_total(a: u64, b: u64) {
    }
}

impl ReduceOp<u64> for Max {
    open spec fn identity() -> u64 {
        u64::MIN
    }

    fn seed() -> (out: u64) {
        u64::MIN
    }

    proof fn lemma_associative(a: u64, b: u64, c: u64) {
    }

    proof fn lemma_commutative(a: u64, b: u64) {
    }

    proof fn lemma_identity(a: u64) {
    }
}


impl BinaryOp<u128> for Add {
    open spec fn admits(lhs: u128, rhs: u128) -> bool {
        true
    }

    open spec fn eval(lhs: u128, rhs: u128) -> u128 {
        lhs.wrapping_add(rhs)
    }

    fn apply(lhs: u128, rhs: u128) -> (out: u128) {
        lhs.wrapping_add(rhs)
    }
}

impl TotalOp<u128> for Add {
    proof fn lemma_total(a: u128, b: u128) {
    }
}

impl ReduceOp<u128> for Add {
    open spec fn identity() -> u128 {
        0
    }

    fn seed() -> (out: u128) {
        0
    }

    proof fn lemma_associative(a: u128, b: u128, c: u128) {
    }

    proof fn lemma_commutative(a: u128, b: u128) {
    }

    proof fn lemma_identity(a: u128) {
    }
}

impl BinaryOp<u128> for Sub {
    open spec fn admits(lhs: u128, rhs: u128) -> bool {
        true
    }

    open spec fn eval(lhs: u128, rhs: u128) -> u128 {
        lhs.wrapping_sub(rhs)
    }

    fn apply(lhs: u128, rhs: u128) -> (out: u128) {
        lhs.wrapping_sub(rhs)
    }
}

impl TotalOp<u128> for Sub {
    proof fn lemma_total(a: u128, b: u128) {
    }
}

impl BinaryOp<u128> for Mul {
    open spec fn admits(lhs: u128, rhs: u128) -> bool {
        true
    }

    open spec fn eval(lhs: u128, rhs: u128) -> u128 {
        lhs.wrapping_mul(rhs)
    }

    fn apply(lhs: u128, rhs: u128) -> (out: u128) {
        lhs.wrapping_mul(rhs)
    }
}

impl TotalOp<u128> for Mul {
    proof fn lemma_total(a: u128, b: u128) {
    }
}

impl ReduceOp<u128> for Mul {
    open spec fn identity() -> u128 {
        1
    }

    fn seed() -> (out: u128) {
        1
    }

    proof fn lemma_associative(a: u128, b: u128, c: u128) {
        lemma_mul_mod_associative(a as int, b as int, c as int, u128::MAX + 1);
    }

    proof fn lemma_commutative(a: u128, b: u128) {
        vstd::arithmetic::mul::lemma_mul_is_commutative(a as int, b as int);
    }

    proof fn lemma_identity(a: u128) {
        vstd::arithmetic::div_mod::lemma_small_mod(a as nat, (u128::MAX + 1) as nat);
    }
}

impl BinaryOp<u128> for Div {
    open spec fn admits(lhs: u128, rhs: u128) -> bool {
        rhs != 0
    }

    open spec fn eval(lhs: u128, rhs: u128) -> u128 {
        lhs / rhs
    }

    fn apply(lhs: u128, rhs: u128) -> (out: u128) {
        lhs / rhs
    }
}

impl BinaryOp<u128> for Rem {
    open spec fn admits(lhs: u128, rhs: u128) -> bool {
        rhs != 0
    }

    open spec fn eval(lhs: u128, rhs: u128) -> u128 {
        lhs % rhs
    }

    fn apply(lhs: u128, rhs: u128) -> (out: u128) {
        lhs % rhs
    }
}

impl BinaryOp<u128> for BitAnd {
    open spec fn admits(lhs: u128, rhs: u128) -> bool {
        true
    }

    open spec fn eval(lhs: u128, rhs: u128) -> u128 {
        lhs & rhs
    }

    fn apply(lhs: u128, rhs: u128) -> (out: u128) {
        lhs & rhs
    }
}

impl TotalOp<u128> for BitAnd {
    proof fn lemma_total(a: u128, b: u128) {
    }
}

impl BinaryOp<u128> for BitOr {
    open spec fn admits(lhs: u128, rhs: u128) -> bool {
        true
    }

    open spec fn eval(lhs: u128, rhs: u128) -> u128 {
        lhs | rhs
    }

    fn apply(lhs: u128, rhs: u128) -> (out: u128) {
        lhs | rhs
    }
}

impl TotalOp<u128> for BitOr {
    proof fn lemma_total(a: u128, b: u128) {
    }
}

impl BinaryOp<u128> for Shl {
    open spec fn admits(lhs: u128, rhs: u128) -> bool {
        true
    }

    open spec fn eval(lhs: u128, rhs: u128) -> u128 {
        lhs.wrapping_shl(shift_count(rhs as int, u128::BITS as int))
    }

    fn apply(lhs: u128, rhs: u128) -> (out: u128) {
        lhs.wrapping_shl((rhs % (u128::BITS as u128)) as u32)
    }
}

impl TotalOp<u128> for Shl {
    proof fn lemma_total(a: u128, b: u128) {
    }
}

impl BinaryOp<u128> for Shr {
    open spec fn admits(lhs: u128, rhs: u128) -> bool {
        true
    }

    open spec fn eval(lhs: u128, rhs: u128) -> u128 {
        lhs.wrapping_shr(shift_count(rhs as int, u128::BITS as int))
    }

    fn apply(lhs: u128, rhs: u128) -> (out: u128) {
        lhs.wrapping_shr((rhs % (u128::BITS as u128)) as u32)
    }
}

impl TotalOp<u128> for Shr {
    proof fn lemma_total(a: u128, b: u128) {
    }
}

impl BinaryOp<u128> for Min {
    open spec fn admits(lhs: u128, rhs: u128) -> bool {
        true
    }

    open spec fn eval(lhs: u128, rhs: u128) -> u128 {
        if lhs < rhs {
            lhs
        } else {
            rhs
        }
    }

    fn apply(lhs: u128, rhs: u128) -> (out: u128) {
        if lhs < rhs {
            lhs
        } else {
            rhs
        }
    }
}

impl TotalOp<u128> for Min {
    proof fn lemma_total(a: u128, b: u128) {
    }
}

impl ReduceOp<u128> for Min {
    open spec fn identity() -> u128 {
        u128::MAX
    }

    fn seed() -> (out: u128) {
        u128::MAX
    }

    proof fn lemma_associative(a: u128, b: u128, c: u128) {
    }

    proof fn lemma_commutative(a: u128, b: u128) {
    }

    proof fn lemma_identity(a: u128) {
    }
}

impl BinaryOp<u128> for Max {
    open spec fn admits(lhs: u128, rhs: u128) -> bool {
        true
    }

    open spec fn eval(lhs: u128, rhs: u128) -> u128 {
        if lhs > rhs {
            lhs
        } else {
            rhs
        }
    }

    fn apply(lhs: u128, rhs: u128) -> (out: u128) {
        if lhs > rhs {
            lhs
        } else {
            rhs
        }
    }
}

impl TotalOp<u128> for Max {
    proof fn lemma_total(a: u128, b: u128) {
    }
}

impl ReduceOp<u128> for Max {
    open spec fn identity() -> u128 {
        u128::MIN
    }

    fn seed() -> (out: u128) {
        u128::MIN
    }

    proof fn lemma_associative(a: u128, b: u128, c: u128) {
    }

    proof fn lemma_commutative(a: u128, b: u128) {
    }

    proof fn lemma_identity(a: u128) {
    }
}


impl BinaryOp<usize> for Add {
    open spec fn admits(lhs: usize, rhs: usize) -> bool {
        true
    }

    open spec fn eval(lhs: usize, rhs: usize) -> usize {
        lhs.wrapping_add(rhs)
    }

    fn apply(lhs: usize, rhs: usize) -> (out: usize) {
        lhs.wrapping_add(rhs)
    }
}

impl TotalOp<usize> for Add {
    proof fn lemma_total(a: usize, b: usize) {
    }
}

impl ReduceOp<usize> for Add {
    open spec fn identity() -> usize {
        0
    }

    fn seed() -> (out: usize) {
        0
    }

    proof fn lemma_associative(a: usize, b: usize, c: usize) {
    }

    proof fn lemma_commutative(a: usize, b: usize) {
    }

    proof fn lemma_identity(a: usize) {
    }
}

impl BinaryOp<usize> for Sub {
    open spec fn admits(lhs: usize, rhs: usize) -> bool {
        true
    }

    open spec fn eval(lhs: usize, rhs: usize) -> usize {
        lhs.wrapping_sub(rhs)
    }

    fn apply(lhs: usize, rhs: usize) -> (out: usize) {
        lhs.wrapping_sub(rhs)
    }
}

impl TotalOp<usize> for Sub {
    proof fn lemma_total(a: usize, b: usize) {
    }
}

impl BinaryOp<usize> for Mul {
    open spec fn admits(lhs: usize, rhs: usize) -> bool {
        true
    }

    open spec fn eval(lhs: usize, rhs: usize) -> usize {
        lhs.wrapping_mul(rhs)
    }

    fn apply(lhs: usize, rhs: usize) -> (out: usize) {
        lhs.wrapping_mul(rhs)
    }
}

impl TotalOp<usize> for Mul {
    proof fn lemma_total(a: usize, b: usize) {
    }
}

impl ReduceOp<usize> for Mul {
    open spec fn identity() -> usize {
        1
    }

    fn seed() -> (out: usize) {
        1
    }

    proof fn lemma_associative(a: usize, b: usize, c: usize) {
        lemma_mul_mod_associative(a as int, b as int, c as int, usize::MAX + 1);
    }

    proof fn lemma_commutative(a: usize, b: usize) {
        vstd::arithmetic::mul::lemma_mul_is_commutative(a as int, b as int);
    }

    proof fn lemma_identity(a: usize) {
        vstd::arithmetic::div_mod::lemma_small_mod(a as nat, (usize::MAX + 1) as nat);
    }
}

impl BinaryOp<usize> for Div {
    open spec fn admits(lhs: usize, rhs: usize) -> bool {
        rhs != 0
    }

    open spec fn eval(lhs: usize, rhs: usize) -> usize {
        lhs / rhs
    }

    fn apply(lhs: usize, rhs: usize) -> (out: usize) {
        lhs / rhs
    }
}

impl BinaryOp<usize> for Rem {
    open spec fn admits(lhs: usize, rhs: usize) -> bool {
        rhs != 0
    }

    open spec fn eval(lhs: usize, rhs: usize) -> usize {
        lhs % rhs
    }

    fn apply(lhs: usize, rhs: usize) -> (out: usize) {
        lhs % rhs
    }
}

impl BinaryOp<usize> for BitAnd {
    open spec fn admits(lhs: usize, rhs: usize) -> bool {
        true
    }

    open spec fn eval(lhs: usize, rhs: usize) -> usize {
        lhs & rhs
    }

    fn apply(lhs: usize, rhs: usize) -> (out: usize) {
        lhs & rhs
    }
}

impl TotalOp<usize> for BitAnd {
    proof fn lemma_total(a: usize, b: usize) {
    }
}

impl BinaryOp<usize> for BitOr {
    open spec fn admits(lhs: usize, rhs: usize) -> bool {
        true
    }

    open spec fn eval(lhs: usize, rhs: usize) -> usize {
        lhs | rhs
    }

    fn apply(lhs: usize, rhs: usize) -> (out: usize) {
        lhs | rhs
    }
}

impl TotalOp<usize> for BitOr {
    proof fn lemma_total(a: usize, b: usize) {
    }
}

impl BinaryOp<usize> for Shl {
    open spec fn admits(lhs: usize, rhs: usize) -> bool {
        true
    }

    open spec fn eval(lhs: usize, rhs: usize) -> usize {
        lhs.wrapping_shl(shift_count(rhs as int, usize::BITS as int))
    }

    fn apply(lhs: usize, rhs: usize) -> (out: usize) {
        lhs.wrapping_shl((rhs % (usize::BITS as usize)) as u32)
    }
}

impl TotalOp<usize> for Shl {
    proof fn lemma_total(a: usize, b: usize) {
    }
}

impl BinaryOp<usize> for Shr {
    open spec fn admits(lhs: usize, rhs: usize) -> bool {
        true
    }

    open spec fn eval(lhs: usize, rhs: usize) -> usize {
        lhs.wrapping_shr(shift_count(rhs as int, usize::BITS as int))
    }

    fn apply(lhs: usize, rhs: usize) -> (out: usize) {
        lhs.wrapping_shr((rhs % (usize::BITS as usize)) as u32)
    }
}

impl TotalOp<usize> for Shr {
    proof fn lemma_total(a: usize, b: usize) {
    }
}

impl BinaryOp<usize> for Min {
    open spec fn admits(lhs: usize, rhs: usize) -> bool {
        true
    }

    open spec fn eval(lhs: usize, rhs: usize) -> usize {
        if lhs < rhs {
            lhs
        } else {
            rhs
        }
    }

    fn apply(lhs: usize, rhs: usize) -> (out: usize) {
        if lhs < rhs {
            lhs
        } else {
            rhs
        }
    }
}

impl TotalOp<usize> for Min {
    proof fn lemma_total(a: usize, b: usize) {
    }
}

impl ReduceOp<usize> for Min {
    open spec fn identity() -> usize {
        usize::MAX
    }

    fn seed() -> (out: usize) {
        usize::MAX
    }

    proof fn lemma_associative(a: usize, b: usize, c: usize) {
    }

    proof fn lemma_commutative(a: usize, b: usize) {
    }

    proof fn lemma_identity(a: usize) {
    }
}

impl BinaryOp<usize> for Max {
    open spec fn admits(lhs: usize, rhs: usize) -> bool {
        true
    }

    open spec fn eval(lhs: usize, rhs: usize) -> usize {
        if lhs > rhs {
            lhs
        } else {
            rhs
        }
    }

    fn apply(lhs: usize, rhs: usize) -> (out: usize) {
        if lhs > rhs {
            lhs
        } else {
            rhs
        }
    }
}

impl TotalOp<usize> for Max {
    proof fn lemma_total(a: usize, b: usize) {
    }
}

impl ReduceOp<usize> for Max {
    open spec fn identity() -> usize {
        usize::MIN
    }

    fn seed() -> (out: usize) {
        usize::MIN
    }

    proof fn lemma_associative(a: usize, b: usize, c: usize) {
    }

    proof fn lemma_commutative(a: usize, b: usize) {
    }

    proof fn lemma_identity(a: usize) {
    }
}

/// The sum of three `u8` elements is their exact sum wherever that fits.
pub proof fn lemma_sum_three_u8(a: u8, b: u8, c: u8)
    requires
        a + b + c <= u8::MAX,
    ensures
        fold::<u8, Add>(seq![a, b, c]) == a + b + c,
{
    lemma_fold_three::<u8, Add>(a, b, c);
}

/// The sum of three `u16` elements is their exact sum wherever that fits.
pub proof fn lemma_sum_three_u16(a: u16, b: u16, c: u16)
    requires
        a + b + c <= u16::MAX,
    ensures
        fold::<u16, Add>(seq![a, b, c]) == a + b + c,
{
    lemma_fold_three::<u16, Add>(a, b, c);
}

/// The sum of three `u32` elements is their exact sum wherever that fits.
pub proof fn lemma_sum_three_u32(a: u32, b: u32, c: u32)
    requires
        a + b + c <= u32::MAX,
    ensures
        fold::<u32, Add>(seq![a, b, c]) == a + b + c,
{
    lemma_fold_three::<u32, Add>(a, b, c);
}

/// The sum of three `u64` elements is their exact sum wherever that fits.
pub proof fn lemma_sum_three_u64(a: u64, b: u64, c: u64)
    requires
        a + b + c <= u64::MAX,
    ensures
        fold::<u64, Add>(seq![a, b, c]) == a + b + c,
{
    lemma_fold_three::<u64, Add>(a, b, c);
}

/// The sum of three `u128` elements is their exact sum wherever that fits.
pub proof fn lemma_sum_three_u128(a: u128, b: u128, c: u128)
    requires
        a + b + c <= u128::MAX,
    ensures
        fold::<u128, Add>(seq![a, b, c]) == a + b + c,
{
    lemma_fold_three::<u128, Add>(a, b, c);
}

/// The sum of three `usize` elements is their exact sum wherever that fits.
pub proof fn lemma_sum_three_usize(a: usize, b: usize, c: usize)
    requires
        a + b + c <= usize::MAX,
    ensures
        fold::<usize, Add>(seq![a, b, c]) == a + b + c,
{
    lemma_fold_three::<usize, Add>(a, b, c);
}

} // verus!
