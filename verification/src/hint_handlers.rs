//! Validation and splitting of hint payloads before they reach the precompile routines.
//!
//! Every handler checks the payload length of its hint type and splits the payload into
//! the operands of the precompile routine that computes the result.

use crate::bytes::{le_bytes, word_byte, word_le_bytes};
use crate::error::{HintError, HintName};
use vstd::prelude::*;

verus! {

/// The error of a payload of hint `hint` with `got` words where exactly `expected` are
/// needed.
pub open spec fn length_error(hint: HintName, expected: nat, got: nat) -> HintError {
    HintError::InvalidHintLength { hint, expected: expected as u128, got: got as usize }
}

/// Checks that the payload of hint `hint` has exactly `expected_len` words.
pub fn validate_hint_length(data: &[u64], expected_len: usize, hint: HintName) -> (r: Result<(), HintError>)
    ensures
        r is Ok <==> data@.len() == expected_len,
        r is Err ==> r == Err::<(), HintError>(length_error(hint, expected_len as nat, data@.len())),
{
    if data.len() != expected_len {
        return Err(HintError::InvalidHintLength { hint, expected: expected_len as u128, got: data.len() });
    }
    Ok(())
}

/// Checks that the payload of hint `hint` has at least `min_len` words.
pub fn validate_hint_min_length(data: &[u64], min_len: usize, hint: HintName) -> (r: Result<(), HintError>)
    ensures
        r is Ok <==> data@.len() >= min_len,
        r is Err ==> r == Err::<(), HintError>(HintError::HintTooShort { hint, min: min_len as u128, got: data@.len() as usize }),
{
    if data.len() < min_len {
        return Err(HintError::HintTooShort { hint, min: min_len as u128, got: data.len() });
    }
    Ok(())
}

/// The 4 words of `data` starting at `off`.
fn words4(data: &[u64], off: usize) -> (r: [u64; 4])
    requires
        off + 4 <= data@.len(),
    ensures
        r@ == data@.subrange(off as int, off + 4),
{
    let r = [data[off + 0], data[off + 1], data[off + 2], data[off + 3]];
    assert(r@ =~= data@.subrange(off as int, off + 4));
    r
}

/// The 8 words of `data` starting at `off`.
fn words8(data: &[u64], off: usize) -> (r: [u64; 8])
    requires
        off + 8 <= data@.len(),
    ensures
        r@ == data@.subrange(off as int, off + 8),
{
    let r = [data[off + 0], data[off + 1], data[off + 2], data[off + 3], data[off + 4], data[off + 5], data[off + 6], data[off + 7]];
    assert(r@ =~= data@.subrange(off as int, off + 8));
    r
}

/// The 12 words of `data` starting at `off`.
fn words12(data: &[u64], off: usize) -> (r: [u64; 12])
    requires
        off + 12 <= data@.len(),
    ensures
        r@ == data@.subrange(off as int, off + 12),
{
    let r = [data[off + 0], data[off + 1], data[off + 2], data[off + 3], data[off + 4], data[off + 5], data[off + 6], data[off + 7], data[off + 8], data[off + 9], data[off + 10], data[off + 11]];
    assert(r@ =~= data@.subrange(off as int, off + 12));
    r
}

/// The 16 words of `data` starting at `off`.
fn words16(data: &[u64], off: usize) -> (r: [u64; 16])
    requires
        off + 16 <= data@.len(),
    ensures
        r@ == data@.subrange(off as int, off + 16),
{
    let r = [data[off + 0], data[off + 1], data[off + 2], data[off + 3], data[off + 4], data[off + 5], data[off + 6], data[off + 7], data[off + 8], data[off + 9], data[off + 10], data[off + 11], data[off + 12], data[off + 13], data[off + 14], data[off + 15]];
    assert(r@ =~= data@.subrange(off as int, off + 16));
    r
}

/// The 24 words of `data` starting at `off`.
fn words24(data: &[u64], off: usize) -> (r: [u64; 24])
    requires
        off + 24 <= data@.len(),
    ensures
        r@ == data@.subrange(off as int, off + 24),
{
    let r = [data[off + 0], data[off + 1], data[off + 2], data[off + 3], data[off + 4], data[off + 5], data[off + 6], data[off + 7], data[off + 8], data[off + 9], data[off + 10], data[off + 11], data[off + 12], data[off + 13], data[off + 14], data[off + 15], data[off + 16], data[off + 17], data[off + 18], data[off + 19], data[off + 20], data[off + 21], data[off + 22], data[off + 23]];
    assert(r@ =~= data@.subrange(off as int, off + 24));
    r
}

/// Validates a `SECP256K1_FN_REDUCE` hint payload and splits it into `x` (4 words).
/// The payload must hold exactly 4 words.
pub fn secp256k1_fn_reduce_hint(data: &[u64]) -> (r: Result<[u64; 4], HintError>)
    ensures
        match r {
            Ok(v) => {
                &&& data@.len() == 4
                &&& v@ == data@.subrange(0, 4)
            },
            Err(e) => data@.len() != 4 && e == length_error(HintName::Secp256k1FnReduce, 4, data@.len()),
        },
{
    if let Err(e) = validate_hint_length(data, 4, HintName::Secp256k1FnReduce) {
        return Err(e);
    }
    let x = words4(data, 0);
    Ok(x)
}

/// Validates a `SECP256K1_FN_ADD` hint payload and splits it into `x` (4 words), `y` (4 words).
/// The payload must hold exactly 8 words.
pub fn secp256k1_fn_add_hint(data: &[u64]) -> (r: Result<([u64; 4], [u64; 4]), HintError>)
    ensures
        match r {
            Ok(v) => {
                &&& data@.len() == 8
                &&& v.0@ == data@.subrange(0, 4)
                &&& v.1@ == data@.subrange(4, 8)
            },
            Err(e) => data@.len() != 8 && e == length_error(HintName::Secp256k1FnAdd, 8, data@.len()),
        },
{
    if let Err(e) = validate_hint_length(data, 8, HintName::Secp256k1FnAdd) {
        return Err(e);
    }
    let x = words4(data, 0);
    let y = words4(data, 4);
    Ok((x, y))
}

/// Validates a `SECP256K1_FN_NEG` hint payload and splits it into `x` (4 words).
/// The payload must hold exactly 4 words.
pub fn secp256k1_fn_neg_hint(data: &[u64]) -> (r: Result<[u64; 4], HintError>)
    ensures
        match r {
            Ok(v) => {
                &&& data@.len() == 4
                &&& v@ == data@.subrange(0, 4)
            },
            Err(e) => data@.len() != 4 && e == length_error(HintName::Secp256k1FnNeg, 4, data@.len()),
        },
{
    if let Err(e) = validate_hint_length(data, 4, HintName::Secp256k1FnNeg) {
        return Err(e);
    }
    let x = words4(data, 0);
    Ok(x)
}

/// Validates a `SECP256K1_FN_SUB` hint payload and splits it into `x` (4 words), `y` (4 words).
/// The payload must hold exactly 8 words.
pub fn secp256k1_fn_sub_hint(data: &[u64]) -> (r: Result<([u64; 4], [u64; 4]), HintError>)
    ensures
        match r {
            Ok(v) => {
                &&& data@.len() == 8
                &&& v.0@ == data@.subrange(0, 4)
                &&& v.1@ == data@.subrange(4, 8)
            },
            Err(e) => data@.len() != 8 && e == length_error(HintName::Secp256k1FnSub, 8, data@.len()),
        },
{
    if let Err(e) = validate_hint_length(data, 8, HintName::Secp256k1FnSub) {
        return Err(e);
    }
    let x = words4(data, 0);
    let y = words4(data, 4);
    Ok((x, y))
}

/// Validates a `SECP256K1_FN_MUL` hint payload and splits it into `x` (4 words), `y` (4 words).
/// The payload must hold exactly 8 words.
pub fn secp256k1_fn_mul_hint(data: &[u64]) -> (r: Result<([u64; 4], [u64; 4]), HintError>)
    ensures
        match r {
            Ok(v) => {
                &&& data@.len() == 8
                &&& v.0@ == data@.subrange(0, 4)
                &&& v.1@ == data@.subrange(4, 8)
            },
            Err(e) => data@.len() != 8 && e == length_error(HintName::Secp256k1FnMul, 8, data@.len()),
        },
{
    if let Err(e) = validate_hint_length(data, 8, HintName::Secp256k1FnMul) {
        return Err(e);
    }
    let x = words4(data, 0);
    let y = words4(data, 4);
    Ok((x, y))
}

/// Validates a `SECP256K1_FN_INV` hint payload and splits it into `x` (4 words).
/// The payload must hold exactly 4 words.
pub fn secp256k1_fn_inv_hint(data: &[u64]) -> (r: Result<[u64; 4], HintError>)
    ensures
        match r {
            Ok(v) => {
                &&& data@.len() == 4
                &&& v@ == data@.subrange(0, 4)
            },
            Err(e) => data@.len() != 4 && e == length_error(HintName::Secp256k1FnInv, 4, data@.len()),
        },
{
    if let Err(e) = validate_hint_length(data, 4, HintName::Secp256k1FnInv) {
        return Err(e);
    }
    let x = words4(data, 0);
    Ok(x)
}

/// Validates a `SECP256K1_FP_REDUCE` hint payload and splits it into `x` (4 words).
/// The payload must hold exactly 4 words.
pub fn secp256k1_fp_reduce_hint(data: &[u64]) -> (r: Result<[u64; 4], HintError>)
    ensures
        match r {
            Ok(v) => {
                &&& data@.len() == 4
                &&& v@ == data@.subrange(0, 4)
            },
            Err(e) => data@.len() != 4 && e == length_error(HintName::Secp256k1FpReduce, 4, data@.len()),
        },
{
    if let Err(e) = validate_hint_length(data, 4, HintName::Secp256k1FpReduce) {
        return Err(e);
    }
    let x = words4(data, 0);
    Ok(x)
}

/// Validates a `SECP256K1_FP_ADD` hint payload and splits it into `x` (4 words), `y` (4 words).
/// The payload must hold exactly 8 words.
pub fn secp256k1_fp_add_hint(data: &[u64]) -> (r: Result<([u64; 4], [u64; 4]), HintError>)
    ensures
        match r {
            Ok(v) => {
                &&& data@.len() == 8
                &&& v.0@ == data@.subrange(0, 4)
                &&& v.1@ == data@.subrange(4, 8)
            },
            Err(e) => data@.len() != 8 && e == length_error(HintName::Secp256k1FpAdd, 8, data@.len()),
        },
{
    if let Err(e) = validate_hint_length(data, 8, HintName::Secp256k1FpAdd) {
        return Err(e);
    }
    let x = words4(data, 0);
    let y = words4(data, 4);
    Ok((x, y))
}

/// Validates a `SECP256K1_FP_NEGATE` hint payload and splits it into `x` (4 words).
/// The payload must hold exactly 4 words.
pub fn secp256k1_fp_negate_hint(data: &[u64]) -> (r: Result<[u64; 4], HintError>)
    ensures
        match r {
            Ok(v) => {
                &&& data@.len() == 4
                &&& v@ == data@.subrange(0, 4)
            },
            Err(e) => data@.len() != 4 && e == length_error(HintName::Secp256k1FpNegate, 4, data@.len()),
        },
{
    if let Err(e) = validate_hint_length(data, 4, HintName::Secp256k1FpNegate) {
        return Err(e);
    }
    let x = words4(data, 0);
    Ok(x)
}

/// Validates a `SECP256K1_FP_MUL` hint payload and splits it into `x` (4 words), `y` (4 words).
/// The payload must hold exactly 8 words.
pub fn secp256k1_fp_mul_hint(data: &[u64]) -> (r: Result<([u64; 4], [u64; 4]), HintError>)
    ensures
        match r {
            Ok(v) => {
                &&& data@.len() == 8
                &&& v.0@ == data@.subrange(0, 4)
                &&& v.1@ == data@.subrange(4, 8)
            },
            Err(e) => data@.len() != 8 && e == length_error(HintName::Secp256k1FpMul, 8, data@.len()),
        },
{
    if let Err(e) = validate_hint_length(data, 8, HintName::Secp256k1FpMul) {
        return Err(e);
    }
    let x = words4(data, 0);
    let y = words4(data, 4);
    Ok((x, y))
}

/// Validates a `SECP256K1_FP_MUL_SCALAR` hint payload and splits it into `x` (4 words), `scalar` (1 word).
/// The payload must hold exactly 5 words.
pub fn secp256k1_fp_mul_scalar_hint(data: &[u64]) -> (r: Result<([u64; 4], u64), HintError>)
    ensures
        match r {
            Ok(v) => {
                &&& data@.len() == 5
                &&& v.0@ == data@.subrange(0, 4)
                &&& v.1 == data@[4]
            },
            Err(e) => data@.len() != 5 && e == length_error(HintName::Secp256k1FpMulScalar, 5, data@.len()),
        },
{
    if let Err(e) = validate_hint_length(data, 5, HintName::Secp256k1FpMulScalar) {
        return Err(e);
    }
    let x = words4(data, 0);
    let scalar = data[4];
    Ok((x, scalar))
}

/// Validates a `SECP256K1_TO_AFFINE` hint payload and splits it into `p` (12 words).
/// The payload must hold exactly 12 words.
pub fn secp256k1_to_affine_hint(data: &[u64]) -> (r: Result<[u64; 12], HintError>)
    ensures
        match r {
            Ok(v) => {
                &&& data@.len() == 12
                &&& v@ == data@.subrange(0, 12)
            },
            Err(e) => data@.len() != 12 && e == length_error(HintName::Secp256k1ToAffine, 12, data@.len()),
        },
{
    if let Err(e) = validate_hint_length(data, 12, HintName::Secp256k1ToAffine) {
        return Err(e);
    }
    let p = words12(data, 0);
    Ok(p)
}

/// Validates a `SECP256K1_DECOMPRESS` hint payload and splits it into `x_bytes` (4 words), `y_is_odd` (1 word).
/// The payload must hold exactly 5 words.
pub fn secp256k1_decompress_hint(data: &[u64]) -> (r: Result<([u64; 4], bool), HintError>)
    ensures
        match r {
            Ok(v) => {
                &&& data@.len() == 5
                &&& v.0@ == data@.subrange(0, 4)
                &&& v.1 == (data@[4] >> 56u64 != 0)
            },
            Err(e) => data@.len() != 5 && e == length_error(HintName::Secp256k1Decompress, 5, data@.len()),
        },
{
    if let Err(e) = validate_hint_length(data, 5, HintName::Secp256k1Decompress) {
        return Err(e);
    }
    let x_bytes = words4(data, 0);
    let y_is_odd = (data[4] >> 56u64) != 0;
    Ok((x_bytes, y_is_odd))
}

/// Validates a `SECP256K1_DOUBLE_SCALAR_MUL_WITH_G` hint payload and splits it into `k1` (4 words), `k2` (4 words), `p` (8 words).
/// The payload must hold exactly 16 words.
pub fn secp256k1_double_scalar_mul_with_g_hint(data: &[u64]) -> (r: Result<([u64; 4], [u64; 4], [u64; 8]), HintError>)
    ensures
        match r {
            Ok(v) => {
                &&& data@.len() == 16
                &&& v.0@ == data@.subrange(0, 4)
                &&& v.1@ == data@.subrange(4, 8)
                &&& v.2@ == data@.subrange(8, 16)
            },
            Err(e) => data@.len() != 16 && e == length_error(HintName::Secp256k1DoubleScalarMulWithG, 16, data@.len()),
        },
{
    if let Err(e) = validate_hint_length(data, 16, HintName::Secp256k1DoubleScalarMulWithG) {
        return Err(e);
    }
    let k1 = words4(data, 0);
    let k2 = words4(data, 4);
    let p = words8(data, 8);
    Ok((k1, k2, p))
}

/// Validates a `SECP256K1_ECDSA_VERIFY` hint payload and splits it into `pk` (8 words), `z` (4 words), `r` (4 words), `s` (4 words).
/// The payload must hold exactly 20 words.
pub fn secp256k1_ecdsa_verify_hint(data: &[u64]) -> (r: Result<([u64; 8], [u64; 4], [u64; 4], [u64; 4]), HintError>)
    ensures
        match r {
            Ok(v) => {
                &&& data@.len() == 20
                &&& v.0@ == data@.subrange(0, 8)
                &&& v.1@ == data@.subrange(8, 12)
                &&& v.2@ == data@.subrange(12, 16)
                &&& v.3@ == data@.subrange(16, 20)
            },
            Err(e) => data@.len() != 20 && e == length_error(HintName::Secp256k1EcdsaVerify, 20, data@.len()),
        },
{
    if let Err(e) = validate_hint_length(data, 20, HintName::Secp256k1EcdsaVerify) {
        return Err(e);
    }
    let pk = words8(data, 0);
    let z = words4(data, 8);
    let r = words4(data, 12);
    let s = words4(data, 16);
    Ok((pk, z, r, s))
}

/// Validates a `IS_ON_CURVE_BN254` hint payload and splits it into `p` (8 words).
/// The payload must hold exactly 8 words.
pub fn bn254_is_on_curve_hint(data: &[u64]) -> (r: Result<[u64; 8], HintError>)
    ensures
        match r {
            Ok(v) => {
                &&& data@.len() == 8
                &&& v@ == data@.subrange(0, 8)
            },
            Err(e) => data@.len() != 8 && e == length_error(HintName::IsOnCurveBn254, 8, data@.len()),
        },
{
    if let Err(e) = validate_hint_length(data, 8, HintName::IsOnCurveBn254) {
        return Err(e);
    }
    let p = words8(data, 0);
    Ok(p)
}

/// Validates a `TO_AFFINE_BN254` hint payload and splits it into `p` (12 words).
/// The payload must hold exactly 12 words.
pub fn bn254_to_affine_hint(data: &[u64]) -> (r: Result<[u64; 12], HintError>)
    ensures
        match r {
            Ok(v) => {
                &&& data@.len() == 12
                &&& v@ == data@.subrange(0, 12)
            },
            Err(e) => data@.len() != 12 && e == length_error(HintName::ToAffineBn254, 12, data@.len()),
        },
{
    if let Err(e) = validate_hint_length(data, 12, HintName::ToAffineBn254) {
        return Err(e);
    }
    let p = words12(data, 0);
    Ok(p)
}

/// Validates a `ADD_BN254` hint payload and splits it into `p1` (8 words), `p2` (8 words).
/// The payload must hold exactly 16 words.
pub fn bn254_add_hint(data: &[u64]) -> (r: Result<([u64; 8], [u64; 8]), HintError>)
    ensures
        match r {
            Ok(v) => {
                &&& data@.len() == 16
                &&& v.0@ == data@.subrange(0, 8)
                &&& v.1@ == data@.subrange(8, 16)
            },
            Err(e) => data@.len() != 16 && e == length_error(HintName::AddBn254, 16, data@.len()),
        },
{
    if let Err(e) = validate_hint_length(data, 16, HintName::AddBn254) {
        return Err(e);
    }
    let p1 = words8(data, 0);
    let p2 = words8(data, 8);
    Ok((p1, p2))
}

/// Validates a `MUL_BN254` hint payload and splits it into `p` (8 words), `k` (4 words).
/// The payload must hold exactly 12 words.
pub fn bn254_mul_hint(data: &[u64]) -> (r: Result<([u64; 8], [u64; 4]), HintError>)
    ensures
        match r {
            Ok(v) => {
                &&& data@.len() == 12
                &&& v.0@ == data@.subrange(0, 8)
                &&& v.1@ == data@.subrange(8, 12)
            },
            Err(e) => data@.len() != 12 && e == length_error(HintName::MulBn254, 12, data@.len()),
        },
{
    if let Err(e) = validate_hint_length(data, 12, HintName::MulBn254) {
        return Err(e);
    }
    let p = words8(data, 0);
    let k = words4(data, 8);
    Ok((p, k))
}

/// Validates a `TO_AFFINE_TWIST_BN254` hint payload and splits it into `p` (24 words).
/// The payload must hold exactly 24 words.
pub fn bn254_to_affine_twist_hint(data: &[u64]) -> (r: Result<[u64; 24], HintError>)
    ensures
        match r {
            Ok(v) => {
                &&& data@.len() == 24
                &&& v@ == data@.subrange(0, 24)
            },
            Err(e) => data@.len() != 24 && e == length_error(HintName::ToAffineTwistBn254, 24, data@.len()),
        },
{
    if let Err(e) = validate_hint_length(data, 24, HintName::ToAffineTwistBn254) {
        return Err(e);
    }
    let p = words24(data, 0);
    Ok(p)
}

/// Validates a `IS_ON_CURVE_TWIST_BN254` hint payload and splits it into `p` (16 words).
/// The payload must hold exactly 16 words.
pub fn bn254_is_on_curve_twist_hint(data: &[u64]) -> (r: Result<[u64; 16], HintError>)
    ensures
        match r {
            Ok(v) => {
                &&& data@.len() == 16
                &&& v@ == data@.subrange(0, 16)
            },
            Err(e) => data@.len() != 16 && e == length_error(HintName::IsOnCurveTwistBn254, 16, data@.len()),
        },
{
    if let Err(e) = validate_hint_length(data, 16, HintName::IsOnCurveTwistBn254) {
        return Err(e);
    }
    let p = words16(data, 0);
    Ok(p)
}

/// Validates a `IS_ON_SUBGROUP_TWIST_BN254` hint payload and splits it into `p` (16 words).
/// The payload must hold exactly 16 words.
pub fn bn254_is_on_subgroup_twist_hint(data: &[u64]) -> (r: Result<[u64; 16], HintError>)
    ensures
        match r {
            Ok(v) => {
                &&& data@.len() == 16
                &&& v@ == data@.subrange(0, 16)
            },
            Err(e) => data@.len() != 16 && e == length_error(HintName::IsOnSubgroupTwistBn254, 16, data@.len()),
        },
{
    if let Err(e) = validate_hint_length(data, 16, HintName::IsOnSubgroupTwistBn254) {
        return Err(e);
    }
    let p = words16(data, 0);
    Ok(p)
}

/// Validates a `ECRECOVER` hint payload and splits it into `pk` (8 words), `z` (4 words), `r` (4 words), `s` (4 words).
/// The payload must hold exactly 20 words.
pub fn process_ecrecover_hint(data: &[u64]) -> (r: Result<([u64; 8], [u64; 4], [u64; 4], [u64; 4]), HintError>)
    ensures
        match r {
            Ok(v) => {
                &&& data@.len() == 20
                &&& v.0@ == data@.subrange(0, 8)
                &&& v.1@ == data@.subrange(8, 12)
                &&& v.2@ == data@.subrange(12, 16)
                &&& v.3@ == data@.subrange(16, 20)
            },
            Err(e) => data@.len() != 20 && e == length_error(HintName::Ecrecover, 20, data@.len()),
        },
{
    if let Err(e) = validate_hint_length(data, 20, HintName::Ecrecover) {
        return Err(e);
    }
    let pk = words8(data, 0);
    let z = words4(data, 8);
    let r = words4(data, 12);
    let s = words4(data, 16);
    Ok((pk, z, r, s))
}

/// Validates a `REDMOD256` hint payload and splits it into `a` (4 words), `m` (4 words).
/// The payload must hold exactly 8 words.
pub fn process_redmod256_hint(data: &[u64]) -> (r: Result<([u64; 4], [u64; 4]), HintError>)
    ensures
        match r {
            Ok(v) => {
                &&& data@.len() == 8
                &&& v.0@ == data@.subrange(0, 4)
                &&& v.1@ == data@.subrange(4, 8)
            },
            Err(e) => data@.len() != 8 && e == length_error(HintName::Redmod256, 8, data@.len()),
        },
{
    if let Err(e) = validate_hint_length(data, 8, HintName::Redmod256) {
        return Err(e);
    }
    let a = words4(data, 0);
    let m = words4(data, 4);
    Ok((a, m))
}

/// Validates a `ADDMOD256` hint payload and splits it into `a` (4 words), `b` (4 words), `m` (4 words).
/// The payload must hold exactly 12 words.
pub fn process_addmod256_hint(data: &[u64]) -> (r: Result<([u64; 4], [u64; 4], [u64; 4]), HintError>)
    ensures
        match r {
            Ok(v) => {
                &&& data@.len() == 12
                &&& v.0@ == data@.subrange(0, 4)
                &&& v.1@ == data@.subrange(4, 8)
                &&& v.2@ == data@.subrange(8, 12)
            },
            Err(e) => data@.len() != 12 && e == length_error(HintName::Addmod256, 12, data@.len()),
        },
{
    if let Err(e) = validate_hint_length(data, 12, HintName::Addmod256) {
        return Err(e);
    }
    let a = words4(data, 0);
    let b = words4(data, 4);
    let m = words4(data, 8);
    Ok((a, b, m))
}

/// Validates a `MULMOD256` hint payload and splits it into `a` (4 words), `b` (4 words), `m` (4 words).
/// The payload must hold exactly 12 words.
pub fn process_mulmod256_hint(data: &[u64]) -> (r: Result<([u64; 4], [u64; 4], [u64; 4]), HintError>)
    ensures
        match r {
            Ok(v) => {
                &&& data@.len() == 12
                &&& v.0@ == data@.subrange(0, 4)
                &&& v.1@ == data@.subrange(4, 8)
                &&& v.2@ == data@.subrange(8, 12)
            },
            Err(e) => data@.len() != 12 && e == length_error(HintName::Mulmod256, 12, data@.len()),
        },
{
    if let Err(e) = validate_hint_length(data, 12, HintName::Mulmod256) {
        return Err(e);
    }
    let a = words4(data, 0);
    let b = words4(data, 4);
    let m = words4(data, 8);
    Ok((a, b, m))
}

/// Validates a `DIVREM256` hint payload and splits it into `a` (4 words), `b` (4 words).
/// The payload must hold exactly 8 words.
pub fn process_divrem256_hint(data: &[u64]) -> (r: Result<([u64; 4], [u64; 4]), HintError>)
    ensures
        match r {
            Ok(v) => {
                &&& data@.len() == 8
                &&& v.0@ == data@.subrange(0, 4)
                &&& v.1@ == data@.subrange(4, 8)
            },
            Err(e) => data@.len() != 8 && e == length_error(HintName::Divrem256, 8, data@.len()),
        },
{
    if let Err(e) = validate_hint_length(data, 8, HintName::Divrem256) {
        return Err(e);
    }
    let a = words4(data, 0);
    let b = words4(data, 4);
    Ok((a, b))
}

/// Validates a `WPOW256` hint payload and splits it into `a` (4 words), `exp` (4 words).
/// The payload must hold exactly 8 words.
pub fn process_wpow256_hint(data: &[u64]) -> (r: Result<([u64; 4], [u64; 4]), HintError>)
    ensures
        match r {
            Ok(v) => {
                &&& data@.len() == 8
                &&& v.0@ == data@.subrange(0, 4)
                &&& v.1@ == data@.subrange(4, 8)
            },
            Err(e) => data@.len() != 8 && e == length_error(HintName::Wpow256, 8, data@.len()),
        },
{
    if let Err(e) = validate_hint_length(data, 8, HintName::Wpow256) {
        return Err(e);
    }
    let a = words4(data, 0);
    let exp = words4(data, 4);
    Ok((a, exp))
}

/// Validates a `OMUL256` hint payload and splits it into `a` (4 words), `b` (4 words).
/// The payload must hold exactly 8 words.
pub fn process_omul256_hint(data: &[u64]) -> (r: Result<([u64; 4], [u64; 4]), HintError>)
    ensures
        match r {
            Ok(v) => {
                &&& data@.len() == 8
                &&& v.0@ == data@.subrange(0, 4)
                &&& v.1@ == data@.subrange(4, 8)
            },
            Err(e) => data@.len() != 8 && e == length_error(HintName::Omul256, 8, data@.len()),
        },
{
    if let Err(e) = validate_hint_length(data, 8, HintName::Omul256) {
        return Err(e);
    }
    let a = words4(data, 0);
    let b = words4(data, 4);
    Ok((a, b))
}

/// Validates a `WMUL256` hint payload and splits it into `a` (4 words), `b` (4 words).
/// The payload must hold exactly 8 words.
pub fn process_wmul256_hint(data: &[u64]) -> (r: Result<([u64; 4], [u64; 4]), HintError>)
    ensures
        match r {
            Ok(v) => {
                &&& data@.len() == 8
                &&& v.0@ == data@.subrange(0, 4)
                &&& v.1@ == data@.subrange(4, 8)
            },
            Err(e) => data@.len() != 8 && e == length_error(HintName::Wmul256, 8, data@.len()),
        },
{
    if let Err(e) = validate_hint_length(data, 8, HintName::Wmul256) {
        return Err(e);
    }
    let a = words4(data, 0);
    let b = words4(data, 4);
    Ok((a, b))
}


/// The outcome of reading the length-prefixed field at `pos` of `data`: the field's words
/// and the position after it, or the error.
pub open spec fn spec_read_field(data: Seq<u64>, pos: int) -> Result<(Seq<u64>, int), HintError> {
    if pos < 0 || pos >= data.len() {
        Err(HintError::TruncatedField)
    } else if pos + 1 + data[pos] > data.len() {
        Err(HintError::TruncatedField)
    } else {
        Ok((data.subrange(pos + 1, pos + 1 + data[pos]), pos + 1 + data[pos]))
    }
}

/// Reads a length-prefixed field at `*pos`: one word with the length, then that many
/// words. On success `*pos` moves past the field.
pub fn read_field<'a>(data: &'a [u64], pos: &mut usize) -> (r: Result<&'a [u64], HintError>)
    ensures
        match spec_read_field(data@, *old(pos) as int) {
            Ok((field, after)) => r matches Ok(f) && f@ == field && *final(pos) as int == after,
            Err(e) => r == Err::<&[u64], HintError>(e),
        },
{
    if *pos >= data.len() {
        return Err(HintError::TruncatedField);
    }
    let len = data[*pos];
    let room = data.len() - *pos - 1;
    if len > room as u64 {
        return Err(HintError::TruncatedField);
    }
    let start = *pos + 1;
    let end = start + len as usize;
    *pos = end;
    Ok(&data[start..end])
}

/// The parts of a modular exponentiation payload: `[base_len, base.., exp_len, exp..,
/// modulus_len, modulus..]`, or the error that the payload gives.
pub open spec fn spec_modexp_parts(data: Seq<u64>) -> Result<(Seq<u64>, Seq<u64>, Seq<u64>), HintError> {
    if data.len() == 0 {
        Err(HintError::ModexpEmpty)
    } else {
        let base_end = 1 + data[0];
        if data.len() < base_end + 1 {
            Err(HintError::ModexpBaseTooShort { expected: (base_end + 1) as u128 })
        } else {
            let exp_end = base_end + 1 + data[base_end];
            if data.len() < exp_end + 1 {
                Err(HintError::ModexpExponentTooShort { expected: (exp_end + 1) as u128 })
            } else {
                let expected_len = exp_end + 1 + data[exp_end];
                if data.len() != expected_len {
                    Err(HintError::InvalidHintLength { hint: HintName::Modexp, expected: expected_len as u128, got: data.len() as usize })
                } else {
                    Ok((
                        data.subrange(1, base_end),
                        data.subrange(base_end + 1, exp_end),
                        data.subrange(exp_end + 1, expected_len),
                    ))
                }
            }
        }
    }
}

/// Validates a `MODEXP` hint payload and splits it into base, exponent and modulus, each
/// prefixed by its length in words; the payload must end right after the modulus.
pub fn modexp_hint(data: &[u64]) -> (r: Result<(&[u64], &[u64], &[u64]), HintError>)
    ensures
        match spec_modexp_parts(data@) {
            Ok((b, e, m)) => r matches Ok(v) && v.0@ == b && v.1@ == e && v.2@ == m,
            Err(err) => r == Err::<(&[u64], &[u64], &[u64]), HintError>(err),
        },
{
    if data.len() == 0 {
        return Err(HintError::ModexpEmpty);
    }
    let len = data.len() as u128;
    let base_end = 1u128 + data[0] as u128;
    if len < base_end + 1 {
        return Err(HintError::ModexpBaseTooShort { expected: base_end + 1 });
    }
    let base_end_idx = base_end as usize;
    let exp_end = base_end + 1 + data[base_end_idx] as u128;
    if len < exp_end + 1 {
        return Err(HintError::ModexpExponentTooShort { expected: exp_end + 1 });
    }
    let exp_end_idx = exp_end as usize;
    let expected_len = exp_end + 1 + data[exp_end_idx] as u128;
    if len != expected_len {
        return Err(HintError::InvalidHintLength { hint: HintName::Modexp, expected: expected_len, got: data.len() });
    }
    let base = &data[1..base_end_idx];
    let exp = &data[base_end_idx + 1..exp_end_idx];
    let modulus = &data[exp_end_idx + 1..data.len()];
    Ok((base, exp, modulus))
}

/// The little-endian bytes of the words `start..start + count` of `data`.
pub fn words_le_bytes(data: &[u64], start: usize, count: usize) -> (v: Vec<u8>)
    requires
        start + count <= data@.len(),
    ensures
        v@ == le_bytes(data@.subrange(start as int, start + count)),
{
    let mut v: Vec<u8> = Vec::new();
    let ghost ws = data@.subrange(start as int, start + count);
    let dlen = data.len();
    let mut i: usize = 0;
    while i < count
        invariant
            i <= count,
            dlen == data@.len(),
            start + count <= data@.len(),
            ws == data@.subrange(start as int, start + count),
            v@ == le_bytes(ws.subrange(0, i as int)),
        decreases count - i,
    {
        let b = word_le_bytes(data[start + i]);
        let ghost before = v@;
        let mut j: usize = 0;
        while j < 8
            invariant
                j <= 8,
                i < count,
                start + count <= data@.len(),
                ws == data@.subrange(start as int, start + count),
                b@ == Seq::new(8, |t: int| word_byte(data@[start + i], t)),
                v@ == before + b@.subrange(0, j as int),
            decreases 8 - j,
        {
            v.push(b[j]);
            j = j + 1;
            assert(v@ =~= before + b@.subrange(0, j as int));
        }
        proof {
            let p = ws.subrange(0, i as int);
            let p1 = ws.subrange(0, i + 1);
            assert forall|k: int| 0 <= k < p1.len() * 8 implies #[trigger] le_bytes(p1)[k] == v@[k] by {
                if k < i * 8 {
                    assert(k / 8 < i) by (nonlinear_arith) requires k < i * 8, 0 <= k;
                    assert(p1[k / 8] == p[k / 8]);
                    assert(le_bytes(p)[k] == before[k]);
                } else {
                    assert(k / 8 == i && k % 8 == k - i * 8) by (nonlinear_arith)
                        requires i * 8 <= k < (i + 1) * 8;
                    assert(v@[k] == b@[k - i * 8]);
                }
            }
            assert(v@.len() == p1.len() * 8) by (nonlinear_arith)
                requires v@.len() == before.len() + 8, before.len() == p.len() * 8, p1.len() == p.len() + 1;
            assert(v@ =~= le_bytes(p1));
        }
        i = i + 1;
    }
    assert(ws.subrange(0, count as int) =~= ws);
    v
}

/// Validates a `HINT_BN254_G1_ADD` payload of at least 16 words and returns the byte
/// images of its two points: words 0..8 and words 8..16, little-endian.
pub fn bn254_g1_add_hint(data: &[u64]) -> (r: Result<(Vec<u8>, Vec<u8>), HintError>)
    ensures
        match r {
            Ok(v) => {
                &&& data@.len() >= 16
                &&& v.0@ == le_bytes(data@.subrange(0, 8))
                &&& v.1@ == le_bytes(data@.subrange(8, 16))
            },
            Err(e) => data@.len() < 16 && e == HintError::HintTooShort { hint: HintName::HintBn254G1Add, min: 16, got: data@.len() as usize },
        },
{
    if let Err(e) = validate_hint_min_length(data, 16, HintName::HintBn254G1Add) {
        return Err(e);
    }
    let p1 = words_le_bytes(data, 0, 8);
    let p2 = words_le_bytes(data, 8, 8);
    Ok((p1, p2))
}

/// Validates a `HINT_BN254_G1_MUL` payload of at least 12 words and returns the byte
/// images of its point (words 0..8) and scalar (words 8..12), little-endian.
pub fn bn254_g1_mul_hint(data: &[u64]) -> (r: Result<(Vec<u8>, Vec<u8>), HintError>)
    ensures
        match r {
            Ok(v) => {
                &&& data@.len() >= 12
                &&& v.0@ == le_bytes(data@.subrange(0, 8))
                &&& v.1@ == le_bytes(data@.subrange(8, 12))
            },
            Err(e) => data@.len() < 12 && e == HintError::HintTooShort { hint: HintName::HintBn254G1Mul, min: 12, got: data@.len() as usize },
        },
{
    if let Err(e) = validate_hint_min_length(data, 12, HintName::HintBn254G1Mul) {
        return Err(e);
    }
    let point = words_le_bytes(data, 0, 8);
    let scalar = words_le_bytes(data, 8, 4);
    Ok((point, scalar))
}

/// Validates a `PAIRING_BATCH_BN254` payload `[n, g1 points (8 words each) x n, g2 points
/// (16 words each) x n]` and returns the points.
pub fn bn254_pairing_batch_hint(data: &[u64]) -> (r: Result<(Vec<[u64; 8]>, Vec<[u64; 16]>), HintError>)
    ensures
        data@.len() == 0 ==> r == Err::<(Vec<[u64; 8]>, Vec<[u64; 16]>), HintError>(HintError::PairingBatchEmpty),
        data@.len() > 0 && data@.len() != 1 + 24 * data@[0] ==> r == Err::<(Vec<[u64; 8]>, Vec<[u64; 16]>), HintError>(
            HintError::InvalidHintLength { hint: HintName::PairingBatchBn254, expected: (1 + 24 * data@[0]) as u128, got: data@.len() as usize },
        ),
        data@.len() > 0 && data@.len() == 1 + 24 * data@[0] ==> match r {
            Ok(v) => {
                let n = data@[0] as int;
                &&& v.0@.len() == n
                &&& v.1@.len() == n
                &&& forall|i: int| 0 <= i < n ==> (#[trigger] v.0@[i])@ == data@.subrange(1 + 8 * i, 9 + 8 * i)
                &&& forall|i: int| 0 <= i < n ==> (#[trigger] v.1@[i])@ == data@.subrange(1 + 8 * n + 16 * i, 17 + 8 * n + 16 * i)
            },
            Err(_) => false,
        },
{
    if data.len() == 0 {
        return Err(HintError::PairingBatchEmpty);
    }
    let expected_len = 1u128 + 24u128 * (data[0] as u128);
    if data.len() as u128 != expected_len {
        return Err(HintError::InvalidHintLength { hint: HintName::PairingBatchBn254, expected: expected_len, got: data.len() });
    }
    let n = data[0] as usize;
    let g2_start = 1 + 8 * n;
    let mut g1: Vec<[u64; 8]> = Vec::new();
    let mut g2: Vec<[u64; 16]> = Vec::new();
    let dlen = data.len();
    let mut i: usize = 0;
    while i < n
        invariant
            i <= n,
            dlen == data@.len(),
            n == data@[0],
            data@.len() == 1 + 24 * n,
            g2_start == 1 + 8 * n,
            g1@.len() == i,
            g2@.len() == i,
            forall|k: int| 0 <= k < i ==> (#[trigger] g1@[k])@ == data@.subrange(1 + 8 * k, 9 + 8 * k),
            forall|k: int| 0 <= k < i ==> (#[trigger] g2@[k])@ == data@.subrange(1 + 8 * n + 16 * k, 17 + 8 * n + 16 * k),
        decreases n - i,
    {
        assert(8 * i + 8 <= 8 * n && 16 * i + 16 <= 16 * n) by (nonlinear_arith)
            requires
                i < n,
        ;
        g1.push(words8(data, 1 + 8 * i));
        g2.push(words16(data, g2_start + 16 * i));
        i = i + 1;
    }
    Ok((g1, g2))
}
} // verus!
