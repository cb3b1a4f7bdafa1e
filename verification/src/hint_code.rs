//! Hint codes of the precompile hint stream.
//!
//! Every hint header carries a 32-bit code: either a control code that steers the stream
//! (start, end, cancel, error) or the code of a built-in hint type. Codes that are neither
//! may be accepted as custom codes by the parser.

use crate::error::HintError;
use vstd::prelude::*;

verus! {

// === CONTROL CODES ===
/// Control code `CTRL_START`: Reset processor state and global sequence.
pub const CTRL_START: u32 = 0x00;
/// Control code `CTRL_END`: Wait until completion of all pending hints.
pub const CTRL_END: u32 = 0x01;
/// Control code `CTRL_CANCEL`: Cancel current stream and stop processing.
pub const CTRL_CANCEL: u32 = 0x02;
/// Control code `CTRL_ERROR`: Signal error and stop processing.
pub const CTRL_ERROR: u32 = 0x03;

// === BUILT-IN HINT CODES ===
/// Built-in hint code `NOOP`.
pub const HINT_NOOP: u32 = 0x04;
/// Built-in hint code `ECRECOVER`.
pub const HINT_ECRECOVER: u32 = 0x05;
/// Built-in hint code `SECP256K1_FN_REDUCE`.
pub const HINT_SECP256K1_FN_REDUCE: u32 = 0x02000;
/// Built-in hint code `SECP256K1_FN_ADD`.
pub const HINT_SECP256K1_FN_ADD: u32 = 0x02001;
/// Built-in hint code `SECP256K1_FN_NEG`.
pub const HINT_SECP256K1_FN_NEG: u32 = 0x02002;
/// Built-in hint code `SECP256K1_FN_SUB`.
pub const HINT_SECP256K1_FN_SUB: u32 = 0x02003;
/// Built-in hint code `SECP256K1_FN_MUL`.
pub const HINT_SECP256K1_FN_MUL: u32 = 0x02004;
/// Built-in hint code `SECP256K1_FN_INV`.
pub const HINT_SECP256K1_FN_INV: u32 = 0x02005;
/// Built-in hint code `SECP256K1_FP_REDUCE`.
pub const HINT_SECP256K1_FP_REDUCE: u32 = 0x02010;
/// Built-in hint code `SECP256K1_FP_ADD`.
pub const HINT_SECP256K1_FP_ADD: u32 = 0x02011;
/// Built-in hint code `SECP256K1_FP_NEGATE`.
pub const HINT_SECP256K1_FP_NEGATE: u32 = 0x02012;
/// Built-in hint code `SECP256K1_FP_MUL`.
pub const HINT_SECP256K1_FP_MUL: u32 = 0x02013;
/// Built-in hint code `SECP256K1_FP_MUL_SCALAR`.
pub const HINT_SECP256K1_FP_MUL_SCALAR: u32 = 0x02014;
/// Built-in hint code `SECP256K1_TO_AFFINE`.
pub const HINT_SECP256K1_TO_AFFINE: u32 = 0x02020;
/// Built-in hint code `SECP256K1_DECOMPRESS`.
pub const HINT_SECP256K1_DECOMPRESS: u32 = 0x02021;
/// Built-in hint code `SECP256K1_DOUBLE_SCALAR_MUL_WITH_G`.
pub const HINT_SECP256K1_DOUBLE_SCALAR_MUL_WITH_G: u32 = 0x02022;
/// Built-in hint code `SECP256K1_ECDSA_VERIFY`.
pub const HINT_SECP256K1_ECDSA_VERIFY: u32 = 0x02023;
/// Built-in hint code `REDMOD256`.
pub const HINT_REDMOD256: u32 = 0x06;
/// Built-in hint code `ADDMOD256`.
pub const HINT_ADDMOD256: u32 = 0x07;
/// Built-in hint code `MULMOD256`.
pub const HINT_MULMOD256: u32 = 0x08;
/// Built-in hint code `DIVREM256`.
pub const HINT_DIVREM256: u32 = 0x09;
/// Built-in hint code `WPOW256`.
pub const HINT_WPOW256: u32 = 0x0A;
/// Built-in hint code `OMUL256`.
pub const HINT_OMUL256: u32 = 0x0B;
/// Built-in hint code `WMUL256`.
pub const HINT_WMUL256: u32 = 0x0C;
/// Built-in hint code `MODEXP`.
pub const HINT_MODEXP: u32 = 0x0D;
/// Built-in hint code `BN254_IS_ON_CURVE`.
pub const HINT_BN254_IS_ON_CURVE: u32 = 0x0E;
/// Built-in hint code `BN254_TO_AFFINE`.
pub const HINT_BN254_TO_AFFINE: u32 = 0x0F;
/// Built-in hint code `BN254_ADD`.
pub const HINT_BN254_ADD: u32 = 0x10;
/// Built-in hint code `BN254_MUL`.
pub const HINT_BN254_MUL: u32 = 0x11;
/// Built-in hint code `BN254_TO_AFFINE_TWIST`.
pub const HINT_BN254_TO_AFFINE_TWIST: u32 = 0x12;
/// Built-in hint code `BN254_IS_ON_CURVE_TWIST`.
pub const HINT_BN254_IS_ON_CURVE_TWIST: u32 = 0x13;
/// Built-in hint code `BN254_IS_ON_SUBGROUP_TWIST`.
pub const HINT_BN254_IS_ON_SUBGROUP_TWIST: u32 = 0x14;
/// Built-in hint code `BN254_PAIRING_BATCH`.
pub const HINT_BN254_PAIRING_BATCH: u32 = 0x15;
/// Built-in hint code `BLS12_381_MUL_FP12`.
pub const HINT_BLS12_381_MUL_FP12: u32 = 0x16;
/// Built-in hint code `BLS12_381_DECOMPRESS`.
pub const HINT_BLS12_381_DECOMPRESS: u32 = 0x17;
/// Built-in hint code `BLS12_381_IS_ON_CURVE`.
pub const HINT_BLS12_381_IS_ON_CURVE: u32 = 0x18;
/// Built-in hint code `BLS12_381_IS_ON_SUBGROUP`.
pub const HINT_BLS12_381_IS_ON_SUBGROUP: u32 = 0x19;
/// Built-in hint code `BLS12_381_ADD`.
pub const HINT_BLS12_381_ADD: u32 = 0x1A;
/// Built-in hint code `BLS12_381_SCALAR_MUL`.
pub const HINT_BLS12_381_SCALAR_MUL: u32 = 0x1B;
/// Built-in hint code `BLS12_381_DECOMPRESS_TWIST`.
pub const HINT_BLS12_381_DECOMPRESS_TWIST: u32 = 0x1C;
/// Built-in hint code `BLS12_381_IS_ON_CURVE_TWIST`.
pub const HINT_BLS12_381_IS_ON_CURVE_TWIST: u32 = 0x1D;
/// Built-in hint code `BLS12_381_IS_ON_SUBGROUP_TWIST`.
pub const HINT_BLS12_381_IS_ON_SUBGROUP_TWIST: u32 = 0x1E;
/// Built-in hint code `BLS12_381_ADD_TWIST`.
pub const HINT_BLS12_381_ADD_TWIST: u32 = 0x1F;
/// Built-in hint code `BLS12_381_SCALAR_MUL_TWIST`.
pub const HINT_BLS12_381_SCALAR_MUL_TWIST: u32 = 0x20;
/// Built-in hint code `BLS12_381_MILLER_LOOP`.
pub const HINT_BLS12_381_MILLER_LOOP: u32 = 0x21;
/// Built-in hint code `BLS12_381_FINAL_EXP`.
pub const HINT_BLS12_381_FINAL_EXP: u32 = 0x22;

/// Control code variants for stream control.
#[derive(Debug, Clone, Copy, PartialEq, Eq, Hash, Structural)]
pub enum CtrlHint {
    /// Reset processor state and global sequence.
    Start,
    /// Wait until completion of all pending hints.
    End,
    /// Cancel current stream and stop processing.
    Cancel,
    /// Signal error and stop processing.
    Error,
}

/// Built-in hint type variants.
#[derive(Debug, Clone, Copy, PartialEq, Eq, Hash, Structural)]
pub enum BuiltInHint {
    /// Pass-through hint type: the data is forwarded without computation.
    Noop,
    /// ECRECOVER inputs.
    EcRecover,
    /// Secp256k1 scalar field reduction.
    Secp256K1FnReduce,
    /// Secp256k1 scalar field addition.
    Secp256K1FnAdd,
    /// Secp256k1 scalar field negation.
    Secp256K1FnNeg,
    /// Secp256k1 scalar field subtraction.
    Secp256K1FnSub,
    /// Secp256k1 scalar field multiplication.
    Secp256K1FnMul,
    /// Secp256k1 scalar field inversion.
    Secp256K1FnInv,
    /// Secp256k1 base field reduction.
    Secp256K1FpReduce,
    /// Secp256k1 base field addition.
    Secp256K1FpAdd,
    /// Secp256k1 base field negation.
    Secp256K1FpNegate,
    /// Secp256k1 base field multiplication.
    Secp256K1FpMul,
    /// Secp256k1 base field multiplication by a small scalar.
    Secp256K1FpMulScalar,
    /// Secp256k1 conversion to affine coordinates.
    Secp256K1ToAffine,
    /// Secp256k1 point decompression.
    Secp256K1Decompress,
    /// Secp256k1 double scalar multiplication with the generator.
    Secp256K1DoubleScalarMulWithG,
    /// Secp256k1 ECDSA verification.
    Secp256K1EcdsaVerify,
    /// Modular reduction of a 256-bit integer.
    RedMod256,
    /// Modular addition of 256-bit integers.
    AddMod256,
    /// Modular multiplication of 256-bit integers.
    MulMod256,
    /// Division with remainder of 256-bit integers.
    DivRem256,
    /// Wrapping exponentiation of 256-bit integers.
    WPow256,
    /// Overflowing multiplication of 256-bit integers.
    OMul256,
    /// Wrapping multiplication of 256-bit integers.
    WMul256,
    /// Modular exponentiation.
    ModExp,
    /// BN254 curve membership check.
    Bn254IsOnCurve,
    /// BN254 conversion to affine coordinates.
    Bn254ToAffine,
    /// BN254 point addition.
    Bn254Add,
    /// BN254 scalar multiplication.
    Bn254Mul,
    /// BN254 twist conversion to affine coordinates.
    Bn254ToAffineTwist,
    /// BN254 twist curve membership check.
    Bn254IsOnCurveTwist,
    /// BN254 twist subgroup membership check.
    Bn254IsOnSubgroupTwist,
    /// BN254 batched pairing.
    Bn254PairingBatch,
    /// BLS12-381 multiplication in Fp12.
    Bls12_381MulFp12,
    /// BLS12-381 point decompression.
    Bls12_381Decompress,
    /// BLS12-381 curve membership check.
    Bls12_381IsOnCurve,
    /// BLS12-381 subgroup membership check.
    Bls12_381IsOnSubgroup,
    /// BLS12-381 point addition.
    Bls12_381Add,
    /// BLS12-381 scalar multiplication.
    Bls12_381ScalarMul,
    /// BLS12-381 twist point decompression.
    Bls12_381DecompressTwist,
    /// BLS12-381 twist curve membership check.
    Bls12_381IsOnCurveTwist,
    /// BLS12-381 twist subgroup membership check.
    Bls12_381IsOnSubgroupTwist,
    /// BLS12-381 twist point addition.
    Bls12_381AddTwist,
    /// BLS12-381 twist scalar multiplication.
    Bls12_381ScalarMulTwist,
    /// BLS12-381 Miller loop.
    Bls12_381MillerLoop,
    /// BLS12-381 final exponentiation.
    Bls12_381FinalExp,
}

/// Hint code representing either a control code, a built-in hint type or a custom code.
#[derive(Debug, Clone, Copy, PartialEq, Eq, Hash, Structural)]
pub enum HintCode {
    /// Control code for stream management.
    Ctrl(CtrlHint),
    /// Built-in hint type.
    BuiltIn(BuiltInHint),
    /// Custom hint type.
    Custom(u32),
}

/// The 32-bit code of a control hint.
pub open spec fn ctrl_code(c: CtrlHint) -> u32 {
    match c {
        CtrlHint::Start => CTRL_START,
        CtrlHint::End => CTRL_END,
        CtrlHint::Cancel => CTRL_CANCEL,
        CtrlHint::Error => CTRL_ERROR,
    }
}

/// The 32-bit code of a built-in hint.
pub open spec fn builtin_code(b: BuiltInHint) -> u32 {
    match b {
        BuiltInHint::Noop => HINT_NOOP,
        BuiltInHint::EcRecover => HINT_ECRECOVER,
        BuiltInHint::Secp256K1FnReduce => HINT_SECP256K1_FN_REDUCE,
        BuiltInHint::Secp256K1FnAdd => HINT_SECP256K1_FN_ADD,
        BuiltInHint::Secp256K1FnNeg => HINT_SECP256K1_FN_NEG,
        BuiltInHint::Secp256K1FnSub => HINT_SECP256K1_FN_SUB,
        BuiltInHint::Secp256K1FnMul => HINT_SECP256K1_FN_MUL,
        BuiltInHint::Secp256K1FnInv => HINT_SECP256K1_FN_INV,
        BuiltInHint::Secp256K1FpReduce => HINT_SECP256K1_FP_REDUCE,
        BuiltInHint::Secp256K1FpAdd => HINT_SECP256K1_FP_ADD,
        BuiltInHint::Secp256K1FpNegate => HINT_SECP256K1_FP_NEGATE,
        BuiltInHint::Secp256K1FpMul => HINT_SECP256K1_FP_MUL,
        BuiltInHint::Secp256K1FpMulScalar => HINT_SECP256K1_FP_MUL_SCALAR,
        BuiltInHint::Secp256K1ToAffine => HINT_SECP256K1_TO_AFFINE,
        BuiltInHint::Secp256K1Decompress => HINT_SECP256K1_DECOMPRESS,
        BuiltInHint::Secp256K1DoubleScalarMulWithG => HINT_SECP256K1_DOUBLE_SCALAR_MUL_WITH_G,
        BuiltInHint::Secp256K1EcdsaVerify => HINT_SECP256K1_ECDSA_VERIFY,
        BuiltInHint::RedMod256 => HINT_REDMOD256,
        BuiltInHint::AddMod256 => HINT_ADDMOD256,
        BuiltInHint::MulMod256 => HINT_MULMOD256,
        BuiltInHint::DivRem256 => HINT_DIVREM256,
        BuiltInHint::WPow256 => HINT_WPOW256,
        BuiltInHint::OMul256 => HINT_OMUL256,
        BuiltInHint::WMul256 => HINT_WMUL256,
        BuiltInHint::ModExp => HINT_MODEXP,
        BuiltInHint::Bn254IsOnCurve => HINT_BN254_IS_ON_CURVE,
        BuiltInHint::Bn254ToAffine => HINT_BN254_TO_AFFINE,
        BuiltInHint::Bn254Add => HINT_BN254_ADD,
        BuiltInHint::Bn254Mul => HINT_BN254_MUL,
        BuiltInHint::Bn254ToAffineTwist => HINT_BN254_TO_AFFINE_TWIST,
        BuiltInHint::Bn254IsOnCurveTwist => HINT_BN254_IS_ON_CURVE_TWIST,
        BuiltInHint::Bn254IsOnSubgroupTwist => HINT_BN254_IS_ON_SUBGROUP_TWIST,
        BuiltInHint::Bn254PairingBatch => HINT_BN254_PAIRING_BATCH,
        BuiltInHint::Bls12_381MulFp12 => HINT_BLS12_381_MUL_FP12,
        BuiltInHint::Bls12_381Decompress => HINT_BLS12_381_DECOMPRESS,
        BuiltInHint::Bls12_381IsOnCurve => HINT_BLS12_381_IS_ON_CURVE,
        BuiltInHint::Bls12_381IsOnSubgroup => HINT_BLS12_381_IS_ON_SUBGROUP,
        BuiltInHint::Bls12_381Add => HINT_BLS12_381_ADD,
        BuiltInHint::Bls12_381ScalarMul => HINT_BLS12_381_SCALAR_MUL,
        BuiltInHint::Bls12_381DecompressTwist => HINT_BLS12_381_DECOMPRESS_TWIST,
        BuiltInHint::Bls12_381IsOnCurveTwist => HINT_BLS12_381_IS_ON_CURVE_TWIST,
        BuiltInHint::Bls12_381IsOnSubgroupTwist => HINT_BLS12_381_IS_ON_SUBGROUP_TWIST,
        BuiltInHint::Bls12_381AddTwist => HINT_BLS12_381_ADD_TWIST,
        BuiltInHint::Bls12_381ScalarMulTwist => HINT_BLS12_381_SCALAR_MUL_TWIST,
        BuiltInHint::Bls12_381MillerLoop => HINT_BLS12_381_MILLER_LOOP,
        BuiltInHint::Bls12_381FinalExp => HINT_BLS12_381_FINAL_EXP,
    }
}

/// The 32-bit code of any hint code.
pub open spec fn hint_code_value(h: HintCode) -> u32 {
    match h {
        HintCode::Ctrl(c) => ctrl_code(c),
        HintCode::BuiltIn(b) => builtin_code(b),
        HintCode::Custom(v) => v,
    }
}

/// The control hint whose code is `v`, if any.
pub open spec fn ctrl_from_code(v: u32) -> Option<CtrlHint> {
    if v == CTRL_START {
        Some(CtrlHint::Start)
    } else if v == CTRL_END {
        Some(CtrlHint::End)
    } else if v == CTRL_CANCEL {
        Some(CtrlHint::Cancel)
    } else if v == CTRL_ERROR {
        Some(CtrlHint::Error)
    } else {
        None
    }
}

/// The built-in hint whose code is `v`, if any.
pub open spec fn builtin_from_code(v: u32) -> Option<BuiltInHint> {
    if v == HINT_NOOP {
        Some(BuiltInHint::Noop)
    } else if v == HINT_ECRECOVER {
        Some(BuiltInHint::EcRecover)
    } else if v == HINT_SECP256K1_FN_REDUCE {
        Some(BuiltInHint::Secp256K1FnReduce)
    } else if v == HINT_SECP256K1_FN_ADD {
        Some(BuiltInHint::Secp256K1FnAdd)
    } else if v == HINT_SECP256K1_FN_NEG {
        Some(BuiltInHint::Secp256K1FnNeg)
    } else if v == HINT_SECP256K1_FN_SUB {
        Some(BuiltInHint::Secp256K1FnSub)
    } else if v == HINT_SECP256K1_FN_MUL {
        Some(BuiltInHint::Secp256K1FnMul)
    } else if v == HINT_SECP256K1_FN_INV {
        Some(BuiltInHint::Secp256K1FnInv)
    } else if v == HINT_SECP256K1_FP_REDUCE {
        Some(BuiltInHint::Secp256K1FpReduce)
    } else if v == HINT_SECP256K1_FP_ADD {
        Some(BuiltInHint::Secp256K1FpAdd)
    } else if v == HINT_SECP256K1_FP_NEGATE {
        Some(BuiltInHint::Secp256K1FpNegate)
    } else if v == HINT_SECP256K1_FP_MUL {
        Some(BuiltInHint::Secp256K1FpMul)
    } else if v == HINT_SECP256K1_FP_MUL_SCALAR {
        Some(BuiltInHint::Secp256K1FpMulScalar)
    } else if v == HINT_SECP256K1_TO_AFFINE {
        Some(BuiltInHint::Secp256K1ToAffine)
    } else if v == HINT_SECP256K1_DECOMPRESS {
        Some(BuiltInHint::Secp256K1Decompress)
    } else if v == HINT_SECP256K1_DOUBLE_SCALAR_MUL_WITH_G {
        Some(BuiltInHint::Secp256K1DoubleScalarMulWithG)
    } else if v == HINT_SECP256K1_ECDSA_VERIFY {
        Some(BuiltInHint::Secp256K1EcdsaVerify)
    } else if v == HINT_REDMOD256 {
        Some(BuiltInHint::RedMod256)
    } else if v == HINT_ADDMOD256 {
        Some(BuiltInHint::AddMod256)
    } else if v == HINT_MULMOD256 {
        Some(BuiltInHint::MulMod256)
    } else if v == HINT_DIVREM256 {
        Some(BuiltInHint::DivRem256)
    } else if v == HINT_WPOW256 {
        Some(BuiltInHint::WPow256)
    } else if v == HINT_OMUL256 {
        Some(BuiltInHint::OMul256)
    } else if v == HINT_WMUL256 {
        Some(BuiltInHint::WMul256)
    } else if v == HINT_MODEXP {
        Some(BuiltInHint::ModExp)
    } else if v == HINT_BN254_IS_ON_CURVE {
        Some(BuiltInHint::Bn254IsOnCurve)
    } else if v == HINT_BN254_TO_AFFINE {
        Some(BuiltInHint::Bn254ToAffine)
    } else if v == HINT_BN254_ADD {
        Some(BuiltInHint::Bn254Add)
    } else if v == HINT_BN254_MUL {
        Some(BuiltInHint::Bn254Mul)
    } else if v == HINT_BN254_TO_AFFINE_TWIST {
        Some(BuiltInHint::Bn254ToAffineTwist)
    } else if v == HINT_BN254_IS_ON_CURVE_TWIST {
        Some(BuiltInHint::Bn254IsOnCurveTwist)
    } else if v == HINT_BN254_IS_ON_SUBGROUP_TWIST {
        Some(BuiltInHint::Bn254IsOnSubgroupTwist)
    } else if v == HINT_BN254_PAIRING_BATCH {
        Some(BuiltInHint::Bn254PairingBatch)
    } else if v == HINT_BLS12_381_MUL_FP12 {
        Some(BuiltInHint::Bls12_381MulFp12)
    } else if v == HINT_BLS12_381_DECOMPRESS {
        Some(BuiltInHint::Bls12_381Decompress)
    } else if v == HINT_BLS12_381_IS_ON_CURVE {
        Some(BuiltInHint::Bls12_381IsOnCurve)
    } else if v == HINT_BLS12_381_IS_ON_SUBGROUP {
        Some(BuiltInHint::Bls12_381IsOnSubgroup)
    } else if v == HINT_BLS12_381_ADD {
        Some(BuiltInHint::Bls12_381Add)
    } else if v == HINT_BLS12_381_SCALAR_MUL {
        Some(BuiltInHint::Bls12_381ScalarMul)
    } else if v == HINT_BLS12_381_DECOMPRESS_TWIST {
        Some(BuiltInHint::Bls12_381DecompressTwist)
    } else if v == HINT_BLS12_381_IS_ON_CURVE_TWIST {
        Some(BuiltInHint::Bls12_381IsOnCurveTwist)
    } else if v == HINT_BLS12_381_IS_ON_SUBGROUP_TWIST {
        Some(BuiltInHint::Bls12_381IsOnSubgroupTwist)
    } else if v == HINT_BLS12_381_ADD_TWIST {
        Some(BuiltInHint::Bls12_381AddTwist)
    } else if v == HINT_BLS12_381_SCALAR_MUL_TWIST {
        Some(BuiltInHint::Bls12_381ScalarMulTwist)
    } else if v == HINT_BLS12_381_MILLER_LOOP {
        Some(BuiltInHint::Bls12_381MillerLoop)
    } else if v == HINT_BLS12_381_FINAL_EXP {
        Some(BuiltInHint::Bls12_381FinalExp)
    } else {
        None
    }
}

/// The known (control or built-in) hint code whose value is `v`, if any.
pub open spec fn hint_code_from_value(v: u32) -> Option<HintCode> {
    match ctrl_from_code(v) {
        Some(c) => Some(HintCode::Ctrl(c)),
        None => match builtin_from_code(v) {
            Some(b) => Some(HintCode::BuiltIn(b)),
            None => None,
        },
    }
}

/// Decoding the code of a control hint gives that control hint back.
pub proof fn lemma_ctrl_code_round_trip(c: CtrlHint)
    ensures
        ctrl_from_code(ctrl_code(c)) == Some(c),
{
}

/// Decoding the code of a built-in hint gives that built-in hint back.
pub proof fn lemma_builtin_code_round_trip(b: BuiltInHint)
    ensures
        builtin_from_code(builtin_code(b)) == Some(b),
{
}

/// No value is both a control code and a built-in hint code.
pub proof fn lemma_ctrl_and_builtin_codes_disjoint(c: CtrlHint, b: BuiltInHint)
    ensures
        ctrl_code(c) != builtin_code(b),
{
}

/// Every known hint code survives the trip through its `u32` value:
/// decoding `to_u32(h)` gives `h` back for every control and built-in code.
pub proof fn lemma_hint_code_round_trip(h: HintCode)
    requires
        !(h is Custom),
    ensures
        hint_code_from_value(hint_code_value(h)) == Some(h),
{
    match h {
        HintCode::Ctrl(c) => {
            lemma_ctrl_code_round_trip(c);
        },
        HintCode::BuiltIn(b) => {
            lemma_builtin_code_round_trip(b);
            match ctrl_from_code(builtin_code(b)) {
                Some(c) => {
                    lemma_ctrl_and_builtin_codes_disjoint(c, b);
                },
                None => {},
            }
        },
        HintCode::Custom(_) => {},
    }
}

/// The code table: each control code and built-in hint is encoded as its own documented
/// value, and that value decodes back to it.
pub proof fn lemma_code_table()
    ensures
        ctrl_code(CtrlHint::Start) == 0x00,
        ctrl_from_code(0x00) == Some(CtrlHint::Start),
        ctrl_code(CtrlHint::End) == 0x01,
        ctrl_from_code(0x01) == Some(CtrlHint::End),
        ctrl_code(CtrlHint::Cancel) == 0x02,
        ctrl_from_code(0x02) == Some(CtrlHint::Cancel),
        ctrl_code(CtrlHint::Error) == 0x03,
        ctrl_from_code(0x03) == Some(CtrlHint::Error),
        builtin_code(BuiltInHint::Noop) == 0x04,
        builtin_from_code(0x04) == Some(BuiltInHint::Noop),
        builtin_code(BuiltInHint::EcRecover) == 0x05,
        builtin_from_code(0x05) == Some(BuiltInHint::EcRecover),
        builtin_code(BuiltInHint::Secp256K1FnReduce) == 0x02000,
        builtin_from_code(0x02000) == Some(BuiltInHint::Secp256K1FnReduce),
        builtin_code(BuiltInHint::Secp256K1FnAdd) == 0x02001,
        builtin_from_code(0x02001) == Some(BuiltInHint::Secp256K1FnAdd),
        builtin_code(BuiltInHint::Secp256K1FnNeg) == 0x02002,
        builtin_from_code(0x02002) == Some(BuiltInHint::Secp256K1FnNeg),
        builtin_code(BuiltInHint::Secp256K1FnSub) == 0x02003,
        builtin_from_code(0x02003) == Some(BuiltInHint::Secp256K1FnSub),
        builtin_code(BuiltInHint::Secp256K1FnMul) == 0x02004,
        builtin_from_code(0x02004) == Some(BuiltInHint::Secp256K1FnMul),
        builtin_code(BuiltInHint::Secp256K1FnInv) == 0x02005,
        builtin_from_code(0x02005) == Some(BuiltInHint::Secp256K1FnInv),
        builtin_code(BuiltInHint::Secp256K1FpReduce) == 0x02010,
        builtin_from_code(0x02010) == Some(BuiltInHint::Secp256K1FpReduce),
        builtin_code(BuiltInHint::Secp256K1FpAdd) == 0x02011,
        builtin_from_code(0x02011) == Some(BuiltInHint::Secp256K1FpAdd),
        builtin_code(BuiltInHint::Secp256K1FpNegate) == 0x02012,
        builtin_from_code(0x02012) == Some(BuiltInHint::Secp256K1FpNegate),
        builtin_code(BuiltInHint::Secp256K1FpMul) == 0x02013,
        builtin_from_code(0x02013) == Some(BuiltInHint::Secp256K1FpMul),
        builtin_code(BuiltInHint::Secp256K1FpMulScalar) == 0x02014,
        builtin_from_code(0x02014) == Some(BuiltInHint::Secp256K1FpMulScalar),
        builtin_code(BuiltInHint::Secp256K1ToAffine) == 0x02020,
        builtin_from_code(0x02020) == Some(BuiltInHint::Secp256K1ToAffine),
        builtin_code(BuiltInHint::Secp256K1Decompress) == 0x02021,
        builtin_from_code(0x02021) == Some(BuiltInHint::Secp256K1Decompress),
        builtin_code(BuiltInHint::Secp256K1DoubleScalarMulWithG) == 0x02022,
        builtin_from_code(0x02022) == Some(BuiltInHint::Secp256K1DoubleScalarMulWithG),
        builtin_code(BuiltInHint::Secp256K1EcdsaVerify) == 0x02023,
        builtin_from_code(0x02023) == Some(BuiltInHint::Secp256K1EcdsaVerify),
        builtin_code(BuiltInHint::RedMod256) == 0x06,
        builtin_from_code(0x06) == Some(BuiltInHint::RedMod256),
        builtin_code(BuiltInHint::AddMod256) == 0x07,
        builtin_from_code(0x07) == Some(BuiltInHint::AddMod256),
        builtin_code(BuiltInHint::MulMod256) == 0x08,
        builtin_from_code(0x08) == Some(BuiltInHint::MulMod256),
        builtin_code(BuiltInHint::DivRem256) == 0x09,
        builtin_from_code(0x09) == Some(BuiltInHint::DivRem256),
        builtin_code(BuiltInHint::WPow256) == 0x0A,
        builtin_from_code(0x0A) == Some(BuiltInHint::WPow256),
        builtin_code(BuiltInHint::OMul256) == 0x0B,
        builtin_from_code(0x0B) == Some(BuiltInHint::OMul256),
        builtin_code(BuiltInHint::WMul256) == 0x0C,
        builtin_from_code(0x0C) == Some(BuiltInHint::WMul256),
        builtin_code(BuiltInHint::ModExp) == 0x0D,
        builtin_from_code(0x0D) == Some(BuiltInHint::ModExp),
        builtin_code(BuiltInHint::Bn254IsOnCurve) == 0x0E,
        builtin_from_code(0x0E) == Some(BuiltInHint::Bn254IsOnCurve),
        builtin_code(BuiltInHint::Bn254ToAffine) == 0x0F,
        builtin_from_code(0x0F) == Some(BuiltInHint::Bn254ToAffine),
        builtin_code(BuiltInHint::Bn254Add) == 0x10,
        builtin_from_code(0x10) == Some(BuiltInHint::Bn254Add),
        builtin_code(BuiltInHint::Bn254Mul) == 0x11,
        builtin_from_code(0x11) == Some(BuiltInHint::Bn254Mul),
        builtin_code(BuiltInHint::Bn254ToAffineTwist) == 0x12,
        builtin_from_code(0x12) == Some(BuiltInHint::Bn254ToAffineTwist),
        builtin_code(BuiltInHint::Bn254IsOnCurveTwist) == 0x13,
        builtin_from_code(0x13) == Some(BuiltInHint::Bn254IsOnCurveTwist),
        builtin_code(BuiltInHint::Bn254IsOnSubgroupTwist) == 0x14,
        builtin_from_code(0x14) == Some(BuiltInHint::Bn254IsOnSubgroupTwist),
        builtin_code(BuiltInHint::Bn254PairingBatch) == 0x15,
        builtin_from_code(0x15) == Some(BuiltInHint::Bn254PairingBatch),
        builtin_code(BuiltInHint::Bls12_381MulFp12) == 0x16,
        builtin_from_code(0x16) == Some(BuiltInHint::Bls12_381MulFp12),
        builtin_code(BuiltInHint::Bls12_381Decompress) == 0x17,
        builtin_from_code(0x17) == Some(BuiltInHint::Bls12_381Decompress),
        builtin_code(BuiltInHint::Bls12_381IsOnCurve) == 0x18,
        builtin_from_code(0x18) == Some(BuiltInHint::Bls12_381IsOnCurve),
        builtin_code(BuiltInHint::Bls12_381IsOnSubgroup) == 0x19,
        builtin_from_code(0x19) == Some(BuiltInHint::Bls12_381IsOnSubgroup),
        builtin_code(BuiltInHint::Bls12_381Add) == 0x1A,
        builtin_from_code(0x1A) == Some(BuiltInHint::Bls12_381Add),
        builtin_code(BuiltInHint::Bls12_381ScalarMul) == 0x1B,
        builtin_from_code(0x1B) == Some(BuiltInHint::Bls12_381ScalarMul),
        builtin_code(BuiltInHint::Bls12_381DecompressTwist) == 0x1C,
        builtin_from_code(0x1C) == Some(BuiltInHint::Bls12_381DecompressTwist),
        builtin_code(BuiltInHint::Bls12_381IsOnCurveTwist) == 0x1D,
        builtin_from_code(0x1D) == Some(BuiltInHint::Bls12_381IsOnCurveTwist),
        builtin_code(BuiltInHint::Bls12_381IsOnSubgroupTwist) == 0x1E,
        builtin_from_code(0x1E) == Some(BuiltInHint::Bls12_381IsOnSubgroupTwist),
        builtin_code(BuiltInHint::Bls12_381AddTwist) == 0x1F,
        builtin_from_code(0x1F) == Some(BuiltInHint::Bls12_381AddTwist),
        builtin_code(BuiltInHint::Bls12_381ScalarMulTwist) == 0x20,
        builtin_from_code(0x20) == Some(BuiltInHint::Bls12_381ScalarMulTwist),
        builtin_code(BuiltInHint::Bls12_381MillerLoop) == 0x21,
        builtin_from_code(0x21) == Some(BuiltInHint::Bls12_381MillerLoop),
        builtin_code(BuiltInHint::Bls12_381FinalExp) == 0x22,
        builtin_from_code(0x22) == Some(BuiltInHint::Bls12_381FinalExp),
{
}

/// A decoded hint code has exactly the value it was decoded from.
pub proof fn lemma_decoded_hint_code_value(v: u32)
    ensures
        hint_code_from_value(v) matches Some(h) ==> hint_code_value(h) == v && !(h is Custom),
{
}

/// Distinct known hint codes have distinct values.
pub proof fn lemma_hint_code_value_injective(h1: HintCode, h2: HintCode)
    requires
        !(h1 is Custom),
        !(h2 is Custom),
        hint_code_value(h1) == hint_code_value(h2),
    ensures
        h1 == h2,
{
    lemma_hint_code_round_trip(h1);
    lemma_hint_code_round_trip(h2);
}

impl CtrlHint {
    /// Decodes a control code.
    pub fn try_from(value: u32) -> (r: Result<CtrlHint, HintError>)
        ensures
            r == (match ctrl_from_code(value) {
                Some(c) => Ok(c),
                None => Err(HintError::InvalidControlCode(value)),
            }),
    {
        if value == CTRL_START {
            Ok(CtrlHint::Start)
        } else if value == CTRL_END {
            Ok(CtrlHint::End)
        } else if value == CTRL_CANCEL {
            Ok(CtrlHint::Cancel)
        } else if value == CTRL_ERROR {
            Ok(CtrlHint::Error)
        } else {
            Err(HintError::InvalidControlCode(value))
        }
    }

    /// The 32-bit code of this control hint.
    pub fn code(self) -> (r: u32)
        ensures
            r == ctrl_code(self),
    {
        match self {
            CtrlHint::Start => CTRL_START,
            CtrlHint::End => CTRL_END,
            CtrlHint::Cancel => CTRL_CANCEL,
            CtrlHint::Error => CTRL_ERROR,
        }
    }
}

impl BuiltInHint {
    /// Decodes a built-in hint code.
    pub fn try_from(value: u32) -> (r: Result<BuiltInHint, HintError>)
        ensures
            r == (match builtin_from_code(value) {
                Some(b) => Ok(b),
                None => Err(HintError::InvalidBuiltInCode(value)),
            }),
    {
        if value == HINT_NOOP {
            Ok(BuiltInHint::Noop)
        } else if value == HINT_ECRECOVER {
            Ok(BuiltInHint::EcRecover)
        } else if value == HINT_SECP256K1_FN_REDUCE {
            Ok(BuiltInHint::Secp256K1FnReduce)
        } else if value == HINT_SECP256K1_FN_ADD {
            Ok(BuiltInHint::Secp256K1FnAdd)
        } else if value == HINT_SECP256K1_FN_NEG {
            Ok(BuiltInHint::Secp256K1FnNeg)
        } else if value == HINT_SECP256K1_FN_SUB {
            Ok(BuiltInHint::Secp256K1FnSub)
        } else if value == HINT_SECP256K1_FN_MUL {
            Ok(BuiltInHint::Secp256K1FnMul)
        } else if value == HINT_SECP256K1_FN_INV {
            Ok(BuiltInHint::Secp256K1FnInv)
        } else if value == HINT_SECP256K1_FP_REDUCE {
            Ok(BuiltInHint::Secp256K1FpReduce)
        } else if value == HINT_SECP256K1_FP_ADD {
            Ok(BuiltInHint::Secp256K1FpAdd)
        } else if value == HINT_SECP256K1_FP_NEGATE {
            Ok(BuiltInHint::Secp256K1FpNegate)
        } else if value == HINT_SECP256K1_FP_MUL {
            Ok(BuiltInHint::Secp256K1FpMul)
        } else if value == HINT_SECP256K1_FP_MUL_SCALAR {
            Ok(BuiltInHint::Secp256K1FpMulScalar)
        } else if value == HINT_SECP256K1_TO_AFFINE {
            Ok(BuiltInHint::Secp256K1ToAffine)
        } else if value == HINT_SECP256K1_DECOMPRESS {
            Ok(BuiltInHint::Secp256K1Decompress)
        } else if value == HINT_SECP256K1_DOUBLE_SCALAR_MUL_WITH_G {
            Ok(BuiltInHint::Secp256K1DoubleScalarMulWithG)
        } else if value == HINT_SECP256K1_ECDSA_VERIFY {
            Ok(BuiltInHint::Secp256K1EcdsaVerify)
        } else if value == HINT_REDMOD256 {
            Ok(BuiltInHint::RedMod256)
        } else if value == HINT_ADDMOD256 {
            Ok(BuiltInHint::AddMod256)
        } else if value == HINT_MULMOD256 {
            Ok(BuiltInHint::MulMod256)
        } else if value == HINT_DIVREM256 {
            Ok(BuiltInHint::DivRem256)
        } else if value == HINT_WPOW256 {
            Ok(BuiltInHint::WPow256)
        } else if value == HINT_OMUL256 {
            Ok(BuiltInHint::OMul256)
        } else if value == HINT_WMUL256 {
            Ok(BuiltInHint::WMul256)
        } else if value == HINT_MODEXP {
            Ok(BuiltInHint::ModExp)
        } else if value == HINT_BN254_IS_ON_CURVE {
            Ok(BuiltInHint::Bn254IsOnCurve)
        } else if value == HINT_BN254_TO_AFFINE {
            Ok(BuiltInHint::Bn254ToAffine)
        } else if value == HINT_BN254_ADD {
            Ok(BuiltInHint::Bn254Add)
        } else if value == HINT_BN254_MUL {
            Ok(BuiltInHint::Bn254Mul)
        } else if value == HINT_BN254_TO_AFFINE_TWIST {
            Ok(BuiltInHint::Bn254ToAffineTwist)
        } else if value == HINT_BN254_IS_ON_CURVE_TWIST {
            Ok(BuiltInHint::Bn254IsOnCurveTwist)
        } else if value == HINT_BN254_IS_ON_SUBGROUP_TWIST {
            Ok(BuiltInHint::Bn254IsOnSubgroupTwist)
        } else if value == HINT_BN254_PAIRING_BATCH {
            Ok(BuiltInHint::Bn254PairingBatch)
        } else if value == HINT_BLS12_381_MUL_FP12 {
            Ok(BuiltInHint::Bls12_381MulFp12)
        } else if value == HINT_BLS12_381_DECOMPRESS {
            Ok(BuiltInHint::Bls12_381Decompress)
        } else if value == HINT_BLS12_381_IS_ON_CURVE {
            Ok(BuiltInHint::Bls12_381IsOnCurve)
        } else if value == HINT_BLS12_381_IS_ON_SUBGROUP {
            Ok(BuiltInHint::Bls12_381IsOnSubgroup)
        } else if value == HINT_BLS12_381_ADD {
            Ok(BuiltInHint::Bls12_381Add)
        } else if value == HINT_BLS12_381_SCALAR_MUL {
            Ok(BuiltInHint::Bls12_381ScalarMul)
        } else if value == HINT_BLS12_381_DECOMPRESS_TWIST {
            Ok(BuiltInHint::Bls12_381DecompressTwist)
        } else if value == HINT_BLS12_381_IS_ON_CURVE_TWIST {
            Ok(BuiltInHint::Bls12_381IsOnCurveTwist)
        } else if value == HINT_BLS12_381_IS_ON_SUBGROUP_TWIST {
            Ok(BuiltInHint::Bls12_381IsOnSubgroupTwist)
        } else if value == HINT_BLS12_381_ADD_TWIST {
            Ok(BuiltInHint::Bls12_381AddTwist)
        } else if value == HINT_BLS12_381_SCALAR_MUL_TWIST {
            Ok(BuiltInHint::Bls12_381ScalarMulTwist)
        } else if value == HINT_BLS12_381_MILLER_LOOP {
            Ok(BuiltInHint::Bls12_381MillerLoop)
        } else if value == HINT_BLS12_381_FINAL_EXP {
            Ok(BuiltInHint::Bls12_381FinalExp)
        } else {
            Err(HintError::InvalidBuiltInCode(value))
        }
    }

    /// The 32-bit code of this built-in hint.
    pub fn code(self) -> (r: u32)
        ensures
            r == builtin_code(self),
    {
        match self {
            BuiltInHint::Noop => HINT_NOOP,
            BuiltInHint::EcRecover => HINT_ECRECOVER,
            BuiltInHint::Secp256K1FnReduce => HINT_SECP256K1_FN_REDUCE,
            BuiltInHint::Secp256K1FnAdd => HINT_SECP256K1_FN_ADD,
            BuiltInHint::Secp256K1FnNeg => HINT_SECP256K1_FN_NEG,
            BuiltInHint::Secp256K1FnSub => HINT_SECP256K1_FN_SUB,
            BuiltInHint::Secp256K1FnMul => HINT_SECP256K1_FN_MUL,
            BuiltInHint::Secp256K1FnInv => HINT_SECP256K1_FN_INV,
            BuiltInHint::Secp256K1FpReduce => HINT_SECP256K1_FP_REDUCE,
            BuiltInHint::Secp256K1FpAdd => HINT_SECP256K1_FP_ADD,
            BuiltInHint::Secp256K1FpNegate => HINT_SECP256K1_FP_NEGATE,
            BuiltInHint::Secp256K1FpMul => HINT_SECP256K1_FP_MUL,
            BuiltInHint::Secp256K1FpMulScalar => HINT_SECP256K1_FP_MUL_SCALAR,
            BuiltInHint::Secp256K1ToAffine => HINT_SECP256K1_TO_AFFINE,
            BuiltInHint::Secp256K1Decompress => HINT_SECP256K1_DECOMPRESS,
            BuiltInHint::Secp256K1DoubleScalarMulWithG => HINT_SECP256K1_DOUBLE_SCALAR_MUL_WITH_G,
            BuiltInHint::Secp256K1EcdsaVerify => HINT_SECP256K1_ECDSA_VERIFY,
            BuiltInHint::RedMod256 => HINT_REDMOD256,
            BuiltInHint::AddMod256 => HINT_ADDMOD256,
            BuiltInHint::MulMod256 => HINT_MULMOD256,
            BuiltInHint::DivRem256 => HINT_DIVREM256,
            BuiltInHint::WPow256 => HINT_WPOW256,
            BuiltInHint::OMul256 => HINT_OMUL256,
            BuiltInHint::WMul256 => HINT_WMUL256,
            BuiltInHint::ModExp => HINT_MODEXP,
            BuiltInHint::Bn254IsOnCurve => HINT_BN254_IS_ON_CURVE,
            BuiltInHint::Bn254ToAffine => HINT_BN254_TO_AFFINE,
            BuiltInHint::Bn254Add => HINT_BN254_ADD,
            BuiltInHint::Bn254Mul => HINT_BN254_MUL,
            BuiltInHint::Bn254ToAffineTwist => HINT_BN254_TO_AFFINE_TWIST,
            BuiltInHint::Bn254IsOnCurveTwist => HINT_BN254_IS_ON_CURVE_TWIST,
            BuiltInHint::Bn254IsOnSubgroupTwist => HINT_BN254_IS_ON_SUBGROUP_TWIST,
            BuiltInHint::Bn254PairingBatch => HINT_BN254_PAIRING_BATCH,
            BuiltInHint::Bls12_381MulFp12 => HINT_BLS12_381_MUL_FP12,
            BuiltInHint::Bls12_381Decompress => HINT_BLS12_381_DECOMPRESS,
            BuiltInHint::Bls12_381IsOnCurve => HINT_BLS12_381_IS_ON_CURVE,
            BuiltInHint::Bls12_381IsOnSubgroup => HINT_BLS12_381_IS_ON_SUBGROUP,
            BuiltInHint::Bls12_381Add => HINT_BLS12_381_ADD,
            BuiltInHint::Bls12_381ScalarMul => HINT_BLS12_381_SCALAR_MUL,
            BuiltInHint::Bls12_381DecompressTwist => HINT_BLS12_381_DECOMPRESS_TWIST,
            BuiltInHint::Bls12_381IsOnCurveTwist => HINT_BLS12_381_IS_ON_CURVE_TWIST,
            BuiltInHint::Bls12_381IsOnSubgroupTwist => HINT_BLS12_381_IS_ON_SUBGROUP_TWIST,
            BuiltInHint::Bls12_381AddTwist => HINT_BLS12_381_ADD_TWIST,
            BuiltInHint::Bls12_381ScalarMulTwist => HINT_BLS12_381_SCALAR_MUL_TWIST,
            BuiltInHint::Bls12_381MillerLoop => HINT_BLS12_381_MILLER_LOOP,
            BuiltInHint::Bls12_381FinalExp => HINT_BLS12_381_FINAL_EXP,
        }
    }
}

impl HintCode {
    /// Decodes a known hint code: control codes first, then built-in hint codes.
    /// Custom codes are never produced here.
    pub fn try_from(value: u32) -> (r: Result<HintCode, HintError>)
        ensures
            r == (match hint_code_from_value(value) {
                Some(h) => Ok(h),
                None => Err(HintError::UnknownHintCode(value)),
            }),
    {
        if let Ok(ctrl) = CtrlHint::try_from(value) {
            return Ok(HintCode::Ctrl(ctrl));
        }
        if let Ok(builtin) = BuiltInHint::try_from(value) {
            return Ok(HintCode::BuiltIn(builtin));
        }
        Err(HintError::UnknownHintCode(value))
    }

    /// Converts a hint code to its `u32` value.
    pub fn to_u32(self) -> (r: u32)
        ensures
            r == hint_code_value(self),
    {
        match self {
            HintCode::Ctrl(CtrlHint::Start) => CTRL_START,
            HintCode::Ctrl(CtrlHint::End) => CTRL_END,
            HintCode::Ctrl(CtrlHint::Cancel) => CTRL_CANCEL,
            HintCode::Ctrl(CtrlHint::Error) => CTRL_ERROR,
            HintCode::BuiltIn(BuiltInHint::Noop) => HINT_NOOP,
            HintCode::BuiltIn(BuiltInHint::EcRecover) => HINT_ECRECOVER,
            HintCode::BuiltIn(BuiltInHint::Secp256K1FnReduce) => HINT_SECP256K1_FN_REDUCE,
            HintCode::BuiltIn(BuiltInHint::Secp256K1FnAdd) => HINT_SECP256K1_FN_ADD,
            HintCode::BuiltIn(BuiltInHint::Secp256K1FnNeg) => HINT_SECP256K1_FN_NEG,
            HintCode::BuiltIn(BuiltInHint::Secp256K1FnSub) => HINT_SECP256K1_FN_SUB,
            HintCode::BuiltIn(BuiltInHint::Secp256K1FnMul) => HINT_SECP256K1_FN_MUL,
            HintCode::BuiltIn(BuiltInHint::Secp256K1FnInv) => HINT_SECP256K1_FN_INV,
            HintCode::BuiltIn(BuiltInHint::Secp256K1FpReduce) => HINT_SECP256K1_FP_REDUCE,
            HintCode::BuiltIn(BuiltInHint::Secp256K1FpAdd) => HINT_SECP256K1_FP_ADD,
            HintCode::BuiltIn(BuiltInHint::Secp256K1FpNegate) => HINT_SECP256K1_FP_NEGATE,
            HintCode::BuiltIn(BuiltInHint::Secp256K1FpMul) => HINT_SECP256K1_FP_MUL,
            HintCode::BuiltIn(BuiltInHint::Secp256K1FpMulScalar) => HINT_SECP256K1_FP_MUL_SCALAR,
            HintCode::BuiltIn(BuiltInHint::Secp256K1ToAffine) => HINT_SECP256K1_TO_AFFINE,
            HintCode::BuiltIn(BuiltInHint::Secp256K1Decompress) => HINT_SECP256K1_DECOMPRESS,
            HintCode::BuiltIn(BuiltInHint::Secp256K1DoubleScalarMulWithG) => HINT_SECP256K1_DOUBLE_SCALAR_MUL_WITH_G,
            HintCode::BuiltIn(BuiltInHint::Secp256K1EcdsaVerify) => HINT_SECP256K1_ECDSA_VERIFY,
            HintCode::BuiltIn(BuiltInHint::RedMod256) => HINT_REDMOD256,
            HintCode::BuiltIn(BuiltInHint::AddMod256) => HINT_ADDMOD256,
            HintCode::BuiltIn(BuiltInHint::MulMod256) => HINT_MULMOD256,
            HintCode::BuiltIn(BuiltInHint::DivRem256) => HINT_DIVREM256,
            HintCode::BuiltIn(BuiltInHint::WPow256) => HINT_WPOW256,
            HintCode::BuiltIn(BuiltInHint::OMul256) => HINT_OMUL256,
            HintCode::BuiltIn(BuiltInHint::WMul256) => HINT_WMUL256,
            HintCode::BuiltIn(BuiltInHint::ModExp) => HINT_MODEXP,
            HintCode::BuiltIn(BuiltInHint::Bn254IsOnCurve) => HINT_BN254_IS_ON_CURVE,
            HintCode::BuiltIn(BuiltInHint::Bn254ToAffine) => HINT_BN254_TO_AFFINE,
            HintCode::BuiltIn(BuiltInHint::Bn254Add) => HINT_BN254_ADD,
            HintCode::BuiltIn(BuiltInHint::Bn254Mul) => HINT_BN254_MUL,
            HintCode::BuiltIn(BuiltInHint::Bn254ToAffineTwist) => HINT_BN254_TO_AFFINE_TWIST,
            HintCode::BuiltIn(BuiltInHint::Bn254IsOnCurveTwist) => HINT_BN254_IS_ON_CURVE_TWIST,
            HintCode::BuiltIn(BuiltInHint::Bn254IsOnSubgroupTwist) => HINT_BN254_IS_ON_SUBGROUP_TWIST,
            HintCode::BuiltIn(BuiltInHint::Bn254PairingBatch) => HINT_BN254_PAIRING_BATCH,
            HintCode::BuiltIn(BuiltInHint::Bls12_381MulFp12) => HINT_BLS12_381_MUL_FP12,
            HintCode::BuiltIn(BuiltInHint::Bls12_381Decompress) => HINT_BLS12_381_DECOMPRESS,
            HintCode::BuiltIn(BuiltInHint::Bls12_381IsOnCurve) => HINT_BLS12_381_IS_ON_CURVE,
            HintCode::BuiltIn(BuiltInHint::Bls12_381IsOnSubgroup) => HINT_BLS12_381_IS_ON_SUBGROUP,
            HintCode::BuiltIn(BuiltInHint::Bls12_381Add) => HINT_BLS12_381_ADD,
            HintCode::BuiltIn(BuiltInHint::Bls12_381ScalarMul) => HINT_BLS12_381_SCALAR_MUL,
            HintCode::BuiltIn(BuiltInHint::Bls12_381DecompressTwist) => HINT_BLS12_381_DECOMPRESS_TWIST,
            HintCode::BuiltIn(BuiltInHint::Bls12_381IsOnCurveTwist) => HINT_BLS12_381_IS_ON_CURVE_TWIST,
            HintCode::BuiltIn(BuiltInHint::Bls12_381IsOnSubgroupTwist) => HINT_BLS12_381_IS_ON_SUBGROUP_TWIST,
            HintCode::BuiltIn(BuiltInHint::Bls12_381AddTwist) => HINT_BLS12_381_ADD_TWIST,
            HintCode::BuiltIn(BuiltInHint::Bls12_381ScalarMulTwist) => HINT_BLS12_381_SCALAR_MUL_TWIST,
            HintCode::BuiltIn(BuiltInHint::Bls12_381MillerLoop) => HINT_BLS12_381_MILLER_LOOP,
            HintCode::BuiltIn(BuiltInHint::Bls12_381FinalExp) => HINT_BLS12_381_FINAL_EXP,
            HintCode::Custom(code) => code,
        }
    }
}

} // verus!
