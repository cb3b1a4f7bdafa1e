//! Errors reported by the hint stream logic.

use vstd::prelude::*;

verus! {

/// The hint whose payload a length error is about, as the error message names it.
#[derive(Debug, Clone, Copy, PartialEq, Eq, Structural)]
pub enum HintName {
    /// `SECP256K1_FN_REDUCE`.
    Secp256k1FnReduce,
    /// `SECP256K1_FN_ADD`.
    Secp256k1FnAdd,
    /// `SECP256K1_FN_NEG`.
    Secp256k1FnNeg,
    /// `SECP256K1_FN_SUB`.
    Secp256k1FnSub,
    /// `SECP256K1_FN_MUL`.
    Secp256k1FnMul,
    /// `SECP256K1_FN_INV`.
    Secp256k1FnInv,
    /// `SECP256K1_FP_REDUCE`.
    Secp256k1FpReduce,
    /// `SECP256K1_FP_ADD`.
    Secp256k1FpAdd,
    /// `SECP256K1_FP_NEGATE`.
    Secp256k1FpNegate,
    /// `SECP256K1_FP_MUL`.
    Secp256k1FpMul,
    /// `SECP256K1_FP_MUL_SCALAR`.
    Secp256k1FpMulScalar,
    /// `SECP256K1_TO_AFFINE`.
    Secp256k1ToAffine,
    /// `SECP256K1_DECOMPRESS`.
    Secp256k1Decompress,
    /// `SECP256K1_DOUBLE_SCALAR_MUL_WITH_G`.
    Secp256k1DoubleScalarMulWithG,
    /// `SECP256K1_ECDSA_VERIFY`.
    Secp256k1EcdsaVerify,
    /// `IS_ON_CURVE_BN254`.
    IsOnCurveBn254,
    /// `TO_AFFINE_BN254`.
    ToAffineBn254,
    /// `ADD_BN254`.
    AddBn254,
    /// `MUL_BN254`.
    MulBn254,
    /// `TO_AFFINE_TWIST_BN254`.
    ToAffineTwistBn254,
    /// `IS_ON_CURVE_TWIST_BN254`.
    IsOnCurveTwistBn254,
    /// `IS_ON_SUBGROUP_TWIST_BN254`.
    IsOnSubgroupTwistBn254,
    /// `ECRECOVER`.
    Ecrecover,
    /// `REDMOD256`.
    Redmod256,
    /// `ADDMOD256`.
    Addmod256,
    /// `MULMOD256`.
    Mulmod256,
    /// `DIVREM256`.
    Divrem256,
    /// `WPOW256`.
    Wpow256,
    /// `OMUL256`.
    Omul256,
    /// `WMUL256`.
    Wmul256,
    /// `MODEXP`.
    Modexp,
    /// `HINT_BN254_G1_ADD`.
    HintBn254G1Add,
    /// `HINT_BN254_G1_MUL`.
    HintBn254G1Mul,
    /// `PAIRING_BATCH_BN254`.
    PairingBatchBn254,
}

/// Errors of hint decoding, hint stream control and hint payload validation.
#[derive(Debug, Clone, Copy, PartialEq, Eq, Structural)]
pub enum HintError {
    /// The value is not a control code.
    InvalidControlCode(u32),
    /// The value is not a built-in hint code.
    InvalidBuiltInCode(u32),
    /// The value is neither a control code nor a built-in hint code.
    UnknownHintCode(u32),
    /// The slice is empty or the header index lies outside of it.
    IndexOutOfBounds,
    /// The header announces more data words than the slice holds after it.
    TruncatedHint { length: u32, available: usize },
    /// The hint type is outside the range that the stream accepts.
    InvalidHintType(u32),
    /// A start control code arrived in a batch that is not the first one.
    StartNotInFirstBatch,
    /// A start control code arrived at a position other than the first one.
    StartNotFirst { index: usize },
    /// Hint words remain after an end control code.
    EndNotLast { remaining: usize },
    /// A hint arrived after an end control code.
    HintAfterEnd { hint_type: u32, index: usize },
    /// The stream was cancelled by a cancel control code.
    StreamCancelled,
    /// The producer signalled an error with an error control code.
    StreamErrorSignalled,
    /// Processing stopped because an earlier hint failed.
    StoppedByPreviousError,
    /// A control code was handed to a hint handler.
    ControlCodeDispatched(u32),
    /// The hint type has no handler.
    UnknownHintType(u32),
    /// The payload of a hint does not have the exact expected length.
    InvalidHintLength { hint: HintName, expected: u128, got: usize },
    /// The hint payload is shorter than the minimum length.
    HintTooShort { hint: HintName, min: u128, got: usize },
    /// The hint payload is empty.
    EmptyHint,
    /// The payload of a modular exponentiation hint is empty.
    ModexpEmpty,
    /// The payload of a BN254 pairing batch hint is empty.
    PairingBatchEmpty,
    /// A length-prefixed field runs past the end of the payload.
    TruncatedField,
    /// The payload ends before the word that follows the base of a modular exponentiation.
    ModexpBaseTooShort { expected: u128 },
    /// The payload ends before the word that follows the exponent of a modular exponentiation.
    ModexpExponentTooShort { expected: u128 },
}

} // verus!
