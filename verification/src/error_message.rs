//! The messages of the hint errors, as the processors report them.

use crate::error::{HintError, HintName};
use crate::hint_names::{append_hex, hex_char, hex_digit_str, hex_string};
use vstd::prelude::*;

verus! {

/// The decimal digits of `v`, most significant first, with no leading zero (one digit for 0).
pub open spec fn decimal_digits(v: nat) -> Seq<char>
    decreases v,
{
    if v < 10 {
        seq![hex_char(v)]
    } else {
        decimal_digits(v / 10).push(hex_char(v % 10))
    }
}

/// Appends the decimal digits of `v` to `s`.
pub fn append_decimal(s: &mut String, v: u128)
    ensures
        final(s)@ == old(s)@ + decimal_digits(v as nat),
    decreases v,
{
    if v >= 10 {
        append_decimal(s, v / 10);
    }
    s.append(hex_digit_str((v % 10) as u32));
    proof {
        if v >= 10 {
            assert(final(s)@ =~= old(s)@ + decimal_digits(v as nat));
        }
    }
}

/// `a` followed by `v` in decimal.
fn with_decimal(a: &str, v: u128) -> (r: String)
    ensures
        r@ == a@ + decimal_digits(v as nat),
{
    let mut s = a.to_owned();
    append_decimal(&mut s, v);
    s
}

/// `a`, `v` in decimal, then `b`.
fn decimal_between(a: &str, v: u128, b: &str) -> (r: String)
    ensures
        r@ == a@ + decimal_digits(v as nat) + b@,
{
    let mut s = with_decimal(a, v);
    s.append(b);
    s
}

/// `a`, `v` in decimal, `b`, then `w` in decimal.
fn two_decimals(a: &str, v: u128, b: &str, w: u128) -> (r: String)
    ensures
        r@ == a@ + decimal_digits(v as nat) + b@ + decimal_digits(w as nat),
{
    let mut s = decimal_between(a, v, b);
    append_decimal(&mut s, w);
    s
}

/// `a` followed by `v` in hexadecimal with the `0x` prefix.
fn with_hex(a: &str, v: u32) -> (r: String)
    ensures
        r@ == a@ + hex_string(v as nat),
{
    let mut s = a.to_owned();
    append_hex(&mut s, v);
    s
}

/// The name of a hint, as the length errors give it.
pub open spec fn hint_name_str(h: HintName) -> Seq<char> {
    match h {
        HintName::Secp256k1FnReduce => "SECP256K1_FN_REDUCE"@,
        HintName::Secp256k1FnAdd => "SECP256K1_FN_ADD"@,
        HintName::Secp256k1FnNeg => "SECP256K1_FN_NEG"@,
        HintName::Secp256k1FnSub => "SECP256K1_FN_SUB"@,
        HintName::Secp256k1FnMul => "SECP256K1_FN_MUL"@,
        HintName::Secp256k1FnInv => "SECP256K1_FN_INV"@,
        HintName::Secp256k1FpReduce => "SECP256K1_FP_REDUCE"@,
        HintName::Secp256k1FpAdd => "SECP256K1_FP_ADD"@,
        HintName::Secp256k1FpNegate => "SECP256K1_FP_NEGATE"@,
        HintName::Secp256k1FpMul => "SECP256K1_FP_MUL"@,
        HintName::Secp256k1FpMulScalar => "SECP256K1_FP_MUL_SCALAR"@,
        HintName::Secp256k1ToAffine => "SECP256K1_TO_AFFINE"@,
        HintName::Secp256k1Decompress => "SECP256K1_DECOMPRESS"@,
        HintName::Secp256k1DoubleScalarMulWithG => "SECP256K1_DOUBLE_SCALAR_MUL_WITH_G"@,
        HintName::Secp256k1EcdsaVerify => "SECP256K1_ECDSA_VERIFY"@,
        HintName::IsOnCurveBn254 => "IS_ON_CURVE_BN254"@,
        HintName::ToAffineBn254 => "TO_AFFINE_BN254"@,
        HintName::AddBn254 => "ADD_BN254"@,
        HintName::MulBn254 => "MUL_BN254"@,
        HintName::ToAffineTwistBn254 => "TO_AFFINE_TWIST_BN254"@,
        HintName::IsOnCurveTwistBn254 => "IS_ON_CURVE_TWIST_BN254"@,
        HintName::IsOnSubgroupTwistBn254 => "IS_ON_SUBGROUP_TWIST_BN254"@,
        HintName::Ecrecover => "ECRECOVER"@,
        HintName::Redmod256 => "REDMOD256"@,
        HintName::Addmod256 => "ADDMOD256"@,
        HintName::Mulmod256 => "MULMOD256"@,
        HintName::Divrem256 => "DIVREM256"@,
        HintName::Wpow256 => "WPOW256"@,
        HintName::Omul256 => "OMUL256"@,
        HintName::Wmul256 => "WMUL256"@,
        HintName::Modexp => "MODEXP"@,
        HintName::HintBn254G1Add => "HINT_BN254_G1_ADD"@,
        HintName::HintBn254G1Mul => "HINT_BN254_G1_MUL"@,
        HintName::PairingBatchBn254 => "PAIRING_BATCH_BN254"@,
    }
}

impl HintName {
    /// The name of the hint (see [`hint_name_str`]).
    pub fn name(self) -> (r: &'static str)
        ensures
            r@ == hint_name_str(self),
    {
        match self {
            HintName::Secp256k1FnReduce => "SECP256K1_FN_REDUCE",
            HintName::Secp256k1FnAdd => "SECP256K1_FN_ADD",
            HintName::Secp256k1FnNeg => "SECP256K1_FN_NEG",
            HintName::Secp256k1FnSub => "SECP256K1_FN_SUB",
            HintName::Secp256k1FnMul => "SECP256K1_FN_MUL",
            HintName::Secp256k1FnInv => "SECP256K1_FN_INV",
            HintName::Secp256k1FpReduce => "SECP256K1_FP_REDUCE",
            HintName::Secp256k1FpAdd => "SECP256K1_FP_ADD",
            HintName::Secp256k1FpNegate => "SECP256K1_FP_NEGATE",
            HintName::Secp256k1FpMul => "SECP256K1_FP_MUL",
            HintName::Secp256k1FpMulScalar => "SECP256K1_FP_MUL_SCALAR",
            HintName::Secp256k1ToAffine => "SECP256K1_TO_AFFINE",
            HintName::Secp256k1Decompress => "SECP256K1_DECOMPRESS",
            HintName::Secp256k1DoubleScalarMulWithG => "SECP256K1_DOUBLE_SCALAR_MUL_WITH_G",
            HintName::Secp256k1EcdsaVerify => "SECP256K1_ECDSA_VERIFY",
            HintName::IsOnCurveBn254 => "IS_ON_CURVE_BN254",
            HintName::ToAffineBn254 => "TO_AFFINE_BN254",
            HintName::AddBn254 => "ADD_BN254",
            HintName::MulBn254 => "MUL_BN254",
            HintName::ToAffineTwistBn254 => "TO_AFFINE_TWIST_BN254",
            HintName::IsOnCurveTwistBn254 => "IS_ON_CURVE_TWIST_BN254",
            HintName::IsOnSubgroupTwistBn254 => "IS_ON_SUBGROUP_TWIST_BN254",
            HintName::Ecrecover => "ECRECOVER",
            HintName::Redmod256 => "REDMOD256",
            HintName::Addmod256 => "ADDMOD256",
            HintName::Mulmod256 => "MULMOD256",
            HintName::Divrem256 => "DIVREM256",
            HintName::Wpow256 => "WPOW256",
            HintName::Omul256 => "OMUL256",
            HintName::Wmul256 => "WMUL256",
            HintName::Modexp => "MODEXP",
            HintName::HintBn254G1Add => "HINT_BN254_G1_ADD",
            HintName::HintBn254G1Mul => "HINT_BN254_G1_MUL",
            HintName::PairingBatchBn254 => "PAIRING_BATCH_BN254",
        }
    }
}

/// `Invalid <name> hint length: expected <qualifier><expected>, got <got>`.
pub open spec fn length_message(hint: HintName, qualifier: Seq<char>, expected: nat, got: nat) -> Seq<char> {
    "Invalid "@ + hint_name_str(hint) + " hint length: expected "@ + qualifier + decimal_digits(expected)
        + ", got "@ + decimal_digits(got)
}

/// The message of a length error of hint `hint`.
fn length_text(hint: HintName, qualifier: &str, expected: u128, got: usize) -> (r: String)
    ensures
        r@ == length_message(hint, qualifier@, expected as nat, got as nat),
{
    let mut s = "Invalid ".to_owned();
    s.append(hint.name());
    s.append(" hint length: expected ");
    s.append(qualifier);
    append_decimal(&mut s, expected);
    s.append(", got ");
    append_decimal(&mut s, got as u128);
    proof {
        assert(s@ =~= length_message(hint, qualifier@, expected as nat, got as nat));
    }
    s
}

/// The message of a hint error.
pub open spec fn error_message(e: HintError) -> Seq<char> {
    match e {
        HintError::InvalidControlCode(v) => "Invalid control code: "@ + hex_string(v as nat),
        HintError::InvalidBuiltInCode(v) => "Invalid built-in hint code: "@ + hex_string(v as nat),
        HintError::UnknownHintCode(v) => "Invalid hint code: "@ + hex_string(v as nat),
        HintError::IndexOutOfBounds => "Slice too short or index out of bounds"@,
        HintError::TruncatedHint { length, available } => "Slice too short for hint data: expected "@
            + decimal_digits(length as nat) + ", got "@ + decimal_digits(available as nat),
        HintError::InvalidHintType(t) => "Invalid hint type: "@ + decimal_digits(t as nat),
        HintError::StartNotInFirstBatch => "CTRL_START can only be sent as the first message in the stream"@,
        HintError::StartNotFirst { index } => "CTRL_START must be the first hint in the batch, but found at index "@
            + decimal_digits(index as nat),
        HintError::EndNotLast { remaining } => "CTRL_END must be the last hint, but "@ + decimal_digits(
            remaining as nat,
        ) + " bytes remain"@,
        HintError::HintAfterEnd { hint_type, index } => "Received hint after CTRL_END: type "@
            + decimal_digits(hint_type as nat) + " at index "@ + decimal_digits(index as nat),
        HintError::StreamCancelled => "Stream cancelled"@,
        HintError::StreamErrorSignalled => "Stream error signalled"@,
        HintError::StoppedByPreviousError => "Processing stopped due to previous error"@,
        HintError::ControlCodeDispatched(v) => "Control code "@ + hex_string(v as nat)
            + " should not be dispatched"@,
        HintError::UnknownHintType(t) => "Unknown hint type: "@ + decimal_digits(t as nat),
        HintError::InvalidHintLength { hint, expected, got } => length_message(hint, ""@, expected as nat, got as nat),
        HintError::HintTooShort { hint, min, got } => length_message(hint, "at least "@, min as nat, got as nat),
        HintError::EmptyHint => "Invalid hint length: 0"@,
        HintError::ModexpEmpty => "MODEXP hint data is empty"@,
        HintError::PairingBatchEmpty => "PAIRING_BATCH_BN254: data is empty"@,
        HintError::TruncatedField => "MODEXP hint data too short"@,
        HintError::ModexpBaseTooShort { expected } => "MODEXP hint data too short for base (expected at least "@
            + decimal_digits(expected as nat) + " elements)"@,
        HintError::ModexpExponentTooShort { expected } => "MODEXP hint data too short for exponent (expected at least "@
            + decimal_digits(expected as nat) + " elements)"@,
    }
}

impl HintError {
    /// The message of the error (see [`error_message`]).
    pub fn message(&self) -> (r: String)
        ensures
            r@ == error_message(*self),
    {
        match *self {
            HintError::InvalidControlCode(v) => with_hex("Invalid control code: ", v),
            HintError::InvalidBuiltInCode(v) => with_hex("Invalid built-in hint code: ", v),
            HintError::UnknownHintCode(v) => with_hex("Invalid hint code: ", v),
            HintError::IndexOutOfBounds => "Slice too short or index out of bounds".to_owned(),
            HintError::TruncatedHint { length, available } => two_decimals(
                "Slice too short for hint data: expected ",
                length as u128,
                ", got ",
                available as u128,
            ),
            HintError::InvalidHintType(t) => with_decimal("Invalid hint type: ", t as u128),
            HintError::StartNotInFirstBatch => "CTRL_START can only be sent as the first message in the stream".to_owned(),
            HintError::StartNotFirst { index } => with_decimal(
                "CTRL_START must be the first hint in the batch, but found at index ",
                index as u128,
            ),
            HintError::EndNotLast { remaining } => decimal_between(
                "CTRL_END must be the last hint, but ",
                remaining as u128,
                " bytes remain",
            ),
            HintError::HintAfterEnd { hint_type, index } => two_decimals(
                "Received hint after CTRL_END: type ",
                hint_type as u128,
                " at index ",
                index as u128,
            ),
            HintError::StreamCancelled => "Stream cancelled".to_owned(),
            HintError::StreamErrorSignalled => "Stream error signalled".to_owned(),
            HintError::StoppedByPreviousError => "Processing stopped due to previous error".to_owned(),
            HintError::ControlCodeDispatched(v) => {
                let mut s = with_hex("Control code ", v);
                s.append(" should not be dispatched");
                s
            },
            HintError::UnknownHintType(t) => with_decimal("Unknown hint type: ", t as u128),
            HintError::InvalidHintLength { hint, expected, got } => length_text(hint, "", expected, got),
            HintError::HintTooShort { hint, min, got } => length_text(hint, "at least ", min, got),
            HintError::EmptyHint => "Invalid hint length: 0".to_owned(),
            HintError::ModexpEmpty => "MODEXP hint data is empty".to_owned(),
            HintError::PairingBatchEmpty => "PAIRING_BATCH_BN254: data is empty".to_owned(),
            HintError::TruncatedField => "MODEXP hint data too short".to_owned(),
            HintError::ModexpBaseTooShort { expected } => decimal_between(
                "MODEXP hint data too short for base (expected at least ",
                expected,
                " elements)",
            ),
            HintError::ModexpExponentTooShort { expected } => decimal_between(
                "MODEXP hint data too short for exponent (expected at least ",
                expected,
                " elements)",
            ),
        }
    }
}

} // verus!
