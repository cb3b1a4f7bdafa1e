//! Display names of the hint codes: the name of the code and its value in hexadecimal,
//! such as `CTRL_END (0x1)`.

use crate::hint_code::{builtin_code, ctrl_code, BuiltInHint, CtrlHint, HintCode};
use vstd::prelude::*;

verus! {

/// The lowercase hexadecimal digit of `d`.
pub open spec fn hex_char(d: nat) -> char {
    if d == 0 { '0' }
    else if d == 1 { '1' }
    else if d == 2 { '2' }
    else if d == 3 { '3' }
    else if d == 4 { '4' }
    else if d == 5 { '5' }
    else if d == 6 { '6' }
    else if d == 7 { '7' }
    else if d == 8 { '8' }
    else if d == 9 { '9' }
    else if d == 10 { 'a' }
    else if d == 11 { 'b' }
    else if d == 12 { 'c' }
    else if d == 13 { 'd' }
    else if d == 14 { 'e' }
    else { 'f' }
}

/// The hexadecimal digits of `v`, most significant first, with no leading zero (one
/// digit for 0).
pub open spec fn hex_digits(v: nat) -> Seq<char>
    decreases v,
{
    if v < 16 {
        seq![hex_char(v)]
    } else {
        hex_digits(v / 16).push(hex_char(v % 16))
    }
}

/// `v` in hexadecimal with the `0x` prefix.
pub open spec fn hex_string(v: nat) -> Seq<char> {
    "0x"@ + hex_digits(v)
}

/// The one-character string of the hexadecimal digit `d`.
pub(crate) fn hex_digit_str(d: u32) -> (r: &'static str)
    requires
        d < 16,
    ensures
        r@ == seq![hex_char(d as nat)],
{
    if d == 0 {
        proof {
            reveal_strlit("0");
        }
        "0"
    } else if d == 1 {
        proof {
            reveal_strlit("1");
        }
        "1"
    } else if d == 2 {
        proof {
            reveal_strlit("2");
        }
        "2"
    } else if d == 3 {
        proof {
            reveal_strlit("3");
        }
        "3"
    } else if d == 4 {
        proof {
            reveal_strlit("4");
        }
        "4"
    } else if d == 5 {
        proof {
            reveal_strlit("5");
        }
        "5"
    } else if d == 6 {
        proof {
            reveal_strlit("6");
        }
        "6"
    } else if d == 7 {
        proof {
            reveal_strlit("7");
        }
        "7"
    } else if d == 8 {
        proof {
            reveal_strlit("8");
        }
        "8"
    } else if d == 9 {
        proof {
            reveal_strlit("9");
        }
        "9"
    } else if d == 10 {
        proof {
            reveal_strlit("a");
        }
        "a"
    } else if d == 11 {
        proof {
            reveal_strlit("b");
        }
        "b"
    } else if d == 12 {
        proof {
            reveal_strlit("c");
        }
        "c"
    } else if d == 13 {
        proof {
            reveal_strlit("d");
        }
        "d"
    } else if d == 14 {
        proof {
            reveal_strlit("e");
        }
        "e"
    } else {
        proof {
            reveal_strlit("f");
        }
        "f"
    }
}

/// Appends the hexadecimal digits of `v` to `s`.
fn append_hex_digits(s: &mut String, v: u32)
    ensures
        final(s)@ == old(s)@ + hex_digits(v as nat),
    decreases v,
{
    if v >= 16 {
        append_hex_digits(s, v / 16);
    }
    s.append(hex_digit_str(v % 16));
    proof {
        if v >= 16 {
            assert(final(s)@ =~= old(s)@ + hex_digits(v as nat));
        }
    }
}

/// Appends `v` in hexadecimal with the `0x` prefix to `s`.
pub fn append_hex(s: &mut String, v: u32)
    ensures
        final(s)@ == old(s)@ + hex_string(v as nat),
{
    s.append("0x");
    append_hex_digits(s, v);
    proof {
        assert(final(s)@ =~= old(s)@ + hex_string(v as nat));
    }
}

/// The name of a control code.
pub open spec fn ctrl_name(c: CtrlHint) -> Seq<char> {
    match c {
        CtrlHint::Start => "CTRL_START"@,
        CtrlHint::End => "CTRL_END"@,
        CtrlHint::Cancel => "CTRL_CANCEL"@,
        CtrlHint::Error => "CTRL_ERROR"@,
    }
}

/// The name of a built-in hint code.
pub open spec fn builtin_name(b: BuiltInHint) -> Seq<char> {
    match b {
        BuiltInHint::Noop => "NOOP"@,
        BuiltInHint::EcRecover => "ECRECOVER"@,
        BuiltInHint::Secp256K1FnReduce => "SECP256K1_FN_REDUCE"@,
        BuiltInHint::Secp256K1FnAdd => "SECP256K1_FN_ADD"@,
        BuiltInHint::Secp256K1FnNeg => "SECP256K1_FN_NEG"@,
        BuiltInHint::Secp256K1FnSub => "SECP256K1_FN_SUB"@,
        BuiltInHint::Secp256K1FnMul => "SECP256K1_FN_MUL"@,
        BuiltInHint::Secp256K1FnInv => "SECP256K1_FN_INV"@,
        BuiltInHint::Secp256K1FpReduce => "SECP256K1_FP_REDUCE"@,
        BuiltInHint::Secp256K1FpAdd => "SECP256K1_FP_ADD"@,
        BuiltInHint::Secp256K1FpNegate => "SECP256K1_FP_NEGATE"@,
        BuiltInHint::Secp256K1FpMul => "SECP256K1_FP_MUL"@,
        BuiltInHint::Secp256K1FpMulScalar => "SECP256K1_FP_MUL_SCALAR"@,
        BuiltInHint::Secp256K1ToAffine => "SECP256K1_TO_AFFINE"@,
        BuiltInHint::Secp256K1Decompress => "SECP256K1_DECOMPRESS"@,
        BuiltInHint::Secp256K1DoubleScalarMulWithG => "SECP256K1_DOUBLE_SCALAR_MUL_WITH_G"@,
        BuiltInHint::Secp256K1EcdsaVerify => "SECP256K1_ECDSA_VERIFY"@,
        BuiltInHint::RedMod256 => "REDMOD256"@,
        BuiltInHint::AddMod256 => "ADDMOD256"@,
        BuiltInHint::MulMod256 => "MULMOD256"@,
        BuiltInHint::DivRem256 => "DIVREM256"@,
        BuiltInHint::WPow256 => "WPOW256"@,
        BuiltInHint::OMul256 => "OMUL256"@,
        BuiltInHint::WMul256 => "WMUL256"@,
        BuiltInHint::ModExp => "MODEXP"@,
        BuiltInHint::Bn254IsOnCurve => "BN254_IS_ON_CURVE"@,
        BuiltInHint::Bn254ToAffine => "BN254_TO_AFFINE"@,
        BuiltInHint::Bn254Add => "BN254_ADD"@,
        BuiltInHint::Bn254Mul => "BN254_MUL"@,
        BuiltInHint::Bn254ToAffineTwist => "BN254_TO_AFFINE_TWIST"@,
        BuiltInHint::Bn254IsOnCurveTwist => "BN254_IS_ON_CURVE_TWIST"@,
        BuiltInHint::Bn254IsOnSubgroupTwist => "BN254_IS_ON_SUBGROUP_TWIST"@,
        BuiltInHint::Bn254PairingBatch => "BN254_PAIRING_BATCH"@,
        BuiltInHint::Bls12_381MulFp12 => "BLS12_381_MUL_FP12"@,
        BuiltInHint::Bls12_381Decompress => "BLS12_381_DECOMPRESS"@,
        BuiltInHint::Bls12_381IsOnCurve => "BLS12_381_IS_ON_CURVE"@,
        BuiltInHint::Bls12_381IsOnSubgroup => "BLS12_381_IS_ON_SUBGROUP"@,
        BuiltInHint::Bls12_381Add => "BLS12_381_ADD"@,
        BuiltInHint::Bls12_381ScalarMul => "BLS12_381_SCALAR_MUL"@,
        BuiltInHint::Bls12_381DecompressTwist => "BLS12_381_DECOMPRESS_TWIST"@,
        BuiltInHint::Bls12_381IsOnCurveTwist => "BLS12_381_IS_ON_CURVE_TWIST"@,
        BuiltInHint::Bls12_381IsOnSubgroupTwist => "BLS12_381_IS_ON_SUBGROUP_TWIST"@,
        BuiltInHint::Bls12_381AddTwist => "BLS12_381_ADD_TWIST"@,
        BuiltInHint::Bls12_381ScalarMulTwist => "BLS12_381_SCALAR_MUL_TWIST"@,
        BuiltInHint::Bls12_381MillerLoop => "BLS12_381_MILLER_LOOP"@,
        BuiltInHint::Bls12_381FinalExp => "BLS12_381_FINAL_EXP"@,
    }
}

/// `name (0xvalue)`.
pub open spec fn named_code(name: Seq<char>, value: u32) -> Seq<char> {
    name + " ("@ + hex_string(value as nat) + ")"@
}

/// How a hint code is displayed: its name and value, or `CUSTOM_HINT_0x..` for a custom
/// code.
pub open spec fn hint_code_display(h: HintCode) -> Seq<char> {
    match h {
        HintCode::Ctrl(c) => named_code(ctrl_name(c), ctrl_code(c)),
        HintCode::BuiltIn(b) => named_code(builtin_name(b), builtin_code(b)),
        HintCode::Custom(v) => "CUSTOM_HINT_"@ + hex_string(v as nat),
    }
}

/// `name (0xvalue)` as a string.
fn display_named(name: &str, value: u32) -> (r: String)
    ensures
        r@ == named_code(name@, value),
{
    let mut s = name.to_owned();
    s.append(" (");
    append_hex(&mut s, value);
    s.append(")");
    proof {
        assert(s@ =~= named_code(name@, value));
    }
    s
}

impl CtrlHint {
    /// The name of the control code.
    pub fn name(self) -> (r: &'static str)
        ensures
            r@ == ctrl_name(self),
    {
        match self {
            CtrlHint::Start => "CTRL_START",
            CtrlHint::End => "CTRL_END",
            CtrlHint::Cancel => "CTRL_CANCEL",
            CtrlHint::Error => "CTRL_ERROR",
        }
    }

    /// The name and value of the control code, as in `CTRL_END (0x1)`.
    pub fn to_display_string(self) -> (r: String)
        ensures
            r@ == named_code(ctrl_name(self), ctrl_code(self)),
    {
        display_named(self.name(), self.code())
    }
}

impl BuiltInHint {
    /// The name of the built-in hint code.
    pub fn name(self) -> (r: &'static str)
        ensures
            r@ == builtin_name(self),
    {
        match self {
            BuiltInHint::Noop => "NOOP",
            BuiltInHint::EcRecover => "ECRECOVER",
            BuiltInHint::Secp256K1FnReduce => "SECP256K1_FN_REDUCE",
            BuiltInHint::Secp256K1FnAdd => "SECP256K1_FN_ADD",
            BuiltInHint::Secp256K1FnNeg => "SECP256K1_FN_NEG",
            BuiltInHint::Secp256K1FnSub => "SECP256K1_FN_SUB",
            BuiltInHint::Secp256K1FnMul => "SECP256K1_FN_MUL",
            BuiltInHint::Secp256K1FnInv => "SECP256K1_FN_INV",
            BuiltInHint::Secp256K1FpReduce => "SECP256K1_FP_REDUCE",
            BuiltInHint::Secp256K1FpAdd => "SECP256K1_FP_ADD",
            BuiltInHint::Secp256K1FpNegate => "SECP256K1_FP_NEGATE",
            BuiltInHint::Secp256K1FpMul => "SECP256K1_FP_MUL",
            BuiltInHint::Secp256K1FpMulScalar => "SECP256K1_FP_MUL_SCALAR",
            BuiltInHint::Secp256K1ToAffine => "SECP256K1_TO_AFFINE",
            BuiltInHint::Secp256K1Decompress => "SECP256K1_DECOMPRESS",
            BuiltInHint::Secp256K1DoubleScalarMulWithG => "SECP256K1_DOUBLE_SCALAR_MUL_WITH_G",
            BuiltInHint::Secp256K1EcdsaVerify => "SECP256K1_ECDSA_VERIFY",
            BuiltInHint::RedMod256 => "REDMOD256",
            BuiltInHint::AddMod256 => "ADDMOD256",
            BuiltInHint::MulMod256 => "MULMOD256",
            BuiltInHint::DivRem256 => "DIVREM256",
            BuiltInHint::WPow256 => "WPOW256",
            BuiltInHint::OMul256 => "OMUL256",
            BuiltInHint::WMul256 => "WMUL256",
            BuiltInHint::ModExp => "MODEXP",
            BuiltInHint::Bn254IsOnCurve => "BN254_IS_ON_CURVE",
            BuiltInHint::Bn254ToAffine => "BN254_TO_AFFINE",
            BuiltInHint::Bn254Add => "BN254_ADD",
            BuiltInHint::Bn254Mul => "BN254_MUL",
            BuiltInHint::Bn254ToAffineTwist => "BN254_TO_AFFINE_TWIST",
            BuiltInHint::Bn254IsOnCurveTwist => "BN254_IS_ON_CURVE_TWIST",
            BuiltInHint::Bn254IsOnSubgroupTwist => "BN254_IS_ON_SUBGROUP_TWIST",
            BuiltInHint::Bn254PairingBatch => "BN254_PAIRING_BATCH",
            BuiltInHint::Bls12_381MulFp12 => "BLS12_381_MUL_FP12",
            BuiltInHint::Bls12_381Decompress => "BLS12_381_DECOMPRESS",
            BuiltInHint::Bls12_381IsOnCurve => "BLS12_381_IS_ON_CURVE",
            BuiltInHint::Bls12_381IsOnSubgroup => "BLS12_381_IS_ON_SUBGROUP",
            BuiltInHint::Bls12_381Add => "BLS12_381_ADD",
            BuiltInHint::Bls12_381ScalarMul => "BLS12_381_SCALAR_MUL",
            BuiltInHint::Bls12_381DecompressTwist => "BLS12_381_DECOMPRESS_TWIST",
            BuiltInHint::Bls12_381IsOnCurveTwist => "BLS12_381_IS_ON_CURVE_TWIST",
            BuiltInHint::Bls12_381IsOnSubgroupTwist => "BLS12_381_IS_ON_SUBGROUP_TWIST",
            BuiltInHint::Bls12_381AddTwist => "BLS12_381_ADD_TWIST",
            BuiltInHint::Bls12_381ScalarMulTwist => "BLS12_381_SCALAR_MUL_TWIST",
            BuiltInHint::Bls12_381MillerLoop => "BLS12_381_MILLER_LOOP",
            BuiltInHint::Bls12_381FinalExp => "BLS12_381_FINAL_EXP",
        }
    }

    /// The name and value of the hint code, as in `NOOP (0x4)`.
    pub fn to_display_string(self) -> (r: String)
        ensures
            r@ == named_code(builtin_name(self), builtin_code(self)),
    {
        display_named(self.name(), self.code())
    }
}

impl HintCode {
    /// How the hint code is displayed.
    pub fn to_display_string(self) -> (r: String)
        ensures
            r@ == hint_code_display(self),
    {
        match self {
            HintCode::Ctrl(c) => c.to_display_string(),
            HintCode::BuiltIn(b) => b.to_display_string(),
            HintCode::Custom(v) => {
                let mut s = "CUSTOM_HINT_".to_owned();
                append_hex(&mut s, v);
                s
            },
        }
    }
}

} // verus!
