use zisk_precompiles::error::HintError;
use zisk_precompiles::hint_code::{
    BuiltInHint, CtrlHint, HintCode, CTRL_CANCEL, CTRL_END, CTRL_ERROR, CTRL_START, HINT_BN254_ADD,
    HINT_ECRECOVER, HINT_MODEXP, HINT_NOOP, HINT_SECP256K1_ECDSA_VERIFY,
};
use zisk_precompiles::hint_format::{make_header, split_header};
use zisk_precompiles::precompile_hint::PrecompileHint;

#[test]
fn ctrl_codes_round_trip() {
    for code in [CTRL_START, CTRL_END, CTRL_CANCEL, CTRL_ERROR] {
        let c = CtrlHint::try_from(code).unwrap();
        assert_eq!(c.code(), code);
    }
    assert_eq!(CtrlHint::try_from(CTRL_END).unwrap(), CtrlHint::End);
    assert_eq!(CtrlHint::try_from(0x04), Err(HintError::InvalidControlCode(0x04)));
}

#[test]
fn builtin_codes_round_trip() {
    assert_eq!(BuiltInHint::try_from(HINT_NOOP).unwrap(), BuiltInHint::Noop);
    assert_eq!(BuiltInHint::try_from(HINT_MODEXP).unwrap(), BuiltInHint::ModExp);
    assert_eq!(BuiltInHint::try_from(0x02023).unwrap(), BuiltInHint::Secp256K1EcdsaVerify);
    assert_eq!(BuiltInHint::Bn254Add.code(), HINT_BN254_ADD);
    assert_eq!(BuiltInHint::Secp256K1EcdsaVerify.code(), HINT_SECP256K1_ECDSA_VERIFY);
    assert_eq!(BuiltInHint::try_from(0x7777), Err(HintError::InvalidBuiltInCode(0x7777)));
}

#[test]
fn ecrecover_is_a_data_hint_code() {
    assert_eq!(HINT_ECRECOVER, 0x05);
    assert_eq!(BuiltInHint::try_from(0x05).unwrap(), BuiltInHint::EcRecover);
    assert_eq!(BuiltInHint::EcRecover.code(), 0x05);
    assert_eq!(BuiltInHint::EcRecover.to_display_string(), "ECRECOVER (0x5)");
    assert_eq!(HintCode::try_from(0x05).unwrap(), HintCode::BuiltIn(BuiltInHint::EcRecover));
    assert_eq!(BuiltInHint::try_from(0x23), Err(HintError::InvalidBuiltInCode(0x23)));
    assert_eq!(
        HintError::InvalidBuiltInCode(0x23).message(),
        "Invalid built-in hint code: 0x23"
    );
}

#[test]
fn hint_code_values() {
    assert_eq!(HintCode::try_from(0x01).unwrap(), HintCode::Ctrl(CtrlHint::End));
    assert_eq!(HintCode::try_from(0x10).unwrap(), HintCode::BuiltIn(BuiltInHint::Bn254Add));
    assert_eq!(HintCode::try_from(0x8000_0123), Err(HintError::UnknownHintCode(0x8000_0123)));
    assert_eq!(HintCode::Custom(0x8000_0123).to_u32(), 0x8000_0123);
    assert_eq!(HintCode::Ctrl(CtrlHint::Cancel).to_u32(), 0x02);
    assert_eq!(HintCode::BuiltIn(BuiltInHint::ModExp).to_u32(), 0x0D);
}

#[test]
fn hint_code_display_strings() {
    assert_eq!(CtrlHint::End.to_display_string(), "CTRL_END (0x1)");
    assert_eq!(CtrlHint::Start.to_display_string(), "CTRL_START (0x0)");
    assert_eq!(BuiltInHint::Noop.to_display_string(), "NOOP (0x4)");
    assert_eq!(BuiltInHint::Secp256K1FpMul.to_display_string(), "SECP256K1_FP_MUL (0x2013)");
    assert_eq!(HintCode::Custom(0xabc).to_display_string(), "CUSTOM_HINT_0xabc");
    assert_eq!(
        HintCode::BuiltIn(BuiltInHint::Bls12_381FinalExp).to_display_string(),
        "BLS12_381_FINAL_EXP (0x22)"
    );
    assert_eq!(BuiltInHint::WPow256.name(), "WPOW256");
}

#[test]
fn header_packs_code_and_length() {
    let h = make_header(0x0D, 7);
    assert_eq!(h, (0x0Du64 << 32) | 7);
    assert_eq!(split_header(h), (0x0D, 7));
    assert_eq!(split_header(0xFFFF_FFFF_0000_0001), (0xFFFF_FFFF, 1));
}

#[test]
fn precompile_hint_parses_after_prefix() {
    let stream = vec![make_header(0x04, 1), 9, make_header(0x10, 2), 5, 6];
    let h = PrecompileHint::from_u64_slice(&stream, 2, false).unwrap();
    assert_eq!(h.hint_code, HintCode::BuiltIn(BuiltInHint::Bn254Add));
    assert_eq!(h.data, vec![5, 6]);
}

#[test]
fn precompile_hint_errors() {
    let stream = vec![make_header(0x04, 3), 1];
    assert!(matches!(
        PrecompileHint::from_u64_slice(&stream, 0, false),
        Err(HintError::TruncatedHint { length: 3, available: 1 })
    ));
    assert!(matches!(PrecompileHint::from_u64_slice(&stream, 5, false), Err(HintError::IndexOutOfBounds)));
    let custom = vec![make_header(0x7777, 0)];
    assert!(matches!(
        PrecompileHint::from_u64_slice(&custom, 0, false),
        Err(HintError::UnknownHintCode(0x7777))
    ));
    let h = PrecompileHint::from_u64_slice(&custom, 0, true).unwrap();
    assert_eq!(h.hint_code, HintCode::Custom(0x7777));
    assert!(h.data.is_empty());
}
