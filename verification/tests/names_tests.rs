use zisk_precompiles::stream_position::{StreamAction, StreamPosition};
use zisk_precompiles::bytes::words_from_le_bytes;
use zisk_precompiles::hints_relay::hints_payload;
use zisk_precompiles::hint_handlers::{
    bn254_pairing_batch_hint, modexp_hint, process_addmod256_hint, read_field, validate_hint_length, validate_hint_min_length,
};
use zisk_precompiles::error::{HintError, HintName};
use zisk_precompiles::io_stream::{NullStreamReader, StreamRead};
use zisk_precompiles::shmem_names::{
    incremented_size, sem_available_name, sem_chunk_done_name, sem_read_name, shmem_control_reader_name,
    shmem_control_writer_name, shmem_input_name, shmem_output_name, shmem_precompile_name,
    ControlShmemOffsets,
};

#[test]
fn shared_memory_and_semaphore_names() {
    assert_eq!(shmem_input_name("ZISK_23115_0", "MT"), "ZISK_23115_0_MT_input");
    assert_eq!(shmem_precompile_name("P", "RH"), "P_RH_precompile");
    assert_eq!(shmem_control_writer_name("P", "MO"), "P_MO_control_input");
    assert_eq!(shmem_control_reader_name("P", "MO"), "P_MO_control_output");
    assert_eq!(shmem_output_name("P", "MT"), "P_MT_output");
    assert_eq!(sem_available_name("P", "MT"), "/P_MT_prec_avail");
    assert_eq!(sem_read_name("P", "MT"), "/P_MT_prec_read");
    assert_eq!(sem_chunk_done_name("P", "MT"), "/P_MT_chunk_done");
}

#[test]
fn control_region_layout() {
    assert_eq!(ControlShmemOffsets::PrecompilesSize.offset(), 0);
    assert_eq!(ControlShmemOffsets::ShutdownFlag.offset(), 8);
    assert_eq!(ControlShmemOffsets::InputsSize.offset(), 16);
    assert_eq!(incremented_size(100, 28), 128);
}

#[test]
fn null_stream_has_no_data() {
    let mut s = NullStreamReader::new();
    assert!(s.open().is_ok());
    assert_eq!(s.next(), Ok(Some(Vec::new())));
    assert!(!s.is_active());
    assert!(s.close().is_ok());
}

#[test]
fn hint_length_checks() {
    assert_eq!(validate_hint_length(&[1, 2, 3], 3, HintName::Redmod256), Ok(()));
    let e = validate_hint_length(&[1, 2], 3, HintName::Redmod256).unwrap_err();
    assert_eq!(e, HintError::InvalidHintLength { hint: HintName::Redmod256, expected: 3, got: 2 });
    assert_eq!(e.message(), "Invalid REDMOD256 hint length: expected 3, got 2");
    assert_eq!(validate_hint_min_length(&[1, 2], 1, HintName::HintBn254G1Add), Ok(()));
    let e = validate_hint_min_length(&[], 1, HintName::HintBn254G1Add).unwrap_err();
    assert_eq!(e, HintError::HintTooShort { hint: HintName::HintBn254G1Add, min: 1, got: 0 });
    assert_eq!(e.message(), "Invalid HINT_BN254_G1_ADD hint length: expected at least 1, got 0");
    let data: Vec<u64> = (0..12).collect();
    let (a, b, m) = process_addmod256_hint(&data).unwrap();
    assert_eq!(a, [0, 1, 2, 3]);
    assert_eq!(b, [4, 5, 6, 7]);
    assert_eq!(m, [8, 9, 10, 11]);
    assert!(process_addmod256_hint(&data[..11]).is_err());
}

#[test]
fn modexp_payload_fields() {
    let data = [2, 10, 11, 1, 20, 3, 30, 31, 32];
    let (base, exp, modulus) = modexp_hint(&data).unwrap();
    assert_eq!(base, &[10, 11]);
    assert_eq!(exp, &[20]);
    assert_eq!(modulus, &[30, 31, 32]);
    assert_eq!(modexp_hint(&[]), Err(HintError::ModexpEmpty));
    assert_eq!(modexp_hint(&[]).unwrap_err().message(), "MODEXP hint data is empty");
    assert_eq!(
        modexp_hint(&[2, 1, 1]).unwrap_err().message(),
        "MODEXP hint data too short for base (expected at least 4 elements)"
    );
    assert_eq!(modexp_hint(&[0, 0, 1]).unwrap_err().message(), "Invalid MODEXP hint length: expected 4, got 3");
    assert_eq!(modexp_hint(&[5, 1]), Err(HintError::ModexpBaseTooShort { expected: 7 }));
    assert_eq!(modexp_hint(&[0, 4]), Err(HintError::ModexpExponentTooShort { expected: 7 }));
    assert_eq!(
        modexp_hint(&[0, 0, 1]),
        Err(HintError::InvalidHintLength { hint: HintName::Modexp, expected: 4, got: 3 })
    );
    let mut pos = 0usize;
    assert_eq!(read_field(&data, &mut pos), Ok(&data[1..3]));
    assert_eq!(pos, 3);
    let mut far = 8usize;
    assert_eq!(read_field(&data, &mut far), Err(HintError::TruncatedField));
}

#[test]
fn words_round_trip_through_bytes() {
    let words = vec![0x0102030405060708u64, u64::MAX, 0];
    let bytes = hints_payload(&words);
    assert_eq!(bytes.len(), 24);
    assert_eq!(words_from_le_bytes(&bytes), Some(words));
    assert_eq!(words_from_le_bytes(&bytes[..23]), None);
    assert_eq!(words_from_le_bytes(&[]), Some(vec![]));
}

#[test]
fn ring_buffer_flow_control() {
    let full = zisk_precompiles::shmem_names::MAX_PRECOMPILE_SIZE / 8;
    let w = zisk_precompiles::shmem_names::ring_buffer_write(100, 40, 10);
    assert!(!w.must_wait);
    assert_eq!(w.new_write_pos, 110);
    let w = zisk_precompiles::shmem_names::ring_buffer_write(full + 5, 10, 6);
    assert!(w.must_wait);
    let w = zisk_precompiles::shmem_names::ring_buffer_write(full + 5, 10, 5);
    assert!(!w.must_wait);
    let names = zisk_precompiles::shmem_names::ServiceResourceNames::new("P", "RH");
    assert_eq!(names.control_writer, "P_RH_control_input");
    assert_eq!(names.data_name, "P_RH_precompile");
    assert_eq!(names.sem_read_name, "/P_RH_prec_read");
}

#[test]
fn framed_payload_starts_with_the_length() {
    let bytes = zisk_precompiles::hints_relay::framed_hints_payload(&[7, 0x0102]);
    assert_eq!(bytes.len(), 24);
    assert_eq!(&bytes[0..8], &[2, 0, 0, 0, 0, 0, 0, 0]);
    assert_eq!(&bytes[8..16], &[7, 0, 0, 0, 0, 0, 0, 0]);
    assert_eq!(&bytes[16..24], &[2, 1, 0, 0, 0, 0, 0, 0]);
}

#[test]
fn stream_position_marks_only_the_first_batch() {
    let mut p = StreamPosition::new();
    match p.on_read(Some(vec![1, 0, 0, 0, 0, 0, 0, 0])) {
        StreamAction::Process(words, first) => {
            assert_eq!(words, vec![1]);
            assert!(first);
        }
        _ => panic!("expected a batch"),
    }
    assert!(!p.on_processed(false));
    match p.on_read(Some(vec![])) {
        StreamAction::Process(words, first) => {
            assert!(words.is_empty());
            assert!(!first);
        }
        _ => panic!("expected a batch"),
    }
    assert!(matches!(p.on_read(Some(vec![1, 2, 3])), StreamAction::Malformed));
    assert!(matches!(p.on_read(None), StreamAction::Stop));
    assert!(p.on_processed(true));
}

#[test]
fn pairing_batch_payload_fields() {
    let e = bn254_pairing_batch_hint(&[]).unwrap_err();
    assert_eq!(e, HintError::PairingBatchEmpty);
    assert_eq!(e.message(), "PAIRING_BATCH_BN254: data is empty");
    let e = bn254_pairing_batch_hint(&[1, 2]).unwrap_err();
    assert_eq!(e.message(), "Invalid PAIRING_BATCH_BN254 hint length: expected 25, got 2");
    let mut data = vec![1u64];
    data.extend(1..=24u64);
    let (g1, g2) = bn254_pairing_batch_hint(&data).unwrap();
    assert_eq!(g1, vec![[1, 2, 3, 4, 5, 6, 7, 8]]);
    assert_eq!(g2[0][0], 9);
    assert_eq!(g2[0][15], 24);
}
