use zisk_precompiles::direct_calls::{dma_direct_calls, find_reg_load, DmaTarget, RegLoadType, RiscvInstr};

fn inst(rom_address: u64, m: &str, rd: u32, rs1: u32, rs2: u32, imm: i32) -> RiscvInstr {
    RiscvInstr { rom_address, inst: m.to_string(), rd, rs1, rs2, imm }
}

const ADDRS: (u64, u64, u64, u64) = (0x8000, 0xA000, 0x9000, 0xB000);

fn program() -> Vec<RiscvInstr> {
    vec![
        inst(0x1000, "addi", 10, 0, 0, 5),
        inst(0x1004, "c.mv", 11, 0, 8, 0),
        inst(0x1006, "ld", 12, 2, 0, 16),
        inst(0x100a, "auipc", 1, 0, 0, 0x7000),
        inst(0x100e, "jalr", 1, 1, 0, -10),
        inst(0x1012, "jal", 1, 0, 0, 0x9000 - 0x1012),
        inst(0x1016, "nop", 0, 0, 0, 0),
    ]
}

#[test]
fn auipc_jalr_pair_to_memcpy_is_found() {
    let calls = dma_direct_calls(&program(), ADDRS);
    assert_eq!(calls.len(), 2);
    let c = &calls[0];
    assert_eq!(c.target, DmaTarget::Copy);
    assert_eq!(c.pc, 0x100e);
    assert!(!c.via_jal);
    assert_eq!(c.a0, (4, RegLoadType::Immediate(5)));
    assert_eq!(c.a1, (3, RegLoadType::RegPlusImm { rs: 8, imm: 0 }));
    assert_eq!(c.a2, (2, RegLoadType::MemLoad { rs: 2, imm: 16, size: 8 }));
}

#[test]
fn jal_to_memset_is_found() {
    let calls = dma_direct_calls(&program(), ADDRS);
    let c = &calls[1];
    assert_eq!(c.target, DmaTarget::Fill);
    assert_eq!(c.pc, 0x1012);
    assert!(c.via_jal);
    assert_eq!(c.a0, (5, RegLoadType::Immediate(5)));
    assert_eq!(c.a2, (3, RegLoadType::MemLoad { rs: 2, imm: 16, size: 8 }));
}

#[test]
fn unknown_writer_and_missing_writer() {
    let p = vec![
        inst(0x10, "mul", 10, 3, 4, 0),
        inst(0x14, "jal", 0, 0, 0, 0xA000 - 0x14),
        inst(0x18, "nop", 0, 0, 0, 0),
    ];
    let calls = dma_direct_calls(&p, ADDRS);
    assert_eq!(calls.len(), 1);
    assert_eq!(calls[0].target, DmaTarget::Compare);
    assert_eq!(calls[0].a0, (1, RegLoadType::NotFound));
    assert_eq!(calls[0].a1, (0, RegLoadType::NotFound));
}

#[test]
fn memmove_address_is_the_input_copy_and_absent_routines_never_match() {
    let p = vec![inst(0x20, "jal", 1, 0, 0, 0xB000 - 0x20), inst(0x24, "jal", 1, 0, 0, -0x24)];
    let calls = dma_direct_calls(&p, (0, 0, 0, 0xB000));
    assert_eq!(calls.len(), 1);
    assert_eq!(calls[0].target, DmaTarget::InputCopy);
    let none = dma_direct_calls(&p, (0, 0, 0, 0));
    assert!(none.is_empty());
}

#[test]
fn the_last_instruction_is_not_scanned() {
    let p = vec![inst(0x10, "nop", 0, 0, 0, 0), inst(0x14, "jal", 0, 0, 0, 0xA000 - 0x14)];
    assert!(dma_direct_calls(&p, ADDRS).is_empty());
}

#[test]
fn auipc_through_another_register_is_not_a_call() {
    let p = vec![inst(0x100a, "auipc", 5, 0, 0, 0x7000), inst(0x100e, "jalr", 1, 1, 0, -10)];
    assert!(dma_direct_calls(&p, ADDRS).is_empty());
}

#[test]
fn register_search_stops_after_twenty_instructions() {
    let mut p = vec![inst(0, "addi", 10, 0, 0, 1)];
    for k in 1..=20u64 {
        p.push(inst(4 * k, "nop", 0, 0, 0, 0));
    }
    assert_eq!(find_reg_load(&p, 21, 10), (0, RegLoadType::NotFound));
    assert_eq!(find_reg_load(&p, 20, 10), (20, RegLoadType::Immediate(1)));
    let adds = vec![inst(0, "add", 12, 0, 7, 0), inst(4, "c.add", 11, 9, 0, 0)];
    assert_eq!(find_reg_load(&adds, 2, 12), (2, RegLoadType::RegPlusImm { rs: 7, imm: 0 }));
    assert_eq!(find_reg_load(&adds, 2, 11), (1, RegLoadType::RegPlusImm { rs: 9, imm: 0 }));
}
