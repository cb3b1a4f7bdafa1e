//! Detection of direct calls to the DMA routines (memcpy, memcmp, memset and the input
//! copy) in a decoded RISC-V program, with how the argument registers a0, a1 and a2 were
//! loaded before each call.

use vstd::prelude::*;

verus! {

/// Register a0 (x10): first argument.
pub const REG_A0: u32 = 10;

/// Register a1 (x11): second argument.
pub const REG_A1: u32 = 11;

/// Register a2 (x12): third argument.
pub const REG_A2: u32 = 12;

/// How far back the argument loads are searched, in instructions.
pub const MAX_LOAD_DISTANCE: usize = 20;

/// A decoded RISC-V instruction, with what the call analysis reads of it.
pub struct RiscvInstr {
    /// Address of the instruction in the ROM.
    pub rom_address: u64,
    /// The mnemonic, such as `addi` or `c.ld`.
    pub inst: String,
    pub rd: u32,
    pub rs1: u32,
    pub rs2: u32,
    /// The immediate; for `auipc` already shifted into the upper bits.
    pub imm: i32,
}

/// How a register was loaded before a call.
#[derive(Clone, Copy, Debug, PartialEq, Eq, Structural)]
pub enum RegLoadType {
    /// An immediate value (`li`, `addi rd, x0, imm`, `lui`).
    Immediate(i32),
    /// A register plus an immediate (`addi rd, rs, imm`, `mv rd, rs`, `add`).
    RegPlusImm { rs: u32, imm: i32 },
    /// A load from memory at `imm(rs)` of `size` bytes.
    MemLoad { rs: u32, imm: i32, size: u8 },
    /// No recognised load was found.
    NotFound,
}

/// The DMA routine that a call jumps to.
#[derive(Clone, Copy, Debug, PartialEq, Eq, Structural)]
pub enum DmaTarget {
    /// memcpy
    Copy,
    /// memcmp
    Compare,
    /// memset
    Fill,
    /// the input copy routine (at the memmove address)
    InputCopy,
}

/// A direct call to a DMA routine.
#[derive(Clone, Copy, Debug)]
pub struct DmaDirectCall {
    pub target: DmaTarget,
    /// The address of the jumping instruction (the `jalr` of an `auipc`+`jalr` pair, or the `jal`).
    pub pc: u64,
    /// Whether the call is a single `jal`.
    pub via_jal: bool,
    /// Distance back to the instruction that loaded a0, and how it loaded it.
    pub a0: (usize, RegLoadType),
    pub a1: (usize, RegLoadType),
    pub a2: (usize, RegLoadType),
}

/// How an instruction that writes its `rd` loads that register.
pub open spec fn load_kind(i: RiscvInstr) -> RegLoadType {
    let m = i.inst@;
    if m == "addi"@ || m == "c.addi"@ {
        if i.rs1 == 0 {
            RegLoadType::Immediate(i.imm)
        } else {
            RegLoadType::RegPlusImm { rs: i.rs1, imm: i.imm }
        }
    } else if m == "c.li"@ {
        RegLoadType::Immediate(i.imm)
    } else if m == "c.mv"@ {
        RegLoadType::RegPlusImm { rs: i.rs2, imm: 0 }
    } else if m == "lui"@ || m == "c.lui"@ {
        RegLoadType::Immediate(i.imm)
    } else if m == "ld"@ || m == "c.ld"@ || m == "c.ldsp"@ {
        RegLoadType::MemLoad { rs: i.rs1, imm: i.imm, size: 8 }
    } else if m == "lw"@ || m == "c.lw"@ || m == "c.lwsp"@ || m == "lwu"@ {
        RegLoadType::MemLoad { rs: i.rs1, imm: i.imm, size: 4 }
    } else if m == "add"@ || m == "c.add"@ {
        if i.rs1 == 0 {
            RegLoadType::RegPlusImm { rs: i.rs2, imm: 0 }
        } else {
            RegLoadType::RegPlusImm { rs: i.rs1, imm: 0 }
        }
    } else {
        RegLoadType::NotFound
    }
}

/// The nearest instruction before `call_idx`, at distance `offset` or more and at most
/// `MAX_LOAD_DISTANCE` (and at most `call_idx`), that writes `reg`: its distance and how it
/// loads the register; `(0, NotFound)` when there is none.
pub open spec fn search_load(s: Seq<RiscvInstr>, call_idx: int, reg: u32, offset: int) -> (
    usize,
    RegLoadType,
)
    decreases MAX_LOAD_DISTANCE + 1 - offset,
{
    if offset < 1 || offset > MAX_LOAD_DISTANCE || offset > call_idx {
        (0, RegLoadType::NotFound)
    } else if s[call_idx - offset].rd == reg {
        (offset as usize, load_kind(s[call_idx - offset]))
    } else {
        search_load(s, call_idx, reg, offset + 1)
    }
}

/// The address reached from `pc` by adding the signed offset `delta`, modulo 2^64.
pub open spec fn jump_target(pc: u64, delta: int) -> u64 {
    ((pc + delta) % 0x1_0000_0000_0000_0000) as u64
}

/// The DMA routine at `target`, given the routine addresses (memcpy, memcmp, memset,
/// memmove); an address of 0 stands for a routine that is absent.
pub open spec fn dma_target_of(target: u64, addrs: (u64, u64, u64, u64)) -> Option<DmaTarget> {
    let is_dma = (addrs.0 != 0 && target == addrs.0) || (addrs.1 != 0 && target == addrs.1) || (
    addrs.2 != 0 && target == addrs.2) || (addrs.3 != 0 && target == addrs.3);
    if !is_dma {
        None
    } else if target == addrs.0 {
        Some(DmaTarget::Copy)
    } else if target == addrs.1 {
        Some(DmaTarget::Compare)
    } else if target == addrs.2 {
        Some(DmaTarget::Fill)
    } else {
        Some(DmaTarget::InputCopy)
    }
}

/// The DMA call, if any, that starts at instruction `i` (which has a successor): an
/// `auipc`+`jalr` pair through the same register, or a `jal`.
pub open spec fn call_at(s: Seq<RiscvInstr>, i: int, addrs: (u64, u64, u64, u64)) -> Option<
    DmaDirectCall,
> {
    if s[i].inst@ == "auipc"@ && s[i + 1].inst@ == "jalr"@ && s[i].rd == s[i + 1].rs1 {
        let t = jump_target(s[i].rom_address, s[i].imm + s[i + 1].imm);
        match dma_target_of(t, addrs) {
            Some(d) => Some(
                DmaDirectCall {
                    target: d,
                    pc: s[i + 1].rom_address,
                    via_jal: false,
                    a0: search_load(s, i + 1, REG_A0, 1),
                    a1: search_load(s, i + 1, REG_A1, 1),
                    a2: search_load(s, i + 1, REG_A2, 1),
                },
            ),
            None => None,
        }
    } else if s[i].inst@ == "jal"@ {
        let t = jump_target(s[i].rom_address, s[i].imm as int);
        match dma_target_of(t, addrs) {
            Some(d) => Some(
                DmaDirectCall {
                    target: d,
                    pc: s[i].rom_address,
                    via_jal: true,
                    a0: search_load(s, i, REG_A0, 1),
                    a1: search_load(s, i, REG_A1, 1),
                    a2: search_load(s, i, REG_A2, 1),
                },
            ),
            None => None,
        }
    } else {
        None
    }
}

/// The DMA calls that start at the first `k` instructions, in order.
pub open spec fn calls_upto(s: Seq<RiscvInstr>, k: int, addrs: (u64, u64, u64, u64)) -> Seq<
    DmaDirectCall,
>
    decreases k,
{
    if k <= 0 {
        Seq::empty()
    } else {
        match call_at(s, k - 1, addrs) {
            Some(c) => calls_upto(s, k - 1, addrs).push(c),
            None => calls_upto(s, k - 1, addrs),
        }
    }
}

/// Whether the mnemonic of `i` is `m`.
fn mnemonic_is(i: &RiscvInstr, m: &str) -> (r: bool)
    ensures
        r == (i.inst@ == m@),
{
    let owned = m.to_owned();
    i.inst == owned
}

/// How the instruction `i`, which writes its `rd`, loads that register.
fn load_kind_of(i: &RiscvInstr) -> (r: RegLoadType)
    ensures
        r == load_kind(*i),
{
    if mnemonic_is(i, "addi") || mnemonic_is(i, "c.addi") {
        if i.rs1 == 0 {
            RegLoadType::Immediate(i.imm)
        } else {
            RegLoadType::RegPlusImm { rs: i.rs1, imm: i.imm }
        }
    } else if mnemonic_is(i, "c.li") {
        RegLoadType::Immediate(i.imm)
    } else if mnemonic_is(i, "c.mv") {
        RegLoadType::RegPlusImm { rs: i.rs2, imm: 0 }
    } else if mnemonic_is(i, "lui") || mnemonic_is(i, "c.lui") {
        RegLoadType::Immediate(i.imm)
    } else if mnemonic_is(i, "ld") || mnemonic_is(i, "c.ld") || mnemonic_is(i, "c.ldsp") {
        RegLoadType::MemLoad { rs: i.rs1, imm: i.imm, size: 8 }
    } else if mnemonic_is(i, "lw") || mnemonic_is(i, "c.lw") || mnemonic_is(i, "c.lwsp")
        || mnemonic_is(i, "lwu") {
        RegLoadType::MemLoad { rs: i.rs1, imm: i.imm, size: 4 }
    } else if mnemonic_is(i, "add") || mnemonic_is(i, "c.add") {
        if i.rs1 == 0 {
            RegLoadType::RegPlusImm { rs: i.rs2, imm: 0 }
        } else {
            RegLoadType::RegPlusImm { rs: i.rs1, imm: 0 }
        }
    } else {
        RegLoadType::NotFound
    }
}

/// Searches back from `call_idx`, over at most `MAX_LOAD_DISTANCE` instructions, for the
/// nearest one that writes `target_reg`, and says how it loads it.
pub fn find_reg_load(riscv_instructions: &[RiscvInstr], call_idx: usize, target_reg: u32) -> (r: (
    usize,
    RegLoadType,
))
    requires
        call_idx <= riscv_instructions@.len(),
    ensures
        r == search_load(riscv_instructions@, call_idx as int, target_reg, 1),
{
    let limit: usize = if call_idx < MAX_LOAD_DISTANCE {
        call_idx
    } else {
        MAX_LOAD_DISTANCE
    };
    let mut offset: usize = 1;
    while offset <= limit
        invariant
            1 <= offset <= limit + 1,
            limit <= MAX_LOAD_DISTANCE,
            limit <= call_idx,
            limit == (if call_idx < MAX_LOAD_DISTANCE { call_idx } else { MAX_LOAD_DISTANCE }),
            call_idx <= riscv_instructions@.len(),
            search_load(riscv_instructions@, call_idx as int, target_reg, 1) == search_load(
                riscv_instructions@,
                call_idx as int,
                target_reg,
                offset as int,
            ),
        decreases limit + 1 - offset,
    {
        let inst = &riscv_instructions[call_idx - offset];
        if inst.rd == target_reg {
            return (offset, load_kind_of(inst));
        }
        offset = offset + 1;
    }
    (0, RegLoadType::NotFound)
}

/// The DMA routine at `target`, if any.
fn dma_target(target: u64, dma_addrs: (u64, u64, u64, u64)) -> (r: Option<DmaTarget>)
    ensures
        r == dma_target_of(target, dma_addrs),
{
    let (memcpy_addr, compare_addr, memset_addr, memmove_addr) = dma_addrs;
    let is_dma = (memcpy_addr != 0 && target == memcpy_addr) || (compare_addr != 0 && target
        == compare_addr) || (memset_addr != 0 && target == memset_addr) || (memmove_addr != 0
        && target == memmove_addr);
    if !is_dma {
        None
    } else if target == memcpy_addr {
        Some(DmaTarget::Copy)
    } else if target == compare_addr {
        Some(DmaTarget::Compare)
    } else if target == memset_addr {
        Some(DmaTarget::Fill)
    } else {
        Some(DmaTarget::InputCopy)
    }
}

/// `pc` plus the signed `delta`, wrapping modulo 2^64.
fn add_offset(pc: u64, delta: i64) -> (r: u64)
    ensures
        r == jump_target(pc, delta as int),
{
    pc.wrapping_add_signed(delta)
}

/// `pc` plus two signed offsets, wrapping modulo 2^64.
fn add_offsets(pc: u64, a: i32, b: i32) -> (r: u64)
    ensures
        r == jump_target(pc, a + b),
{
    let first = add_offset(pc, a as i64);
    let r = add_offset(first, b as i64);
    proof {
        let m: int = 0x1_0000_0000_0000_0000;
        let x: int = pc + a;
        let q: int = x / m;
        vstd::arithmetic::div_mod::lemma_fundamental_div_mod(x, m);
        vstd::arithmetic::div_mod::lemma_mod_multiples_vanish(-q, x + b, m);
        assert(m * (-q) + (x + b) == first + b) by (nonlinear_arith)
            requires
                x == m * q + first,
        ;
    }
    r
}

/// The DMA call that starts at instruction `i`, if any.
fn call_at_exec(riscv_instructions: &[RiscvInstr], i: usize, dma_addrs: (u64, u64, u64, u64)) -> (r:
    Option<DmaDirectCall>)
    requires
        i + 1 < riscv_instructions@.len(),
    ensures
        r == call_at(riscv_instructions@, i as int, dma_addrs),
{
    let inst = &riscv_instructions[i];
    let next_inst = &riscv_instructions[i + 1];
    if mnemonic_is(inst, "auipc") && mnemonic_is(next_inst, "jalr") && inst.rd == next_inst.rs1 {
        let target = add_offsets(inst.rom_address, inst.imm, next_inst.imm);
        match dma_target(target, dma_addrs) {
            Some(d) => {
                let jalr_idx = i + 1;
                Some(
                    DmaDirectCall {
                        target: d,
                        pc: next_inst.rom_address,
                        via_jal: false,
                        a0: find_reg_load(riscv_instructions, jalr_idx, REG_A0),
                        a1: find_reg_load(riscv_instructions, jalr_idx, REG_A1),
                        a2: find_reg_load(riscv_instructions, jalr_idx, REG_A2),
                    },
                )
            },
            None => None,
        }
    } else if mnemonic_is(inst, "jal") {
        let target = add_offset(inst.rom_address, inst.imm as i64);
        match dma_target(target, dma_addrs) {
            Some(d) => Some(
                DmaDirectCall {
                    target: d,
                    pc: inst.rom_address,
                    via_jal: true,
                    a0: find_reg_load(riscv_instructions, i, REG_A0),
                    a1: find_reg_load(riscv_instructions, i, REG_A1),
                    a2: find_reg_load(riscv_instructions, i, REG_A2),
                },
            ),
            None => None,
        }
    } else {
        None
    }
}

/// The direct calls to the DMA routines at `dma_addrs` (memcpy, memcmp, memset, memmove; 0
/// for an absent routine) found in `riscv_instructions`, in program order: each
/// `auipc`+`jalr` pair through one register, and each `jal`, whose target is one of them,
/// with the loads of a0, a1 and a2 found before it.
pub fn dma_direct_calls(riscv_instructions: &Vec<RiscvInstr>, dma_addrs: (u64, u64, u64, u64)) -> (r:
    Vec<DmaDirectCall>)
    ensures
        r@ == calls_upto(
            riscv_instructions@,
            if riscv_instructions@.len() > 0 { riscv_instructions@.len() - 1 } else { 0 },
            dma_addrs,
        ),
{
    let n = riscv_instructions.len();
    let end: usize = if n > 0 {
        n - 1
    } else {
        0
    };
    let mut calls: Vec<DmaDirectCall> = Vec::new();
    let mut i: usize = 0;
    while i < end
        invariant
            i <= end,
            end == (if n > 0 { n - 1 } else { 0 }),
            n == riscv_instructions@.len(),
            calls@ == calls_upto(riscv_instructions@, i as int, dma_addrs),
        decreases end - i,
    {
        let found = call_at_exec(riscv_instructions.as_slice(), i, dma_addrs);
        if let Some(c) = found {
            calls.push(c);
        }
        i = i + 1;
    }
    calls
}

} // verus!
