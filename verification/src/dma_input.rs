//! Inputs of the DMA state machines as decoded from the operation bus.

use vstd::prelude::*;

verus! {

/// A memory copy of `count` bytes from `src` to `dst` at step `main_step`.
#[derive(Debug)]
pub struct DmaMemCpyInput {
    pub src: u64,
    pub dst: u64,
    pub count: usize,
    pub main_step: u64,
}

/// A comparison of `count` bytes at `addr1` and `addr2` at step `main_step`.
#[derive(Debug)]
pub struct DmaMemCmpInput {
    pub addr1: u64,
    pub addr2: u64,
    /// Number of bytes to compare.
    pub count: usize,
    pub main_step: u64,
    /// Number of leading bytes that are equal.
    pub count_eq_bytes: usize,
    /// The difference of the first differing bytes: 0 when equal, 1..=255 when the first
    /// is greater, and from 0xFFFF_FFFF_FFFF_FF00 up when it is smaller.
    pub result: u64,
}

/// An aligned copy of whole words at step `step_main`, with the words it reads.
#[derive(Debug)]
pub struct MemCpyInput {
    pub step_main: u64,
    pub addr_src: u32,
    pub addr_dst: u32,
    pub a: [u64; 4],
    pub b: [u64; 4],
    pub count: u32,
}

/// How the parameters of a DMA operation are laid out in its memory accesses.
#[derive(Debug)]
pub struct DmaMemInputConfig {
    pub indirect_params: usize,
    pub rewrite_params: bool,
    pub read_params: usize,
    pub write_params: usize,
    pub chunks_per_param: usize,
}

} // verus!
