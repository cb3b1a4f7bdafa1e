//! Layout of a hint header word.
//!
//! Each hint is a header `u64` followed by `length` data words. The upper 32 bits of the
//! header hold the hint code and the lower 32 bits hold the number of data words.

use vstd::prelude::*;

verus! {

/// Number of distinct values of the lower 32 bits of a header.
pub open spec fn header_base() -> int {
    0x1_0000_0000
}

/// The hint code stored in the upper 32 bits of a header.
pub open spec fn header_code(h: u64) -> u32 {
    (h as int / header_base()) as u32
}

/// The data length stored in the lower 32 bits of a header.
pub open spec fn header_length(h: u64) -> u32 {
    (h as int % header_base()) as u32
}

/// The header word that carries `code` and `length`.
pub open spec fn spec_make_header(code: u32, length: u32) -> u64 {
    (code as int * header_base() + length as int) as u64
}

/// The words of one encoded hint: its header followed by its data.
pub open spec fn encode_hint(code: u32, data: Seq<u64>) -> Seq<u64> {
    seq![spec_make_header(code, data.len() as u32)] + data
}

/// Splits a header word into its code (upper half) and data length (lower half).
pub fn split_header(header: u64) -> (r: (u32, u32))
    ensures
        r.0 == header_code(header),
        r.1 == header_length(header),
{
    let code = (header >> 32u64) as u32;
    let length = (header & 0xFFFF_FFFFu64) as u32;
    assert(header >> 32u64 == header / 0x1_0000_0000u64) by (bit_vector);
    assert(header & 0xFFFF_FFFFu64 == header % 0x1_0000_0000u64) by (bit_vector);
    (code, length)
}

/// Builds the header word of a hint with the given code and data length.
pub fn make_header(code: u32, length: u32) -> (h: u64)
    ensures
        h == spec_make_header(code, length),
        header_code(h) == code,
        header_length(h) == length,
{
    let h = ((code as u64) << 32u64) | (length as u64);
    let c = code as u64;
    let l = length as u64;
    assert(c < 0x1_0000_0000u64 && l < 0x1_0000_0000u64 ==> (c << 32u64) | l == c * 0x1_0000_0000u64 + l)
        by (bit_vector);
    proof {
        lemma_header_fields(code, length);
    }
    h
}

/// The code and length stored in a header are read back unchanged.
pub proof fn lemma_header_fields(code: u32, length: u32)
    ensures
        0 <= code as int * header_base() + length as int <= u64::MAX,
        header_code(spec_make_header(code, length)) == code,
        header_length(spec_make_header(code, length)) == length,
{
    let v = code as int * header_base() + length as int;
    assert(0 <= code as int * header_base() <= 0xFFFF_FFFF * header_base()) by (nonlinear_arith)
        requires
            0 <= code <= 0xFFFF_FFFF,
            header_base() == 0x1_0000_0000,
    ;
    vstd::arithmetic::div_mod::lemma_fundamental_div_mod_converse(
        v,
        header_base(),
        code as int,
        length as int,
    );
}

} // verus!
