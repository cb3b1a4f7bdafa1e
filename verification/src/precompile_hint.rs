//! Parsing of a single precompile hint out of a stream of `u64` words.

use crate::error::HintError;
use crate::hint_code::{hint_code_from_value, HintCode};
use crate::hint_format::{
    encode_hint, header_base, header_code, header_length, lemma_header_fields, spec_make_header,
    split_header,
};
use vstd::prelude::*;

verus! {

/// Resolves a raw code: a known code decodes to its variant; an unknown one becomes a
/// custom code when custom codes are allowed and is refused otherwise.
pub open spec fn decode_hint_code(v: u32, allow_custom: bool) -> Result<HintCode, HintError> {
    match hint_code_from_value(v) {
        Some(h) => Ok(h),
        None => if allow_custom {
            Ok(HintCode::Custom(v))
        } else {
            Err(HintError::UnknownHintCode(v))
        },
    }
}

/// The outcome of reading the hint whose header sits at `idx` in `s`: its code and data,
/// or the error the parser reports.
pub open spec fn parse_hint(s: Seq<u64>, idx: int, allow_custom: bool) -> Result<
    (HintCode, Seq<u64>),
    HintError,
> {
    if idx < 0 || idx >= s.len() {
        Err(HintError::IndexOutOfBounds)
    } else {
        let header = s[idx];
        let length = header_length(header);
        if s.len() < idx + length + 1 {
            Err(HintError::TruncatedHint { length, available: (s.len() - idx - 1) as usize })
        } else {
            match decode_hint_code(header_code(header), allow_custom) {
                Ok(c) => Ok((c, s.subrange(idx + 1, idx + 1 + length))),
                Err(e) => Err(e),
            }
        }
    }
}

/// A single precompile hint parsed from a `u64` slice: a hint code and its payload.
pub struct PrecompileHint {
    /// The type of hint, determining how the data should be processed.
    pub hint_code: HintCode,
    /// The hint payload data.
    pub data: Vec<u64>,
}

impl PrecompileHint {
    /// Parses the hint whose header sits at `idx` in `slice`.
    ///
    /// With `allow_custom`, unknown codes become `HintCode::Custom`; without it they are
    /// refused.
    pub fn from_u64_slice(slice: &[u64], idx: usize, allow_custom: bool) -> (r: Result<
        PrecompileHint,
        HintError,
    >)
        ensures
            match r {
                Ok(h) => parse_hint(slice@, idx as int, allow_custom) == Ok::<
                    (HintCode, Seq<u64>),
                    HintError,
                >((h.hint_code, h.data@)),
                Err(e) => parse_hint(slice@, idx as int, allow_custom) == Err::<
                    (HintCode, Seq<u64>),
                    HintError,
                >(e),
            },
    {
        if slice.len() == 0 || idx >= slice.len() {
            return Err(HintError::IndexOutOfBounds);
        }
        let header = slice[idx];
        let (code, length) = split_header(header);
        let available = slice.len() - idx - 1;
        if length as usize > available {
            return Err(HintError::TruncatedHint { length, available });
        }
        let hint_code = match HintCode::try_from(code) {
            Ok(h) => h,
            Err(e) => {
                if allow_custom {
                    HintCode::Custom(code)
                } else {
                    return Err(e);
                }
            },
        };
        let start = idx + 1;
        let end = start + length as usize;
        let data = vstd::slice::slice_to_vec(&slice[start..end]);
        Ok(PrecompileHint { hint_code, data })
    }
}

/// Parsing reads back exactly what encoding wrote: after any prefix, the encoding of a
/// hint with a known code (or, with custom codes allowed, any code) and fewer than 2^32
/// data words parses to that code and data, whatever follows it.
pub proof fn lemma_parse_encoded_hint(
    prefix: Seq<u64>,
    code: u32,
    data: Seq<u64>,
    rest: Seq<u64>,
    allow_custom: bool,
)
    requires
        data.len() < header_base(),
        allow_custom || hint_code_from_value(code) is Some,
    ensures
        parse_hint(prefix + encode_hint(code, data) + rest, prefix.len() as int, allow_custom)
            == Ok::<(HintCode, Seq<u64>), HintError>((
            match hint_code_from_value(code) {
                Some(h) => h,
                None => HintCode::Custom(code),
            },
            data,
        )),
{
    let s = prefix + encode_hint(code, data) + rest;
    let idx = prefix.len() as int;
    lemma_header_fields(code, data.len() as u32);
    assert(s[idx] == spec_make_header(code, data.len() as u32));
    assert(s.subrange(idx + 1, idx + 1 + data.len()) =~= data);
}

} // verus!
