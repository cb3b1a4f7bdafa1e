//! Memory reads of a DMA compare operation, and the check whether the collectors may
//! skip it.

use vstd::prelude::*;

verus! {

/// The decoded fields of a DMA compare operation.
pub struct DmaCompareParams {
    /// First address compared (destination side).
    pub dst: u64,
    /// Second address compared (source side).
    pub src: u64,
    /// Number of bytes compared.
    pub count: u64,
    /// Bytes compared before the destination reaches a word boundary.
    pub pre_count: u64,
    /// Whole destination words compared.
    pub loop_count: usize,
    /// Bytes compared after the whole words.
    pub post_count: u64,
    /// Whether the head needs a second source word.
    pub double_read_pre: bool,
    /// Whether the tail needs a second source word.
    pub double_read_post: bool,
    /// Whether the count is read from the extra parameters address.
    pub load_count_from_mem: bool,
}

/// `addr` rounded down to a multiple of 8, as a 32-bit address.
pub open spec fn aligned32(addr: u64) -> u32 {
    (addr & !0x07u64) as u32
}

/// Number of words touched by `count` bytes starting at offset `offset` of a word.
pub open spec fn words_touched(offset: u64, count: u64) -> int {
    (offset + count + 7) / 8
}

/// The first aligned destination and source addresses and the word counts of a compare.
pub open spec fn compare_layout(p: DmaCompareParams) -> (int, int, int) {
    (aligned32(p.dst) as int, aligned32(p.src) as int, words_touched(p.dst % 8, p.count))
}

/// The read of the count parameter, when the count comes from memory.
pub open spec fn compare_count_read(p: DmaCompareParams, extra_addr: u32) -> Seq<(u32, u64)> {
    if p.load_count_from_mem {
        seq![(extra_addr, p.count)]
    } else {
        Seq::empty()
    }
}

/// The reads of the head: the first source and destination words, and a second source
/// word when the head crosses a source word boundary.
pub open spec fn compare_head_reads(p: DmaCompareParams, ext: Seq<u64>) -> Seq<(u32, u64)> {
    let (dst64, src64, dst_words) = compare_layout(p);
    let dd = ext.subrange(0, dst_words);
    let sd = ext.subrange(dst_words, ext.len() as int);
    if p.pre_count > 0 {
        seq![(src64 as u32, sd[0]), (dst64 as u32, dd[0])] + if p.double_read_pre {
            seq![((src64 + 8) as u32, sd[1])]
        } else {
            Seq::empty()
        }
    } else {
        Seq::empty()
    }
}

/// Index of the first source word after the head.
pub open spec fn compare_src_skip(p: DmaCompareParams) -> int {
    if p.src % 8 + p.pre_count > 7 { 1 } else { 0 }
}

/// Index of the first destination word after the head.
pub open spec fn compare_dst_skip(p: DmaCompareParams) -> int {
    if p.pre_count > 0 { 1 } else { 0 }
}

/// The reads of the whole words: `loop_count` source words (one more when the two sides
/// are differently aligned), then `loop_count` destination words.
pub open spec fn compare_word_reads(p: DmaCompareParams, ext: Seq<u64>) -> Seq<(u32, u64)> {
    let (dst64, src64, dst_words) = compare_layout(p);
    let dd = ext.subrange(0, dst_words);
    let sd = ext.subrange(dst_words, ext.len() as int);
    let unaligned: int = if p.dst % 8 != p.src % 8 { 1 } else { 0 };
    let sdo = compare_src_skip(p);
    let ddo = compare_dst_skip(p);
    let lc = p.loop_count as int;
    if lc > 0 {
        Seq::new((lc + unaligned) as nat, |i: int| ((src64 + sdo * 8 + 8 * i) as u32, sd[sdo + i]))
            + Seq::new(lc as nat, |i: int| ((dst64 + ddo * 8 + 8 * i) as u32, dd[ddo + i]))
    } else {
        Seq::empty()
    }
}

/// The aligned source address of the tail.
pub open spec fn compare_src_tail(p: DmaCompareParams) -> int {
    let src64 = aligned32(p.src) as int;
    let sum = src64 + p.pre_count + p.loop_count * 8;
    sum - sum % 8
}

/// The reads of the tail: the source and destination words after the whole words, and
/// a second source word when the tail crosses a source word boundary.
pub open spec fn compare_tail_reads(p: DmaCompareParams, ext: Seq<u64>) -> Seq<(u32, u64)> {
    let (dst64, src64, dst_words) = compare_layout(p);
    let dd = ext.subrange(0, dst_words);
    let sd = ext.subrange(dst_words, ext.len() as int);
    let ddo2 = compare_dst_skip(p) + p.loop_count;
    let sp = compare_src_tail(p);
    let sdo2 = (sp - src64) / 8;
    if p.post_count > 0 {
        seq![(sp as u32, sd[sdo2]), ((dst64 + ddo2 * 8) as u32, dd[ddo2])] + if p.double_read_post {
            seq![((sp + 8) as u32, sd[sdo2 + 1])]
        } else {
            Seq::empty()
        }
    } else {
        Seq::empty()
    }
}

/// The reads (address, value) of a compare: the count parameter when it comes from
/// memory, the head words, the whole words of both sides, then the tail words. `ext`
/// holds the destination words followed by the source words.
pub open spec fn spec_compare_reads(p: DmaCompareParams, ext: Seq<u64>, extra_addr: u32) -> Seq<(u32, u64)> {
    compare_count_read(p, extra_addr) + compare_head_reads(p, ext) + compare_word_reads(p, ext)
        + compare_tail_reads(p, ext)
}

/// The conditions under which the reads of a compare stay inside `ext` and inside the
/// 32-bit address space.
pub open spec fn compare_reads_in_bounds(p: DmaCompareParams, ext: Seq<u64>) -> bool {
    let (dst64, src64, dst_words) = compare_layout(p);
    let unaligned: int = if p.dst % 8 != p.src % 8 { 1 } else { 0 };
    let src_words = ext.len() - dst_words;
    let sdo = compare_src_skip(p);
    let ddo = compare_dst_skip(p);
    let lc = p.loop_count as int;
    let sdo2 = (compare_src_tail(p) - src64) / 8;
    &&& p.dst % 8 + p.count + 7 <= u64::MAX
    &&& p.pre_count < 8
    &&& dst_words <= ext.len()
    &&& dst64 + 8 * dst_words + 8 <= u32::MAX
    &&& src64 + 8 * src_words + 8 <= u32::MAX
    &&& (p.pre_count > 0 ==> dst_words >= 1 && src_words >= (if p.double_read_pre { 2int } else { 1int }))
    &&& (lc > 0 ==> sdo + lc + unaligned <= src_words && ddo + lc <= dst_words)
    &&& (p.post_count > 0 ==> sdo2 + (if p.double_read_post { 2int } else { 1int }) <= src_words
        && ddo + lc + 1 <= dst_words)
}

/// `rd` reads word `k` of the destination, for some `k`: at the aligned destination
/// address plus `8 * k`, with value `ext[k]`.
pub open spec fn is_dst_word_read(p: DmaCompareParams, ext: Seq<u64>, rd: (u32, u64)) -> bool {
    let (dst64, src64, dst_words) = compare_layout(p);
    exists|k: int| 0 <= k < dst_words && rd == ((dst64 + 8 * k) as u32, #[trigger] ext[k])
}

/// `rd` reads word `k` of the source, for some `k`: at the aligned source address plus
/// `8 * k`, with value `ext[dst_words + k]`.
pub open spec fn is_src_word_read(p: DmaCompareParams, ext: Seq<u64>, rd: (u32, u64)) -> bool {
    let (dst64, src64, dst_words) = compare_layout(p);
    exists|k: int| 0 <= k < ext.len() - dst_words && rd == ((src64 + 8 * k) as u32, #[trigger] ext[dst_words + k])
}

/// Every read of `s` reads a whole word of the destination or of the source.
pub open spec fn all_word_reads(p: DmaCompareParams, ext: Seq<u64>, s: Seq<(u32, u64)>) -> bool {
    forall|i: int| 0 <= i < s.len() ==> is_dst_word_read(p, ext, #[trigger] s[i]) || is_src_word_read(p, ext, s[i])
}

proof fn lemma_all_word_reads_concat(p: DmaCompareParams, ext: Seq<u64>, a: Seq<(u32, u64)>, b: Seq<(u32, u64)>)
    requires
        all_word_reads(p, ext, a),
        all_word_reads(p, ext, b),
    ensures
        all_word_reads(p, ext, a + b),
{
    assert forall|i: int| 0 <= i < (a + b).len() implies is_dst_word_read(p, ext, #[trigger] (a + b)[i])
        || is_src_word_read(p, ext, (a + b)[i]) by {
        if i < a.len() {
            assert((a + b)[i] == a[i]);
        } else {
            assert((a + b)[i] == b[i - a.len()]);
        }
    }
}

proof fn lemma_layout_aligned(p: DmaCompareParams)
    ensures
        compare_layout(p).0 % 8 == 0,
        compare_layout(p).1 % 8 == 0,
{
    let d = p.dst;
    let s = p.src;
    assert(((d & !0x07u64) as u32) % 8 == 0) by (bit_vector);
    assert(((s & !0x07u64) as u32) % 8 == 0) by (bit_vector);
}

proof fn lemma_head_and_tail_are_word_reads(p: DmaCompareParams, ext: Seq<u64>)
    requires
        compare_reads_in_bounds(p, ext),
    ensures
        all_word_reads(p, ext, compare_head_reads(p, ext)),
        all_word_reads(p, ext, compare_tail_reads(p, ext)),
{
    let (dst64, src64, dst_words) = compare_layout(p);
    let dd = ext.subrange(0, dst_words);
    let sd = ext.subrange(dst_words, ext.len() as int);
    lemma_layout_aligned(p);
    let h = compare_head_reads(p, ext);
    if p.pre_count > 0 {
        assert(sd[0] == ext[dst_words + 0]);
        assert(dd[0] == ext[0]);
        assert(is_src_word_read(p, ext, h[0]));
        assert(is_dst_word_read(p, ext, h[1]));
        if p.double_read_pre {
            assert(sd[1] == ext[dst_words + 1]);
            assert(is_src_word_read(p, ext, h[2]));
        }
    }
    assert(all_word_reads(p, ext, h));
    let t = compare_tail_reads(p, ext);
    if p.post_count > 0 {
        let sp = compare_src_tail(p);
        let sum = src64 + p.pre_count + p.loop_count * 8;
        let sdo2 = (sp - src64) / 8;
        let ddo2 = compare_dst_skip(p) + p.loop_count;
        assert(sum % 8 >= 0 && sum % 8 < 8);
        assert(sp >= src64) by {
            vstd::arithmetic::div_mod::lemma_fundamental_div_mod(sum, 8);
            vstd::arithmetic::div_mod::lemma_fundamental_div_mod(src64, 8);
            assert(sp == 8 * (sum / 8));
            assert(src64 == 8 * (src64 / 8));
            assert(sum / 8 >= src64 / 8) by {
                vstd::arithmetic::div_mod::lemma_div_is_ordered(src64, sum, 8);
            }
        }
        assert(src64 + 8 * sdo2 == sp) by {
            vstd::arithmetic::div_mod::lemma_fundamental_div_mod(sum, 8);
            vstd::arithmetic::div_mod::lemma_fundamental_div_mod(src64, 8);
            vstd::arithmetic::div_mod::lemma_fundamental_div_mod_converse(sp - src64, 8, sum / 8 - src64 / 8, 0);
        }
        assert(sd[sdo2] == ext[dst_words + sdo2]);
        assert(dd[ddo2] == ext[ddo2]);
        assert(is_src_word_read(p, ext, t[0]));
        assert(is_dst_word_read(p, ext, t[1]));
        if p.double_read_post {
            assert(sd[sdo2 + 1] == ext[dst_words + (sdo2 + 1)]);
            assert(t[2] == ((src64 + 8 * (sdo2 + 1)) as u32, ext[dst_words + (sdo2 + 1)]));
            assert(is_src_word_read(p, ext, t[2]));
        }
    }
    assert(all_word_reads(p, ext, t));
}

proof fn lemma_whole_words_are_word_reads(p: DmaCompareParams, ext: Seq<u64>)
    requires
        compare_reads_in_bounds(p, ext),
    ensures
        all_word_reads(p, ext, compare_word_reads(p, ext)),
{
    let (dst64, src64, dst_words) = compare_layout(p);
    let dd = ext.subrange(0, dst_words);
    let sd = ext.subrange(dst_words, ext.len() as int);
    let unaligned: int = if p.dst % 8 != p.src % 8 { 1 } else { 0 };
    let sdo = compare_src_skip(p);
    let ddo = compare_dst_skip(p);
    let lc = p.loop_count as int;
    if lc > 0 {
        let a = Seq::new((lc + unaligned) as nat, |i: int| ((src64 + sdo * 8 + 8 * i) as u32, sd[sdo + i]));
        let b = Seq::new(lc as nat, |i: int| ((dst64 + ddo * 8 + 8 * i) as u32, dd[ddo + i]));
        assert forall|i: int| 0 <= i < a.len() implies is_dst_word_read(p, ext, #[trigger] a[i])
            || is_src_word_read(p, ext, a[i]) by {
            assert(sd[sdo + i] == ext[dst_words + (sdo + i)]);
            assert(src64 + sdo * 8 + 8 * i == src64 + 8 * (sdo + i));
        }
        assert forall|i: int| 0 <= i < b.len() implies is_dst_word_read(p, ext, #[trigger] b[i])
            || is_src_word_read(p, ext, b[i]) by {
            assert(dd[ddo + i] == ext[ddo + i]);
            assert(dst64 + ddo * 8 + 8 * i == dst64 + 8 * (ddo + i));
        }
        lemma_all_word_reads_concat(p, ext, a, b);
    }
}

/// Whether `s` holds the read `rd`.
pub open spec fn has_read(s: Seq<(u32, u64)>, rd: (u32, u64)) -> bool {
    exists|i: int| 0 <= i < s.len() && #[trigger] s[i] == rd
}

/// The head reads every word it touches: the first destination word, and each source
/// word `k` that holds one of the head's source bytes `src % 8 .. src % 8 + pre_count`,
/// read at the aligned source address plus `8 * k` with that word's value, when the
/// double-read flag says whether the head crosses into the second source word.
pub proof fn lemma_head_reads_touched_words(p: DmaCompareParams, ext: Seq<u64>)
    requires
        compare_reads_in_bounds(p, ext),
        p.pre_count > 0,
        p.double_read_pre == (p.src % 8 + p.pre_count > 8),
    ensures
        has_read(compare_head_reads(p, ext), (compare_layout(p).0 as u32, ext[0])),
        forall|k: int|
            0 <= k && 8 * k < p.src % 8 + p.pre_count ==> #[trigger] has_read(
                compare_head_reads(p, ext),
                ((compare_layout(p).1 + 8 * k) as u32, ext[compare_layout(p).2 + k]),
            ),
{
    let (dst64, src64, dst_words) = compare_layout(p);
    let h = compare_head_reads(p, ext);
    let sd = ext.subrange(dst_words, ext.len() as int);
    assert(h[1] == (dst64 as u32, ext[0]));
    assert forall|k: int| 0 <= k && 8 * k < p.src % 8 + p.pre_count implies #[trigger] has_read(
        h,
        ((src64 + 8 * k) as u32, ext[dst_words + k]),
    ) by {
        assert(p.src % 8 < 8 && p.pre_count < 8);
        if k == 0 {
            assert(sd[0] == ext[dst_words + 0]);
            assert(h[0] == ((src64 + 8 * k) as u32, ext[dst_words + k]));
        } else {
            assert(k == 1);
            assert(sd[1] == ext[dst_words + 1]);
            assert(h[2] == ((src64 + 8 * k) as u32, ext[dst_words + k]));
        }
    }
}

/// A tail that crosses a source word boundary reads both source words, one after the
/// other: the word after the first one it reads, with that next word's value; and it
/// reads the destination word after the whole words.
pub proof fn lemma_tail_reads_consecutive_words(p: DmaCompareParams, ext: Seq<u64>)
    requires
        compare_reads_in_bounds(p, ext),
        p.post_count > 0,
    ensures
        ({
            let (dst64, src64, dst_words) = compare_layout(p);
            let t = compare_tail_reads(p, ext);
            let j = (t[0].0 - src64) / 8;
            &&& t[0].0 >= src64 && (t[0].0 - src64) % 8 == 0
            &&& t[0].1 == ext[dst_words + j]
            &&& has_read(t, ((dst64 + 8 * (compare_dst_skip(p) + p.loop_count)) as u32, ext[compare_dst_skip(p) + p.loop_count]))
            &&& p.double_read_post ==> has_read(t, ((t[0].0 + 8) as u32, ext[dst_words + j + 1]))
        }),
{
    let (dst64, src64, dst_words) = compare_layout(p);
    lemma_layout_aligned(p);
    let t = compare_tail_reads(p, ext);
    let sd = ext.subrange(dst_words, ext.len() as int);
    let sp = compare_src_tail(p);
    let sum = src64 + p.pre_count + p.loop_count * 8;
    let sdo2 = (sp - src64) / 8;
    vstd::arithmetic::div_mod::lemma_fundamental_div_mod(sum, 8);
    vstd::arithmetic::div_mod::lemma_fundamental_div_mod(src64, 8);
    assert(sp == 8 * (sum / 8));
    assert(sum / 8 >= src64 / 8) by {
        vstd::arithmetic::div_mod::lemma_div_is_ordered(src64, sum, 8);
    }
    vstd::arithmetic::div_mod::lemma_fundamental_div_mod_converse(sp - src64, 8, sum / 8 - src64 / 8, 0);
    assert(t[0] == (sp as u32, sd[sdo2]));
    assert(t[0].0 == sp);
    assert(sd[sdo2] == ext[dst_words + sdo2]);
    let ddo2 = compare_dst_skip(p) + p.loop_count;
    assert(t[1] == ((dst64 + ddo2 * 8) as u32, ext[ddo2]));
    assert(t[1] == ((dst64 + 8 * ddo2) as u32, ext[ddo2]));
    if p.double_read_post {
        assert(sd[sdo2 + 1] == ext[dst_words + sdo2 + 1]);
        assert(t[2] == ((t[0].0 + 8) as u32, ext[dst_words + sdo2 + 1]));
    }
}

/// The reads of a compare are whole, word-aligned words: after the count read, when the
/// count comes from memory, every read is word `k` of the destination (value `ext[k]`)
/// or of the source (value `ext[dst_words + k]`), at the aligned start of that side
/// plus `8 * k`.
pub proof fn lemma_compare_reads_are_words(p: DmaCompareParams, ext: Seq<u64>, extra_addr: u32)
    requires
        compare_reads_in_bounds(p, ext),
    ensures
        compare_layout(p).0 % 8 == 0,
        compare_layout(p).1 % 8 == 0,
        ({
            let r = spec_compare_reads(p, ext, extra_addr);
            let c = compare_count_read(p, extra_addr).len();
            &&& p.load_count_from_mem ==> r[0] == (extra_addr, p.count)
            &&& all_word_reads(p, ext, r.skip(c as int))
        }),
{
    lemma_layout_aligned(p);
    lemma_head_and_tail_are_word_reads(p, ext);
    lemma_whole_words_are_word_reads(p, ext);
    let h = compare_head_reads(p, ext);
    let w = compare_word_reads(p, ext);
    let t = compare_tail_reads(p, ext);
    lemma_all_word_reads_concat(p, ext, h, w);
    lemma_all_word_reads_concat(p, ext, h + w, t);
    let cr = compare_count_read(p, extra_addr);
    let r = spec_compare_reads(p, ext, extra_addr);
    assert(r == cr + (h + w + t)) by {
        assert(r =~= cr + (h + w + t));
    }
    assert(r.skip(cr.len() as int) =~= h + w + t);
}

/// Appends the reads of `n` consecutive words starting at address `addr`, whose values
/// are `vals[start..start + n]`.
fn push_word_reads(out: &mut Vec<(u32, u64)>, addr: u32, vals: &[u64], start: usize, n: usize)
    requires
        start + n <= vals@.len(),
        addr + 8 * n <= u32::MAX,
    ensures
        final(out)@ == old(out)@ + Seq::new(n as nat, |i: int| ((addr + 8 * i) as u32, vals@[start + i])),
{
    let ghost o = old(out)@;
    let vlen = vals.len();
    let mut i: usize = 0;
    let mut a = addr;
    while i < n
        invariant
            i <= n,
            vlen == vals@.len(),
            start + n <= vals@.len(),
            addr + 8 * n <= u32::MAX,
            i < n ==> a == addr + 8 * i,
            out@ == o + Seq::new(i as nat, |k: int| ((addr + 8 * k) as u32, vals@[start + k])),
        decreases n - i,
    {
        out.push((a, vals[start + i]));
        i = i + 1;
        if i < n {
            a = a + 8;
        }
        assert(out@ =~= o + Seq::new(i as nat, |k: int| ((addr + 8 * k) as u32, vals@[start + k])));
    }
}

/// The first aligned destination and source addresses and the destination word count.
fn compare_layout_exec(p: &DmaCompareParams) -> (r: (u32, u32, usize))
    requires
        p.dst % 8 + p.count + 7 <= u64::MAX,
        compare_layout(*p).2 <= usize::MAX,
    ensures
        r.0 == compare_layout(*p).0,
        r.1 == compare_layout(*p).1,
        r.2 == compare_layout(*p).2,
        r.1 % 8 == 0,
{
    let pd = p.dst;
    let ps = p.src;
    assert(pd & 0x07u64 == pd % 8) by (bit_vector);
    assert(((ps & !0x07u64) as u32) % 8 == 0) by (bit_vector);
    let dst64 = #[verifier::truncate] ((pd & !0x07u64) as u32);
    let src64 = #[verifier::truncate] ((ps & !0x07u64) as u32);
    let dst_offset = pd & 0x07u64;
    let dst_words = ((dst_offset + p.count + 7) / 8) as usize;
    (dst64, src64, dst_words)
}

fn push_head_reads(out: &mut Vec<(u32, u64)>, p: &DmaCompareParams, data_ext: &[u64])
    requires
        compare_reads_in_bounds(*p, data_ext@),
    ensures
        final(out)@ == old(out)@ + compare_head_reads(*p, data_ext@),
{
    let ext_len = data_ext.len();
    let (dst64, src64, dst_words) = compare_layout_exec(p);
    let ghost o = out@;
    if p.pre_count > 0 {
        out.push((src64, data_ext[dst_words]));
        out.push((dst64, data_ext[0]));
        if p.double_read_pre {
            out.push((src64 + 8, data_ext[dst_words + 1]));
        }
    }
    assert(out@ =~= o + compare_head_reads(*p, data_ext@));
}

fn push_whole_word_reads(out: &mut Vec<(u32, u64)>, p: &DmaCompareParams, data_ext: &[u64])
    requires
        compare_reads_in_bounds(*p, data_ext@),
    ensures
        final(out)@ == old(out)@ + compare_word_reads(*p, data_ext@),
{
    let ext_len = data_ext.len();
    let (dst64, src64, dst_words) = compare_layout_exec(p);
    let pd = p.dst;
    let ps = p.src;
    assert(pd & 0x07u64 == pd % 8 && ps & 0x07u64 == ps % 8) by (bit_vector);
    let unaligned: usize = if (pd & 0x07u64) != (ps & 0x07u64) { 1 } else { 0 };
    let src_skip: usize = if (ps & 0x07u64) + p.pre_count > 7 { 1 } else { 0 };
    let dst_skip: usize = if p.pre_count > 0 { 1 } else { 0 };
    let dst_data = &data_ext[0..dst_words];
    let src_data = &data_ext[dst_words..data_ext.len()];
    let ghost o = out@;
    let loop_count = p.loop_count;
    if loop_count > 0 {
        push_word_reads(out, src64 + (src_skip as u32) * 8, src_data, src_skip, loop_count + unaligned);
        push_word_reads(out, dst64 + (dst_skip as u32) * 8, dst_data, dst_skip, loop_count);
    }
    assert(out@ =~= o + compare_word_reads(*p, data_ext@));
}

fn push_tail_reads(out: &mut Vec<(u32, u64)>, p: &DmaCompareParams, data_ext: &[u64])
    requires
        compare_reads_in_bounds(*p, data_ext@),
    ensures
        final(out)@ == old(out)@ + compare_tail_reads(*p, data_ext@),
{
    let ext_len = data_ext.len();
    let (dst64, src64, dst_words) = compare_layout_exec(p);
    let dst_skip: usize = if p.pre_count > 0 { 1 } else { 0 };
    let ghost o = out@;
    if p.post_count > 0 {
        let sum = src64 as u64 + p.pre_count + (p.loop_count as u64) * 8;
        assert(sum & !0x07u64 == sum - sum % 8) by (bit_vector);
        let src64_post = (sum & !0x07u64) as u32;
        let src_off = ((src64_post - src64) / 8) as usize;
        let dst_off = dst_skip + p.loop_count;
        let dst64_post = dst64 + (dst_off as u32) * 8;
        out.push((src64_post, data_ext[dst_words + src_off]));
        out.push((dst64_post, data_ext[dst_off]));
        if p.double_read_post {
            out.push((src64_post + 8, data_ext[dst_words + src_off + 1]));
        }
    }
    assert(out@ =~= o + compare_tail_reads(*p, data_ext@));
}

/// Lists the memory reads (address, value) that a DMA compare performs. `data_ext` holds
/// the destination words followed by the source words; `extra_params_addr` is where the
/// count is read from when it comes from memory.
pub fn dma_compare_mem_reads(p: &DmaCompareParams, data_ext: &[u64], extra_params_addr: u32) -> (r: Vec<(u32, u64)>)
    requires
        compare_reads_in_bounds(*p, data_ext@),
    ensures
        r@ == spec_compare_reads(*p, data_ext@, extra_params_addr),
        p.load_count_from_mem ==> r@[0] == (extra_params_addr, p.count),
        all_word_reads(*p, data_ext@, r@.skip(if p.load_count_from_mem { 1int } else { 0int })),
{
    proof {
        lemma_compare_reads_are_words(*p, data_ext@, extra_params_addr);
    }
    let mut out: Vec<(u32, u64)> = Vec::new();
    if p.load_count_from_mem {
        out.push((extra_params_addr, p.count));
    }
    assert(out@ =~= compare_count_read(*p, extra_params_addr));
    push_head_reads(&mut out, p, data_ext);
    push_whole_word_reads(&mut out, p, data_ext);
    push_tail_reads(&mut out, p, data_ext);
    out
}

/// Whether the collectors may skip a DMA compare: the extra parameters address (when the
/// count is read from memory) and the aligned ranges of both sides must all be skipped.
/// `skip_addr` answers for one address, `skip_addr_range` for an inclusive range.
pub fn skip_dma_compare_mem_inputs<F: Fn(u32) -> bool, G: Fn(u32, u32) -> bool>(
    dst: u64,
    src: u64,
    count: u64,
    load_count_from_mem: bool,
    extra_params_addr: u32,
    skip_addr: F,
    skip_addr_range: G,
) -> (r: bool)
    requires
        dst + count + 7 <= u64::MAX,
        src + count + 7 <= u64::MAX,
        skip_addr.requires((extra_params_addr,)),
        forall|a: u32, b: u32| skip_addr_range.requires((a, b)),
    ensures
        r ==> {
            &&& (load_count_from_mem ==> skip_addr.ensures((extra_params_addr,), true))
            &&& skip_addr_range.ensures((((dst as u32) & !0x07u32), (((dst + count + 7) as u64 as u32) & !0x07u32)), true)
            &&& skip_addr_range.ensures((((src as u32) & !0x07u32), (((src + count + 7) as u64 as u32) & !0x07u32)), true)
        },
        !r ==> {
            ||| (load_count_from_mem && skip_addr.ensures((extra_params_addr,), false))
            ||| skip_addr_range.ensures((((dst as u32) & !0x07u32), (((dst + count + 7) as u64 as u32) & !0x07u32)), false)
            ||| skip_addr_range.ensures((((src as u32) & !0x07u32), (((src + count + 7) as u64 as u32) & !0x07u32)), false)
        },
{
    if load_count_from_mem {
        if !skip_addr(extra_params_addr) {
            return false;
        }
    }
    let dst64_from = (#[verifier::truncate] (dst as u32)) & !0x07u32;
    let dst64_to = (#[verifier::truncate] ((dst + count + 7) as u32)) & !0x07u32;
    if !skip_addr_range(dst64_from, dst64_to) {
        return false;
    }
    let src64_from = (#[verifier::truncate] (src as u32)) & !0x07u32;
    let src64_to = (#[verifier::truncate] ((src + count + 7) as u32)) & !0x07u32;
    if !skip_addr_range(src64_from, src64_to) {
        return false;
    }
    true
}

} // verus!
