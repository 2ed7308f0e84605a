//! Compression of serialized asset data.
//!
//! `CompressionMode::Zlib` writes zlib streams (RFC 1950) whose deflate
//! payload (RFC 1951) is made of stored blocks, and reads back zlib streams
//! of any deflate blocks (stored, fixed- or dynamic-Huffman), checking the
//! header and the Adler-32 checksum.
use vstd::prelude::*;

use crate::inflate::{
    BitPos, bit, bits, blocks, code_spec, codes, copy_back, count_len, dbase_tab, decode, decode_from,
    dext_tab, fixed_dist_lens, fixed_lit_lens, has_bits, inflate, lbase_tab, lext_tab, next_byte, p2,
    cl_order, stored, syms_of_len, syms_upto,
};

verus! {

/// Largest payload of one stored deflate block.
pub const MAX_STORED_BLOCK: usize = 65535usize;

/// Modulus of the Adler-32 checksum.
pub const ADLER_MOD: u32 = 65521u32;

/// Specifies the compression algorithm used for compressed asset data.
#[derive(Debug, Clone, Copy, PartialEq, Eq, Structural, PartialOrd)]
#[non_exhaustive]
pub enum CompressionMode {
    /// Zlib compression algorithm
    Zlib,
}

/// The two running sums of Adler-32 after `data`: `(a, b)`.
pub open spec fn adler_sums(data: Seq<u8>) -> (int, int)
    decreases data.len(),
{
    if data.len() == 0 {
        (1, 0)
    } else {
        let (a0, b0) = adler_sums(data.drop_last());
        let a = (a0 + data.last()) % (ADLER_MOD as int);
        (a, (b0 + a) % (ADLER_MOD as int))
    }
}

/// The Adler-32 checksum of `data`.
pub open spec fn adler32(data: Seq<u8>) -> int {
    adler_sums(data).1 * 65536 + adler_sums(data).0
}

/// Big-endian encoding of a value below 2^32.
pub open spec fn be32(x: int) -> Seq<u8> {
    seq![
        (x / 16777216) as u8,
        (x / 65536 % 256) as u8,
        (x / 256 % 256) as u8,
        (x % 256) as u8,
    ]
}

/// Value of a big-endian 4-byte sequence.
pub open spec fn be32_value(s: Seq<u8>) -> int {
    s[0] * 16777216 + s[1] * 65536 + s[2] * 256 + s[3]
}

/// Header of a stored block holding `len` bytes: BFINAL/BTYPE byte, LEN, NLEN.
pub open spec fn stored_header(last: bool, len: int) -> Seq<u8> {
    seq![
        if last { 1u8 } else { 0u8 },
        (len % 256) as u8,
        (len / 256) as u8,
        ((65535 - len) % 256) as u8,
        ((65535 - len) / 256) as u8,
    ]
}

/// The stored blocks that carry `data`: full blocks of 65535 bytes, then a
/// last block with the rest (an empty last block for empty data).
pub open spec fn stored_blocks(data: Seq<u8>) -> Seq<u8>
    decreases data.len(),
{
    if data.len() <= MAX_STORED_BLOCK {
        stored_header(true, data.len() as int) + data
    } else {
        stored_header(false, MAX_STORED_BLOCK as int) + data.take(MAX_STORED_BLOCK as int)
            + stored_blocks(data.skip(MAX_STORED_BLOCK as int))
    }
}

/// The zlib stream that `CompressionMode::Zlib` writes for `data`.
pub open spec fn zlib_encode(data: Seq<u8>) -> Seq<u8> {
    seq![0x78u8, 0x01u8] + stored_blocks(data) + be32(adler32(data))
}

/// Whether the two bytes form a valid zlib header for a deflate stream
/// without a preset dictionary.
pub open spec fn zlib_header_ok(cmf: u8, flg: u8) -> bool {
    &&& cmf % 16 == 8
    &&& cmf / 16 <= 7
    &&& (cmf * 256 + flg) % 31 == 0
    &&& (flg / 32) % 2 == 0
}

/// What `CompressionMode::Zlib` reads back from `s`: the data of the
/// deflate blocks after a valid zlib header, when the Adler-32 checksum in
/// the four bytes after them matches and nothing follows.
pub open spec fn zlib_decode(s: Seq<u8>) -> Option<Seq<u8>> {
    if s.len() < 2 || !zlib_header_ok(s[0], s[1]) {
        None
    } else {
        match blocks(s, 16, seq![]) {
            Some((d, np)) => {
                let rest = s.skip(next_byte(np));
                if rest.len() == 4 && be32_value(rest) == adler32(d) {
                    Some(d)
                } else {
                    None
                }
            },
            None => None,
        }
    }
}

/// What `compress` returns for a mode and input.
pub open spec fn compress_spec(mode: CompressionMode, data: Seq<u8>) -> Option<Seq<u8>> {
    match mode {
        CompressionMode::Zlib => Some(zlib_encode(data)),
    }
}

/// What `decompress` returns for a mode and input.
pub open spec fn decompress_spec(mode: CompressionMode, data: Seq<u8>) -> Option<Seq<u8>> {
    match mode {
        CompressionMode::Zlib => zlib_decode(data),
    }
}

/// The view of an optional byte vector.
pub open spec fn opt_bytes(r: Option<Vec<u8>>) -> Option<Seq<u8>> {
    match r {
        Some(v) => Some(v@),
        None => None,
    }
}

impl CompressionMode {
    /// Compresses the given bytes using this compression algorithm.
    ///
    /// Returns `Some(compressed_bytes)` on successful compression,
    /// or `None` if compression fails.
    pub fn compress(&self, bytes: &[u8]) -> (r: Option<Vec<u8>>)
        ensures
            opt_bytes(r) == compress_spec(*self, bytes@),
    {
        match self {
            CompressionMode::Zlib => Some(zlib_compress(bytes)),
        }
    }

    /// Decompresses the given bytes using this compression algorithm.
    ///
    /// Returns `Some(decompressed_bytes)` on successful decompression,
    /// or `None` if decompression fails or the data is corrupted.
    pub fn decompress(&self, bytes: &[u8]) -> (r: Option<Vec<u8>>)
        ensures
            opt_bytes(r) == decompress_spec(*self, bytes@),
    {
        match self {
            CompressionMode::Zlib => zlib_decompress(bytes),
        }
    }
}

/// Both running sums of Adler-32 stay below the modulus.
pub proof fn lemma_adler_sums_bounded(data: Seq<u8>)
    ensures
        0 <= adler_sums(data).0 < ADLER_MOD,
        0 <= adler_sums(data).1 < ADLER_MOD,
    decreases data.len(),
{
    if data.len() > 0 {
        lemma_adler_sums_bounded(data.drop_last());
    }
}

/// Reading back a big-endian encoding gives the value.
pub proof fn lemma_be32_roundtrip(x: int)
    requires
        0 <= x < 0x1_0000_0000,
    ensures
        be32(x).len() == 4,
        be32_value(be32(x)) == x,
{
    let b0 = x / 16777216;
    let b1 = x / 65536 % 256;
    let b2 = x / 256 % 256;
    let b3 = x % 256;
    assert(0 <= b0 < 256 && 0 <= b1 < 256 && 0 <= b2 < 256 && 0 <= b3 < 256) by (nonlinear_arith)
        requires
            0 <= x < 0x1_0000_0000,
            b0 == x / 16777216,
            b1 == x / 65536 % 256,
            b2 == x / 256 % 256,
            b3 == x % 256,
    ;
    assert(b0 * 16777216 + b1 * 65536 + b2 * 256 + b3 == x) by (nonlinear_arith)
        requires
            0 <= x,
            b0 == x / 16777216,
            b1 == x / 65536 % 256,
            b2 == x / 256 % 256,
            b3 == x % 256,
    ;
}

/// The fields of a stored-block header read back as written.
pub proof fn lemma_stored_header(last: bool, len: int)
    requires
        0 <= len <= 65535,
    ensures
        stored_header(last, len).len() == 5,
        stored_header(last, len)[0] == (if last { 1u8 } else { 0u8 }),
        stored_header(last, len)[1] + 256 * stored_header(last, len)[2] == len,
        stored_header(last, len)[3] + 256 * stored_header(last, len)[4] == 65535 - len,
{
    let n = 65535 - len;
    assert(0 <= len % 256 < 256 && 0 <= len / 256 < 256 && len % 256 + 256 * (len / 256) == len)
        by (nonlinear_arith)
        requires
            0 <= len <= 65535,
    ;
    assert(0 <= n % 256 < 256 && 0 <= n / 256 < 256 && n % 256 + 256 * (n / 256) == n)
        by (nonlinear_arith)
        requires
            0 <= n <= 65535,
    ;
}

/// The three header bits of a stored block whose first byte is `h`
/// (0 or 1): the last-block bit is `h`, the block type is 0.
proof fn lemma_stored_header_bits(s: Seq<u8>, b: int)
    requires
        0 <= b < s.len(),
        s[b] == 0u8 || s[b] == 1u8,
    ensures
        bit(s, 8 * b) == s[b] as int,
        bits(s, 8 * b + 1, 2) == 0,
        next_byte(8 * b + 3) == b + 1,
{
    let h = s[b];
    assert((8 * b) / 8 == b && (8 * b) % 8 == 0) by (nonlinear_arith)
        requires
            0 <= b,
    ;
    assert((8 * b + 1) / 8 == b && (8 * b + 1) % 8 == 1) by (nonlinear_arith)
        requires
            0 <= b,
    ;
    assert((8 * b + 2) / 8 == b && (8 * b + 2) % 8 == 2) by (nonlinear_arith)
        requires
            0 <= b,
    ;
    assert((8 * b + 3 + 7) / 8 == b + 1) by (nonlinear_arith)
        requires
            0 <= b,
    ;
    assert((h >> 0u8) & 1u8 == h) by (bit_vector)
        requires
            h == 0u8 || h == 1u8,
    ;
    assert((h >> 1u8) & 1u8 == 0u8) by (bit_vector)
        requires
            h == 0u8 || h == 1u8,
    ;
    assert((h >> 2u8) & 1u8 == 0u8) by (bit_vector)
        requires
            h == 0u8 || h == 1u8,
    ;
    assert(((8 * b + 1) % 8) as u8 == 1u8);
    assert(((8 * b + 2) % 8) as u8 == 2u8);
    assert(((8 * b) % 8) as u8 == 0u8);
    assert(bit(s, 8 * b + 1) == 0);
    assert(bit(s, 8 * b + 2) == 0);
    assert(p2(0) == 1);
    assert(p2(1) == 2);
    assert(bits(s, 8 * b + 1, 0) == 0);
    assert(bits(s, 8 * b + 1, 1) == bits(s, 8 * b + 1, 0) + bit(s, 8 * b + 1) * p2(0));
    assert(bits(s, 8 * b + 1, 2) == bits(s, 8 * b + 1, 1) + bit(s, 8 * b + 2) * p2(1));
    let x1 = bit(s, 8 * b + 1);
    let x2 = bit(s, 8 * b + 2);
    assert(x1 * p2(0) == 0 && x2 * p2(1) == 0) by (nonlinear_arith)
        requires
            x1 == 0,
            x2 == 0,
    ;
    assert(bits(s, 8 * b + 1, 2) == 0);
}

/// The stored blocks of `data`, at byte `b` of `s`, decode to `data`
/// appended to `out`, ending right after them.
pub proof fn lemma_blocks_stored(s: Seq<u8>, b: int, out: Seq<u8>, data: Seq<u8>)
    requires
        0 <= b,
        b + stored_blocks(data).len() <= s.len(),
        s.subrange(b, b + stored_blocks(data).len()) == stored_blocks(data),
    ensures
        blocks(s, 8 * b, out) == Some((out + data, 8 * (b + stored_blocks(data).len()))),
    decreases data.len(),
{
    let sb = stored_blocks(data);
    let last = data.len() <= MAX_STORED_BLOCK;
    let len: int = if last { data.len() as int } else { MAX_STORED_BLOCK as int };
    let h = stored_header(last, len);
    lemma_stored_header(last, len);
    let chunk = if last { data } else { data.take(MAX_STORED_BLOCK as int) };
    assert(sb.subrange(0, 5) =~= h);
    assert(sb.subrange(5, 5 + len) =~= chunk);
    assert(s[b] == sb[0]);
    assert(s[b + 1] == sb[1] && s[b + 2] == sb[2] && s[b + 3] == sb[3] && s[b + 4] == sb[4]);
    lemma_stored_header_bits(s, b);
    assert(s.subrange(b + 5, b + 5 + len) =~= chunk);
    assert(stored(s, 8 * b + 3, out) == Some((out + chunk, 8 * (b + 5 + len))));
    if last {
        assert(bit(s, 8 * b) == 1);
        assert(sb.len() == 5 + len);
        assert(out + chunk == out + data);
    } else {
        let rest = data.skip(MAX_STORED_BLOCK as int);
        let b2 = b + 5 + len;
        let sr = stored_blocks(rest);
        assert(sb =~= h + chunk + sr);
        assert forall|i: int| 0 <= i < sr.len() implies #[trigger] s.subrange(b2, b2 + sr.len())[i] == sr[i] by {
            assert(s.subrange(b, b + sb.len())[5 + len + i] == s[b + 5 + len + i]);
            assert(sb[5 + len + i] == sr[i]);
        }
        assert(s.subrange(b2, b2 + sr.len()) =~= sr);
        lemma_blocks_stored(s, b2, out + chunk, rest);
        assert(out + chunk + rest =~= out + data);
        assert(bit(s, 8 * b) == 0);
    }
}

/// Decompressing what `CompressionMode::Zlib` compressed gives back the
/// original bytes.
#[verifier::rlimit(40)]
pub proof fn lemma_zlib_roundtrip(data: Seq<u8>)
    ensures
        zlib_decode(zlib_encode(data)) == Some(data),
{
    let sb = stored_blocks(data);
    let k: int = sb.len() as int;
    let sum = adler32(data);
    lemma_adler_sums_bounded(data);
    lemma_be32_roundtrip(sum);
    let s = zlib_encode(data);
    assert(s.subrange(2, 2 + k) =~= sb);
    lemma_blocks_stored(s, 2, seq![], data);
    assert(seq![] + data =~= data);
    assert(next_byte(8 * (2 + k)) == 2 + k) by (nonlinear_arith)
        requires
            k >= 0,
    ;
    assert(s.skip(2 + k) =~= be32(sum));
    assert(zlib_header_ok(s[0], s[1]));
}

/// The symbols of code length `l` below `k`, when exactly the symbols
/// `lo..hi` have that length.
proof fn lemma_syms_range(lens: Seq<u8>, l: int, k: int, lo: int, hi: int)
    requires
        0 <= lo <= hi,
        k <= lens.len(),
        forall|j: int| 0 <= j < lens.len() ==> ((lens[j] == l) <==> (lo <= j < hi)),
    ensures
        syms_of_len(lens, l, k) =~= Seq::new(
            (if k <= lo { 0 } else if k <= hi { k - lo } else { hi - lo }) as nat,
            |i: int| lo + i,
        ),
    decreases k,
{
    if k > 0 {
        lemma_syms_range(lens, l, k - 1, lo, hi);
    }
}

/// The symbols of lengths up to `l` start with those of lengths up to `m`.
proof fn lemma_syms_upto_prefix(lens: Seq<u8>, m: int, l: int, i: int)
    requires
        0 <= m <= l,
        0 <= i < syms_upto(lens, m).len(),
    ensures
        i < syms_upto(lens, l).len(),
        syms_upto(lens, l)[i] == syms_upto(lens, m)[i],
    decreases l - m,
{
    if l > m {
        lemma_syms_upto_prefix(lens, m, l - 1, i);
    }
}

/// The counts and first symbols of the fixed Huffman codes.
proof fn lemma_fixed_code_facts()
    ensures
        code_spec(fixed_lit_lens()).0[1] == 0,
        code_spec(fixed_lit_lens()).0[2] == 0,
        code_spec(fixed_lit_lens()).0[3] == 0,
        code_spec(fixed_lit_lens()).0[4] == 0,
        code_spec(fixed_lit_lens()).0[5] == 0,
        code_spec(fixed_lit_lens()).0[6] == 0,
        code_spec(fixed_lit_lens()).0[7] == 24,
        code_spec(fixed_lit_lens()).1.len() > 1,
        code_spec(fixed_lit_lens()).1[0] == 256,
        code_spec(fixed_lit_lens()).1[1] == 257,
        code_spec(fixed_dist_lens()).0[1] == 0,
        code_spec(fixed_dist_lens()).0[2] == 0,
        code_spec(fixed_dist_lens()).0[3] == 0,
        code_spec(fixed_dist_lens()).0[4] == 0,
        code_spec(fixed_dist_lens()).0[5] == 30,
        code_spec(fixed_dist_lens()).1.len() > 0,
        code_spec(fixed_dist_lens()).1[0] == 0,
{
    let fl = fixed_lit_lens();
    let fd = fixed_dist_lens();
    lemma_syms_range(fl, 1, 288, 0, 0);
    lemma_syms_range(fl, 2, 288, 0, 0);
    lemma_syms_range(fl, 3, 288, 0, 0);
    lemma_syms_range(fl, 4, 288, 0, 0);
    lemma_syms_range(fl, 5, 288, 0, 0);
    lemma_syms_range(fl, 6, 288, 0, 0);
    lemma_syms_range(fl, 7, 288, 256, 280);
    lemma_syms_range(fd, 1, 30, 0, 0);
    lemma_syms_range(fd, 2, 30, 0, 0);
    lemma_syms_range(fd, 3, 30, 0, 0);
    lemma_syms_range(fd, 4, 30, 0, 0);
    lemma_syms_range(fd, 5, 30, 0, 30);
    assert(syms_upto(fl, 0).len() == 0);
    assert(syms_upto(fl, 1).len() == 0);
    assert(syms_upto(fl, 2).len() == 0);
    assert(syms_upto(fl, 3).len() == 0);
    assert(syms_upto(fl, 4).len() == 0);
    assert(syms_upto(fl, 5).len() == 0);
    assert(syms_upto(fl, 6).len() == 0);
    assert(syms_upto(fl, 7) =~= syms_of_len(fl, 7, 288));
    lemma_syms_upto_prefix(fl, 7, 15, 0);
    lemma_syms_upto_prefix(fl, 7, 15, 1);
    assert(syms_upto(fd, 0).len() == 0);
    assert(syms_upto(fd, 1).len() == 0);
    assert(syms_upto(fd, 2).len() == 0);
    assert(syms_upto(fd, 3).len() == 0);
    assert(syms_upto(fd, 4).len() == 0);
    assert(syms_upto(fd, 5) =~= syms_of_len(fd, 5, 30));
    lemma_syms_upto_prefix(fd, 5, 15, 0);
}

/// The bits of the three bytes `03 02 00` at byte `b0` of `s`: bits 0, 1
/// and 9 are set.
proof fn lemma_ref_block_bits(s: Seq<u8>, b0: int)
    requires
        0 <= b0,
        b0 + 3 <= s.len(),
        s[b0] == 3u8,
        s[b0 + 1] == 2u8,
        s[b0 + 2] == 0u8,
    ensures
        forall|k: int|
            0 <= k < 24 ==> #[trigger] bit(s, 8 * b0 + k) == (if k == 0 || k == 1 || k == 9 {
                1int
            } else {
                0int
            }),
{
    assert(forall|m: u8| m < 8 ==> ((3u8 >> m) & 1u8) == (if m < 2 { 1u8 } else { 0u8 })) by (bit_vector);
    assert(forall|m: u8| m < 8 ==> ((2u8 >> m) & 1u8) == (if m == 1 { 1u8 } else { 0u8 })) by (bit_vector);
    assert(forall|m: u8| m < 8 ==> ((0u8 >> m) & 1u8) == 0u8) by (bit_vector);
    assert forall|k: int| 0 <= k < 24 implies #[trigger] bit(s, 8 * b0 + k) == (if k == 0 || k == 1
        || k == 9 {
        1int
    } else {
        0int
    }) by {
        let q = k / 8;
        let m = k % 8;
        assert((8 * b0 + k) / 8 == b0 + q && (8 * b0 + k) % 8 == m && 0 <= m < 8 && 0 <= q < 3
            && k == 8 * q + m) by (nonlinear_arith)
            requires
                0 <= b0,
                0 <= k < 24,
                q == k / 8,
                m == k % 8,
        ;
        let mu = m as u8;
        if q == 0 {
            assert(((3u8 >> mu) & 1u8) == (if mu < 2 { 1u8 } else { 0u8 }));
        } else if q == 1 {
            assert(((2u8 >> mu) & 1u8) == (if mu == 1 { 1u8 } else { 0u8 }));
        } else {
            assert(((0u8 >> mu) & 1u8) == 0u8);
        }
    }
}

/// The codes in the bytes `03 02 00` at byte `b0` of `s`, read with the
/// fixed Huffman codes: the final-block bit and block type 1, length code
/// 257, distance code 0, end-of-block code 256.
proof fn lemma_ref_block_codes(s: Seq<u8>, b0: int)
    requires
        0 <= b0,
        b0 + 3 <= s.len(),
        s[b0] == 3u8,
        s[b0 + 1] == 2u8,
        s[b0 + 2] == 0u8,
    ensures
        bit(s, 8 * b0) == 1,
        bits(s, 8 * b0 + 1, 2) == 1,
        decode(s, 8 * b0 + 3, code_spec(fixed_lit_lens()).0, code_spec(fixed_lit_lens()).1) == Some(
            (257int, 8 * b0 + 10),
        ),
        decode(s, 8 * b0 + 10, code_spec(fixed_dist_lens()).0, code_spec(fixed_dist_lens()).1) == Some(
            (0int, 8 * b0 + 15),
        ),
        decode(s, 8 * b0 + 15, code_spec(fixed_lit_lens()).0, code_spec(fixed_lit_lens()).1) == Some(
            (256int, 8 * b0 + 22),
        ),
{
    let pp = 8 * b0;
    lemma_ref_block_bits(s, b0);
    let fl = code_spec(fixed_lit_lens());
    let fd = code_spec(fixed_dist_lens());
    lemma_fixed_code_facts();
    assert(bit(s, pp + 0) == 1);
    assert(bit(s, pp + 1) == 1);
    assert(bit(s, pp + 2) == 0);
    reveal_with_fuel(p2, 2);
    assert(bits(s, pp + 1, 0) == 0);
    assert(bits(s, pp + 1, 1) == bits(s, pp + 1, 0) + bit(s, pp + 1) * p2(0));
    assert(bits(s, pp + 1, 2) == bits(s, pp + 1, 1) + bit(s, pp + 2) * p2(1));
    assert(bit(s, pp + 1) * p2(0) == 1 && bit(s, pp + 2) * p2(1) == 0) by (nonlinear_arith)
        requires
            bit(s, pp + 1) == 1,
            bit(s, pp + 2) == 0,
            p2(0) == 1,
            p2(1) == 2,
    ;
    assert(bit(s, pp + 3) == 0 && bit(s, pp + 4) == 0 && bit(s, pp + 5) == 0 && bit(s, pp + 6) == 0);
    assert(bit(s, pp + 7) == 0 && bit(s, pp + 8) == 0 && bit(s, pp + 9) == 1);
    assert(decode_from(s, pp + 9, fl.0, fl.1, 7, 0, 0, 0) == Some((257int, pp + 10)));
    assert(decode_from(s, pp + 8, fl.0, fl.1, 6, 0, 0, 0) == Some((257int, pp + 10)));
    assert(decode_from(s, pp + 7, fl.0, fl.1, 5, 0, 0, 0) == Some((257int, pp + 10)));
    assert(decode_from(s, pp + 6, fl.0, fl.1, 4, 0, 0, 0) == Some((257int, pp + 10)));
    assert(decode_from(s, pp + 5, fl.0, fl.1, 3, 0, 0, 0) == Some((257int, pp + 10)));
    assert(decode_from(s, pp + 4, fl.0, fl.1, 2, 0, 0, 0) == Some((257int, pp + 10)));
    assert(decode_from(s, pp + 3, fl.0, fl.1, 1, 0, 0, 0) == Some((257int, pp + 10)));
    assert(bit(s, pp + 10) == 0 && bit(s, pp + 11) == 0 && bit(s, pp + 12) == 0);
    assert(bit(s, pp + 13) == 0 && bit(s, pp + 14) == 0);
    assert(decode_from(s, pp + 14, fd.0, fd.1, 5, 0, 0, 0) == Some((0int, pp + 15)));
    assert(decode_from(s, pp + 13, fd.0, fd.1, 4, 0, 0, 0) == Some((0int, pp + 15)));
    assert(decode_from(s, pp + 12, fd.0, fd.1, 3, 0, 0, 0) == Some((0int, pp + 15)));
    assert(decode_from(s, pp + 11, fd.0, fd.1, 2, 0, 0, 0) == Some((0int, pp + 15)));
    assert(decode_from(s, pp + 10, fd.0, fd.1, 1, 0, 0, 0) == Some((0int, pp + 15)));
    assert(bit(s, pp + 15) == 0 && bit(s, pp + 16) == 0 && bit(s, pp + 17) == 0 && bit(s, pp + 18) == 0);
    assert(bit(s, pp + 19) == 0 && bit(s, pp + 20) == 0 && bit(s, pp + 21) == 0);
    assert(decode_from(s, pp + 21, fl.0, fl.1, 7, 0, 0, 0) == Some((256int, pp + 22)));
    assert(decode_from(s, pp + 20, fl.0, fl.1, 6, 0, 0, 0) == Some((256int, pp + 22)));
    assert(decode_from(s, pp + 19, fl.0, fl.1, 5, 0, 0, 0) == Some((256int, pp + 22)));
    assert(decode_from(s, pp + 18, fl.0, fl.1, 4, 0, 0, 0) == Some((256int, pp + 22)));
    assert(decode_from(s, pp + 17, fl.0, fl.1, 3, 0, 0, 0) == Some((256int, pp + 22)));
    assert(decode_from(s, pp + 16, fl.0, fl.1, 2, 0, 0, 0) == Some((256int, pp + 22)));
    assert(decode_from(s, pp + 15, fl.0, fl.1, 1, 0, 0, 0) == Some((256int, pp + 22)));
}

/// The final fixed-Huffman block `03 02 00` at the end of `s`, at byte `b0`,
/// appends three copies of the last byte of the output before it.
proof fn lemma_ref_block(s: Seq<u8>, b0: int, h: Seq<u8>)
    requires
        0 <= b0,
        b0 + 3 == s.len(),
        s[b0] == 3u8,
        s[b0 + 1] == 2u8,
        s[b0 + 2] == 0u8,
        h.len() >= 1,
    ensures
        blocks(s, 8 * b0, h) == Some((h + seq![h.last(), h.last(), h.last()], 8 * b0 + 22)),
{
    let pp = 8 * b0;
    let fl = code_spec(fixed_lit_lens());
    let fd = code_spec(fixed_dist_lens());
    lemma_ref_block_codes(s, b0);
    crate::inflate::law_length_distance_codes();
    let l = h.last();
    let c = copy_back(h, 1, 3);
    reveal_with_fuel(copy_back, 4);
    assert(c =~= h + seq![l, l, l]);
    assert(bits(s, pp + 10, 0) == 0 && bits(s, pp + 15, 0) == 0);
    assert(lext_tab()[0] == 0 && lbase_tab()[0] == 3 && dext_tab()[0] == 0 && dbase_tab()[0] == 1);
    assert(codes(s, pp + 15, c, fl, fd) == Some((c, pp + 22)));
    assert(codes(s, pp + 3, h, fl, fd) == Some((c, pp + 22)));
}

/// Law: back references reach across block boundaries. A non-final stored
/// block carrying `d`, followed by a final fixed-Huffman block holding one
/// back reference of length 3 at distance 1 (the bytes `03 02 00`), decodes
/// to whatever output came before, then `d`, then three copies of the last
/// byte of `d`: the reference copies from the earlier block's output.
pub proof fn law_back_reference_across_blocks(out: Seq<u8>, d: Seq<u8>)
    requires
        1 <= d.len() <= 65535,
    ensures
        blocks(stored_header(false, d.len() as int) + d + seq![3u8, 2u8, 0u8], 0, out) == Some(
            (out + d + seq![d.last(), d.last(), d.last()], 8 * (5 + d.len() as int) + 22),
        ),
{
    let n = d.len() as int;
    let s = stored_header(false, n) + d + seq![3u8, 2u8, 0u8];
    let b0 = 5 + n;
    let pp = 8 * b0;
    let h = out + d;
    lemma_stored_header(false, n);
    assert(s.len() == n + 8);
    assert(s[0] == 0u8 && s[1] == stored_header(false, n)[1] && s[2] == stored_header(false, n)[2]);
    assert(s[3] == stored_header(false, n)[3] && s[4] == stored_header(false, n)[4]);
    assert(s[b0] == 3u8 && s[b0 + 1] == 2u8 && s[b0 + 2] == 0u8);
    lemma_stored_header_bits(s, 0);
    assert(s.subrange(5, 5 + n) =~= d);
    assert(stored(s, 3, out) == Some((h, pp)));
    lemma_ref_block(s, b0, h);
    assert(h.last() == d.last());
    assert(h + seq![d.last(), d.last(), d.last()] =~= out + d + seq![d.last(), d.last(), d.last()]);
}

/// The symbols of code length `l` below `k`, when exactly the symbols
/// `lo1..hi1` and `lo2..hi2` have that length.
proof fn lemma_syms_two_ranges(lens: Seq<u8>, l: int, k: int, lo1: int, hi1: int, lo2: int, hi2: int)
    requires
        0 <= lo1 <= hi1 <= lo2 <= hi2,
        hi1 <= k <= lens.len(),
        forall|j: int| 0 <= j < lens.len() ==> ((lens[j] == l) <==> (lo1 <= j < hi1 || lo2 <= j < hi2)),
    ensures
        syms_of_len(lens, l, k) =~= Seq::new((hi1 - lo1) as nat, |i: int| lo1 + i) + Seq::new(
            (if k <= lo2 { 0 } else if k <= hi2 { k - lo2 } else { hi2 - lo2 }) as nat,
            |i: int| lo2 + i,
        ),
    decreases k,
{
    if k > hi1 {
        lemma_syms_two_ranges(lens, l, k - 1, lo1, hi1, lo2, hi2);
    } else {
        lemma_syms_prefix_only(lens, l, k, lo1, hi1, lo2, hi2);
    }
}

/// Below `hi1`, only the first range counts.
proof fn lemma_syms_prefix_only(lens: Seq<u8>, l: int, k: int, lo1: int, hi1: int, lo2: int, hi2: int)
    requires
        0 <= lo1 <= hi1 <= lo2 <= hi2,
        0 <= k <= hi1,
        k <= lens.len(),
        forall|j: int| 0 <= j < lens.len() ==> ((lens[j] == l) <==> (lo1 <= j < hi1 || lo2 <= j < hi2)),
    ensures
        syms_of_len(lens, l, k) =~= Seq::new((if k <= lo1 { 0 } else { k - lo1 }) as nat, |i: int| lo1 + i),
    decreases k,
{
    if k > 0 {
        lemma_syms_prefix_only(lens, l, k - 1, lo1, hi1, lo2, hi2);
    }
}

/// The number of leading bits of a code: the `n` bits from `pos`, the first
/// bit most significant (the order in which Huffman codes are packed).
pub open spec fn msb_bits(s: Seq<u8>, pos: int, n: nat) -> int
    decreases n,
{
    if n == 0 {
        0
    } else {
        2 * msb_bits(s, pos, (n - 1) as nat) + bit(s, pos + n - 1)
    }
}

/// The fixed literal/length code of symbol `v` and its length, as listed in
/// RFC 1951 section 3.2.6: 0-143 are `00110000`-`10111111`, 144-255 are
/// `110010000`-`111111111`, 256-279 are `0000000`-`0010111`, 280-287 are
/// `11000000`-`11000111`.
pub open spec fn rfc_fixed_code(v: int) -> (int, int) {
    if v < 144 {
        (0x30 + v, 8)
    } else if v < 256 {
        (0x190 + (v - 144), 9)
    } else if v < 280 {
        (v - 256, 7)
    } else {
        (0xc0 + (v - 280), 8)
    }
}

/// The symbols of the fixed literal/length code, in code order.
proof fn lemma_fixed_lit_syms()
    ensures
        code_spec(fixed_lit_lens()).0[7] == 24,
        code_spec(fixed_lit_lens()).0[8] == 152,
        code_spec(fixed_lit_lens()).0[9] == 112,
        code_spec(fixed_lit_lens()).1.len() >= 288,
        forall|i: int| 0 <= i < 24 ==> code_spec(fixed_lit_lens()).1[i] == 256 + i,
        forall|i: int| 24 <= i < 168 ==> #[trigger] code_spec(fixed_lit_lens()).1[i] == i - 24,
        forall|i: int| 168 <= i < 176 ==> #[trigger] code_spec(fixed_lit_lens()).1[i] == i + 112,
        forall|i: int| 176 <= i < 288 ==> #[trigger] code_spec(fixed_lit_lens()).1[i] == i - 32,
{
    let fl = fixed_lit_lens();
    lemma_fixed_code_facts();
    lemma_syms_range(fl, 7, 288, 256, 280);
    lemma_syms_two_ranges(fl, 8, 288, 0, 144, 280, 288);
    lemma_syms_range(fl, 9, 288, 144, 256);
    lemma_syms_range(fl, 1, 288, 0, 0);
    lemma_syms_range(fl, 2, 288, 0, 0);
    lemma_syms_range(fl, 3, 288, 0, 0);
    lemma_syms_range(fl, 4, 288, 0, 0);
    lemma_syms_range(fl, 5, 288, 0, 0);
    lemma_syms_range(fl, 6, 288, 0, 0);
    assert(fl.len() == 288);
    assert(syms_upto(fl, 0).len() == 0);
    assert(syms_upto(fl, 1).len() == 0);
    assert(syms_upto(fl, 2).len() == 0);
    assert(syms_upto(fl, 3).len() == 0);
    assert(syms_upto(fl, 4).len() == 0);
    assert(syms_upto(fl, 5).len() == 0);
    assert(syms_upto(fl, 6).len() == 0);
    assert(syms_upto(fl, 6) =~= Seq::<int>::empty());
    assert(syms_upto(fl, 7) =~= syms_of_len(fl, 7, 288));
    assert(syms_upto(fl, 8) =~= syms_of_len(fl, 7, 288) + syms_of_len(fl, 8, 288));
    let s9 = syms_upto(fl, 9);
    assert(s9 =~= syms_of_len(fl, 7, 288) + syms_of_len(fl, 8, 288) + syms_of_len(fl, 9, 288));
    assert(s9.len() == 288);
    lemma_syms_upto_prefix(fl, 9, 15, 287);
    assert forall|i: int| 0 <= i < 288 implies #[trigger] syms_upto(fl, 15)[i] == s9[i] by {
        lemma_syms_upto_prefix(fl, 9, 15, i);
    }
}

/// Law: the fixed literal/length code decodes as RFC 1951 section 3.2.6
/// lists it: whenever the bits at `pos` start with the listed code of a
/// symbol `v`, decoding with the fixed code gives `v` and the position after
/// its code.
pub proof fn law_fixed_literal_codes(s: Seq<u8>, pos: int, v: int)
    requires
        0 <= v < 288,
        has_bits(s, pos, rfc_fixed_code(v).1),
        msb_bits(s, pos, rfc_fixed_code(v).1 as nat) == rfc_fixed_code(v).0,
    ensures
        decode(s, pos, code_spec(fixed_lit_lens()).0, code_spec(fixed_lit_lens()).1) == Some(
            (v, pos + rfc_fixed_code(v).1),
        ),
{
    let fl = code_spec(fixed_lit_lens());
    let n = rfc_fixed_code(v).1;
    let c = rfc_fixed_code(v).0;
    lemma_fixed_lit_syms();
    lemma_fixed_code_facts();
    lemma_msb_bits_prefixes(s, pos, n as nat);
    let m1 = msb_bits(s, pos, 1);
    let m2 = msb_bits(s, pos, 2);
    let m3 = msb_bits(s, pos, 3);
    let m4 = msb_bits(s, pos, 4);
    let m5 = msb_bits(s, pos, 5);
    let m6 = msb_bits(s, pos, 6);
    let m7 = msb_bits(s, pos, 7);
    if n == 7 {
        assert(decode_from(s, pos + 6, fl.0, fl.1, 7, 2 * m6, 0, 0) == Some((v, pos + 7)));
    } else if n == 8 {
        let m8 = msb_bits(s, pos, 8);
        assert(m7 == m8 / 2);
        assert(m7 >= 24);
        assert(decode_from(s, pos + 7, fl.0, fl.1, 8, 2 * m7, 48, 24) == Some((v, pos + 8)));
        assert(decode_from(s, pos + 6, fl.0, fl.1, 7, 2 * m6, 0, 0) == Some((v, pos + 8)));
    } else {
        let m8 = msb_bits(s, pos, 8);
        let m9 = msb_bits(s, pos, 9);
        assert(m8 == m9 / 2 && m7 == m8 / 2);
        assert(m8 >= 200 && m7 >= 100);
        assert(decode_from(s, pos + 8, fl.0, fl.1, 9, 2 * m8, 400, 176) == Some((v, pos + 9)));
        assert(decode_from(s, pos + 7, fl.0, fl.1, 8, 2 * m7, 48, 24) == Some((v, pos + 9)));
        assert(decode_from(s, pos + 6, fl.0, fl.1, 7, 2 * m6, 0, 0) == Some((v, pos + 9)));
    }
    assert(decode_from(s, pos + 5, fl.0, fl.1, 6, 2 * m5, 0, 0) == Some((v, pos + n)));
    assert(decode_from(s, pos + 4, fl.0, fl.1, 5, 2 * m4, 0, 0) == Some((v, pos + n)));
    assert(decode_from(s, pos + 3, fl.0, fl.1, 4, 2 * m3, 0, 0) == Some((v, pos + n)));
    assert(decode_from(s, pos + 2, fl.0, fl.1, 3, 2 * m2, 0, 0) == Some((v, pos + n)));
    assert(decode_from(s, pos + 1, fl.0, fl.1, 2, 2 * m1, 0, 0) == Some((v, pos + n)));
    assert(msb_bits(s, pos, 0) == 0);
    assert(m1 == bit(s, pos));
    assert(decode_from(s, pos, fl.0, fl.1, 1, 0, 0, 0) == Some((v, pos + n)));
}

/// Law: the fixed distance code decodes as RFC 1951 section 3.2.6 lists
/// it: whenever the five bits at `pos` are the number `v` (most significant
/// first), decoding with the fixed distance code gives distance code `v`.
pub proof fn law_fixed_distance_codes(s: Seq<u8>, pos: int, v: int)
    requires
        0 <= v < 30,
        has_bits(s, pos, 5),
        msb_bits(s, pos, 5) == v,
    ensures
        decode(s, pos, code_spec(fixed_dist_lens()).0, code_spec(fixed_dist_lens()).1) == Some((v, pos + 5)),
{
    let fd = code_spec(fixed_dist_lens());
    let dl = fixed_dist_lens();
    lemma_fixed_code_facts();
    lemma_syms_range(dl, 5, 30, 0, 30);
    lemma_syms_range(dl, 1, 30, 0, 0);
    lemma_syms_range(dl, 2, 30, 0, 0);
    lemma_syms_range(dl, 3, 30, 0, 0);
    lemma_syms_range(dl, 4, 30, 0, 0);
    assert(syms_upto(dl, 0).len() == 0);
    assert(syms_upto(dl, 1).len() == 0);
    assert(syms_upto(dl, 2).len() == 0);
    assert(syms_upto(dl, 3).len() == 0);
    assert(syms_upto(dl, 4) =~= Seq::<int>::empty());
    assert(syms_upto(dl, 5) =~= syms_of_len(dl, 5, 30));
    lemma_syms_upto_prefix(dl, 5, 15, v);
    assert(fd.1[v] == v);
    lemma_msb_bits_prefixes(s, pos, 5);
    let m1 = msb_bits(s, pos, 1);
    let m2 = msb_bits(s, pos, 2);
    let m3 = msb_bits(s, pos, 3);
    let m4 = msb_bits(s, pos, 4);
    assert(decode_from(s, pos + 4, fd.0, fd.1, 5, 2 * m4, 0, 0) == Some((v, pos + 5)));
    assert(decode_from(s, pos + 3, fd.0, fd.1, 4, 2 * m3, 0, 0) == Some((v, pos + 5)));
    assert(decode_from(s, pos + 2, fd.0, fd.1, 3, 2 * m2, 0, 0) == Some((v, pos + 5)));
    assert(decode_from(s, pos + 1, fd.0, fd.1, 2, 2 * m1, 0, 0) == Some((v, pos + 5)));
    assert(msb_bits(s, pos, 0) == 0);
    assert(m1 == bit(s, pos));
    assert(decode_from(s, pos, fd.0, fd.1, 1, 0, 0, 0) == Some((v, pos + 5)));
}

/// The leading bits of a code are non-negative and each prefix is half the
/// next one, rounded down.
proof fn lemma_msb_bits_prefixes(s: Seq<u8>, pos: int, n: nat)
    ensures
        forall|k: nat| k <= n ==> msb_bits(s, pos, k) >= 0,
        forall|k: nat| 0 < k <= n ==> #[trigger] msb_bits(s, pos, (k - 1) as nat) == msb_bits(s, pos, k) / 2,
    decreases n,
{
    if n > 0 {
        lemma_msb_bits_prefixes(s, pos, (n - 1) as nat);
        crate::inflate::lemma_bit_is_bit(s, pos + n - 1);
        assert(msb_bits(s, pos, (n - 1) as nat) >= 0);
        assert(msb_bits(s, pos, n) == 2 * msb_bits(s, pos, (n - 1) as nat) + bit(s, pos + n - 1));
        assert(msb_bits(s, pos, (n - 1) as nat) == msb_bits(s, pos, n) / 2);
    }
}

/// Law: a final stored block (RFC 1951 section 3.2.4) decodes to the bytes
/// it carries: the header bits `1`, `00` in the first byte, then LEN and its
/// one's complement NLEN, two bytes each with the low byte first, then the
/// LEN bytes; decoding ends after them.
pub proof fn law_stored_block(out: Seq<u8>, d: Seq<u8>)
    requires
        d.len() <= 65535,
    ensures
        blocks(
            seq![
                1u8,
                (d.len() % 256) as u8,
                (d.len() / 256) as u8,
                ((65535 - d.len()) % 256) as u8,
                ((65535 - d.len()) / 256) as u8,
            ] + d,
            0,
            out,
        ) == Some((out + d, 8 * (5 + d.len() as int))),
{
    let n = d.len() as int;
    let hd = seq![
        1u8,
        (d.len() % 256) as u8,
        (d.len() / 256) as u8,
        ((65535 - d.len()) % 256) as u8,
        ((65535 - d.len()) / 256) as u8,
    ];
    assert(hd =~= stored_header(true, n));
    assert(stored_blocks(d) == stored_header(true, n) + d);
    let s = hd + d;
    assert(s.subrange(0, stored_blocks(d).len() as int) =~= stored_blocks(d));
    lemma_stored_header(true, n);
    lemma_blocks_stored(s, 0, out, d);
}

/// Law: the code lengths of the code length alphabet are stored in the
/// order RFC 1951 section 3.2.7 lists: 16, 17, 18, 0, 8, 7, 9, 6, 10, 5,
/// 11, 4, 12, 3, 13, 2, 14, 1, 15 (each of the 19 symbols once).
pub proof fn law_code_length_order()
    ensures
        cl_order().len() == 19,
        cl_order()[0] == 16 && cl_order()[1] == 17 && cl_order()[2] == 18 && cl_order()[3] == 0,
        cl_order()[4] == 8 && cl_order()[5] == 7 && cl_order()[6] == 9 && cl_order()[7] == 6,
        cl_order()[8] == 10 && cl_order()[9] == 5 && cl_order()[10] == 11 && cl_order()[11] == 4,
        cl_order()[12] == 12 && cl_order()[13] == 3 && cl_order()[14] == 13 && cl_order()[15] == 2,
        cl_order()[16] == 14 && cl_order()[17] == 1 && cl_order()[18] == 15,
{
}

/// `1` plus the sum of the bytes of `d` (no modulus).
pub open spec fn byte_sum_plus_one(d: Seq<u8>) -> int
    decreases d.len(),
{
    if d.len() == 0 {
        1
    } else {
        byte_sum_plus_one(d.drop_last()) + d.last()
    }
}

/// The sum of `byte_sum_plus_one` over the non-empty prefixes of `d` (no
/// modulus).
pub open spec fn prefix_sums(d: Seq<u8>) -> int
    decreases d.len(),
{
    if d.len() == 0 {
        0
    } else {
        prefix_sums(d.drop_last()) + byte_sum_plus_one(d)
    }
}

/// Law: the checksum is Adler-32 as RFC 1950 section 8.2 defines it: with
/// `s1 = 1 + D1 + ... + Dn` and `s2 = (1 + D1) + (1 + D1 + D2) + ... +
/// (1 + D1 + ... + Dn)`, both taken modulo 65521, the checksum is
/// `s2 * 65536 + s1`.
pub proof fn law_adler32(d: Seq<u8>)
    ensures
        adler32(d) == (prefix_sums(d) % 65521) * 65536 + byte_sum_plus_one(d) % 65521,
{
    lemma_adler_sums_by_sums(d);
}

proof fn lemma_adler_sums_by_sums(d: Seq<u8>)
    ensures
        adler_sums(d).0 == byte_sum_plus_one(d) % 65521,
        adler_sums(d).1 == prefix_sums(d) % 65521,
    decreases d.len(),
{
    if d.len() > 0 {
        let p = d.drop_last();
        lemma_adler_sums_by_sums(p);
        let x = d.last() as int;
        vstd::arithmetic::div_mod::lemma_small_mod(x as nat, 65521);
        vstd::arithmetic::div_mod::lemma_add_mod_noop(byte_sum_plus_one(p), x, 65521);
        vstd::arithmetic::div_mod::lemma_add_mod_noop(prefix_sums(p), byte_sum_plus_one(d), 65521);
        vstd::arithmetic::div_mod::lemma_mod_twice(byte_sum_plus_one(d), 65521);
    }
}

/// Law: the zlib header check is that of RFC 1950 section 2.2: the
/// compression method (low four bits of CMF) is 8, the window size field
/// (high four bits) is at most 7, `CMF * 256 + FLG` is a multiple of 31, and
/// no preset dictionary is announced (bit 5 of FLG clear).
pub proof fn law_zlib_header(cmf: u8, flg: u8)
    ensures
        zlib_header_ok(cmf, flg) <==> ((cmf & 0x0fu8) == 8u8 && (cmf >> 4u8) <= 7u8 && (cmf as int * 256
            + flg as int) % 31 == 0 && (flg & 0x20u8) == 0u8),
{
    assert((cmf & 0x0fu8) == cmf % 16) by (bit_vector);
    assert((cmf >> 4u8) == cmf / 16) by (bit_vector);
    assert(((flg & 0x20u8) == 0u8) <==> ((flg / 32) % 2 == 0)) by (bit_vector);
}

/// Law: a back reference of length `n` at distance `dist` appends `n`
/// bytes, each equal to the byte `dist` positions before it in the output,
/// so a reference may overlap the bytes it is copying.
pub proof fn law_copy_back(out: Seq<u8>, dist: int, n: nat)
    requires
        1 <= dist <= out.len(),
    ensures
        copy_back(out, dist, n).len() == out.len() + n,
        copy_back(out, dist, n).subrange(0, out.len() as int) == out,
        forall|k: int|
            out.len() <= k < out.len() + n ==> #[trigger] copy_back(out, dist, n)[k] == copy_back(
                out,
                dist,
                n,
            )[k - dist],
    decreases n,
{
    if n > 0 {
        let o2 = out.push(out[out.len() - dist]);
        law_copy_back(o2, dist, (n - 1) as nat);
        let r = copy_back(out, dist, n);
        assert(r == copy_back(o2, dist, (n - 1) as nat));
        assert(r.subrange(0, o2.len() as int) == o2);
        assert(r.subrange(0, out.len() as int) =~= out) by {
            assert forall|i: int| 0 <= i < out.len() implies r.subrange(0, out.len() as int)[i] == out[i] by {
                assert(r.subrange(0, o2.len() as int)[i] == o2[i]);
            }
        }
        assert forall|k: int| out.len() <= k < out.len() + n implies #[trigger] r[k] == r[k - dist] by {
            if k == out.len() {
                assert(r.subrange(0, o2.len() as int)[k] == o2[k]);
                assert(r.subrange(0, o2.len() as int)[k - dist] == o2[k - dist]);
            }
        }
    } else {
        assert(out.subrange(0, out.len() as int) =~= out);
    }
}

/// Law: decompressing the output of `compress` with the same mode gives back
/// the input.
pub proof fn law_decompress_compress(mode: CompressionMode, data: Seq<u8>)
    ensures
        compress_spec(mode, data) matches Some(c) && decompress_spec(mode, c) == Some(data),
{
    match mode {
        CompressionMode::Zlib => lemma_zlib_roundtrip(data),
    }
}

/// Computes the Adler-32 checksum of `data`.
pub fn adler32_checksum(data: &[u8]) -> (r: u32)
    ensures
        r == adler32(data@),
{
    let mut a: u32 = 1;
    let mut b: u32 = 0;
    let mut i: usize = 0;
    while i < data.len()
        invariant
            i <= data@.len(),
            (a as int, b as int) == adler_sums(data@.take(i as int)),
            a < ADLER_MOD,
            b < ADLER_MOD,
        decreases data@.len() - i,
    {
        assert(data@.take(i + 1).drop_last() =~= data@.take(i as int));
        a = (a + data[i] as u32) % ADLER_MOD;
        b = (b + a) % ADLER_MOD;
        i = i + 1;
    }
    assert(data@.take(data@.len() as int) =~= data@);
    b * 65536 + a
}

/// Appends the big-endian bytes of `x`.
fn push_be32(out: &mut Vec<u8>, x: u32)
    ensures
        final(out)@ == old(out)@ + be32(x as int),
{
    out.push((x / 16777216) as u8);
    out.push((x / 65536 % 256) as u8);
    out.push((x / 256 % 256) as u8);
    out.push((x % 256) as u8);
    assert(final(out)@ =~= old(out)@ + be32(x as int));
}

/// Appends a stored-block header for `len` bytes.
fn push_stored_header(out: &mut Vec<u8>, last: bool, len: usize)
    requires
        len <= MAX_STORED_BLOCK,
    ensures
        final(out)@ == old(out)@ + stored_header(last, len as int),
{
    let nlen: usize = 65535 - len;
    out.push(if last { 1u8 } else { 0u8 });
    out.push((len % 256) as u8);
    out.push((len / 256) as u8);
    out.push((nlen % 256) as u8);
    out.push((nlen / 256) as u8);
    assert(final(out)@ =~= old(out)@ + stored_header(last, len as int));
}

/// Appends `data[from..to]`.
fn push_range(out: &mut Vec<u8>, data: &[u8], from: usize, to: usize)
    requires
        from <= to <= data@.len(),
    ensures
        final(out)@ == old(out)@ + data@.subrange(from as int, to as int),
{
    let mut i = from;
    while i < to
        invariant
            from <= i <= to <= data@.len(),
            out@ == old(out)@ + data@.subrange(from as int, i as int),
        decreases to - i,
    {
        out.push(data[i]);
        i = i + 1;
        assert(out@ =~= old(out)@ + data@.subrange(from as int, i as int));
    }
}

/// Writes the zlib stream of stored blocks that carries `data`.
pub fn zlib_compress(data: &[u8]) -> (r: Vec<u8>)
    ensures
        r@ == zlib_encode(data@),
{
    let mut out: Vec<u8> = Vec::new();
    out.push(0x78u8);
    out.push(0x01u8);
    let n = data.len();
    let mut pos: usize = 0;
    assert(data@.skip(0) =~= data@);
    loop
        invariant_except_break
            n == data@.len(),
            pos <= n,
            out@ + stored_blocks(data@.skip(pos as int)) == seq![0x78u8, 0x01u8] + stored_blocks(
                data@,
            ),
        ensures
            out@ == seq![0x78u8, 0x01u8] + stored_blocks(data@),
        decreases n - pos,
    {
        let ghost rest = data@.skip(pos as int);
        if n - pos <= MAX_STORED_BLOCK {
            push_stored_header(&mut out, true, n - pos);
            push_range(&mut out, data, pos, n);
            assert(data@.subrange(pos as int, n as int) =~= rest);
            assert(out@ =~= seq![0x78u8, 0x01u8] + stored_blocks(data@));
            break;
        } else {
            let ghost before = out@;
            push_stored_header(&mut out, false, MAX_STORED_BLOCK);
            push_range(&mut out, data, pos, pos + MAX_STORED_BLOCK);
            assert(data@.subrange(pos as int, pos + MAX_STORED_BLOCK) =~= rest.take(
                MAX_STORED_BLOCK as int,
            ));
            assert(rest.skip(MAX_STORED_BLOCK as int) =~= data@.skip(pos + MAX_STORED_BLOCK));
            pos = pos + MAX_STORED_BLOCK;
            assert(out@ + stored_blocks(data@.skip(pos as int)) =~= before + stored_blocks(rest));
        }
    }
    let checksum = adler32_checksum(data);
    push_be32(&mut out, checksum);
    out
}

/// Reads back the data of a zlib stream: `None` if the header, a block,
/// the checksum or the length of the stream is wrong.
pub fn zlib_decompress(s: &[u8]) -> (r: Option<Vec<u8>>)
    ensures
        opt_bytes(r) == zlib_decode(s@),
{
    let n = s.len();
    if n < 2 {
        return None;
    }
    let cmf = s[0];
    let flg = s[1];
    let header_sum: u32 = cmf as u32 * 256 + flg as u32;
    if !(cmf % 16 == 8 && cmf / 16 <= 7 && header_sum % 31 == 0 && (flg / 32) % 2 == 0) {
        return None;
    }
    let (out, q) = match inflate(s, BitPos { byte: 2, bit: 0 }) {
        None => {
            return None;
        },
        Some(x) => x,
    };
    let end: usize = if q.bit == 0 { q.byte } else { q.byte + 1 };
    assert(end as int == next_byte(q.at())) by (nonlinear_arith)
        requires
            q.bit < 8,
            end == (if q.bit == 0 { q.byte as int } else { q.byte + 1 }),
    ;
    if n - end != 4 {
        return None;
    }
    let stored: u32 = s[end] as u32 * 16777216 + s[end + 1] as u32 * 65536 + s[end + 2] as u32 * 256
        + s[end + 3] as u32;
    let checksum = adler32_checksum(out.as_slice());
    let ghost rest = s@.skip(end as int);
    assert(rest[0] == s@[end as int] && rest[1] == s@[end + 1] && rest[2] == s@[end + 2] && rest[3]
        == s@[end + 3]);
    if stored != checksum {
        return None;
    }
    Some(out)
}

} // verus!
