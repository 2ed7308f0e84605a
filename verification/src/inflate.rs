//! Decoding of deflate streams (RFC 1951): stored, fixed-Huffman and
//! dynamic-Huffman blocks.
//!
//! The specification reads the stream as a sequence of bits, least
//! significant bit of each byte first, and follows the decoding procedure of
//! the RFC: canonical Huffman codes built from code lengths, decoded one bit
//! at a time; length and distance codes with their extra bits; back
//! references copied byte by byte.
use vstd::prelude::*;

verus! {

/// `2` to the power `n`.
pub open spec fn p2(n: nat) -> nat
    decreases n,
{
    if n == 0 {
        1
    } else {
        2 * p2((n - 1) as nat)
    }
}

/// The bit at bit position `i` of `s` (bit `i % 8` of byte `i / 8`).
pub open spec fn bit(s: Seq<u8>, i: int) -> int {
    ((s[i / 8] >> ((i % 8) as u8)) & 1u8) as int
}

/// The `n` bits of `s` from bit position `pos` as a number, the first bit
/// being the least significant.
pub open spec fn bits(s: Seq<u8>, pos: int, n: nat) -> int
    decreases n,
{
    if n == 0 {
        0
    } else {
        bits(s, pos, (n - 1) as nat) + bit(s, pos + n - 1) * p2((n - 1) as nat)
    }
}

/// Whether `n` bits from `pos` are inside `s`.
pub open spec fn has_bits(s: Seq<u8>, pos: int, n: int) -> bool {
    0 <= pos && pos + n <= 8 * s.len()
}

/// A bit position in a byte slice: byte index and bit index within it.
#[derive(Clone, Copy)]
pub struct BitPos {
    pub byte: usize,
    pub bit: usize,
}

impl BitPos {
    /// The bit position as a number of bits from the start.
    pub open spec fn at(self) -> int {
        8 * self.byte + self.bit
    }

    /// Whether the bit index is below 8.
    pub open spec fn wf(self) -> bool {
        self.bit < 8
    }
}

proof fn lemma_p2_mono(a: nat, b: nat)
    requires
        a <= b,
    ensures
        p2(a) <= p2(b),
    decreases b,
{
    if a < b {
        lemma_p2_mono(a, (b - 1) as nat);
    }
}

proof fn lemma_p2_16()
    ensures
        p2(16) == 65536,
{
    reveal_with_fuel(p2, 17);
}

proof fn lemma_div_mod8(b: int, k: int)
    requires
        0 <= b,
        0 <= k < 8,
    ensures
        (8 * b + k) / 8 == b,
        (8 * b + k) % 8 == k,
{
    assert((8 * b + k) / 8 == b) by (nonlinear_arith)
        requires
            0 <= b,
            0 <= k < 8,
    ;
    assert((8 * b + k) % 8 == k) by (nonlinear_arith)
        requires
            0 <= b,
            0 <= k < 8,
    ;
}

pub proof fn lemma_bit_is_bit(s: Seq<u8>, i: int)
    ensures
        0 <= bit(s, i) <= 1,
{
    let x = s[i / 8];
    let k = (i % 8) as u8;
    assert((x >> k) & 1u8 <= 1u8) by (bit_vector);
}

pub proof fn lemma_bits_bound(s: Seq<u8>, pos: int, n: nat)
    ensures
        0 <= bits(s, pos, n) < p2(n),
    decreases n,
{
    if n > 0 {
        lemma_bits_bound(s, pos, (n - 1) as nat);
        lemma_bit_is_bit(s, pos + n - 1);
        if bit(s, pos + n - 1) == 0 {
            assert(bit(s, pos + n - 1) * p2((n - 1) as nat) == 0);
        } else {
            assert(bit(s, pos + n - 1) == 1);
            assert(bit(s, pos + n - 1) * p2((n - 1) as nat) == p2((n - 1) as nat));
        }
    }
}

/// Reads the bit at `p`; `None` when `p` is past the end of `s`.
fn read_bit(s: &[u8], p: BitPos) -> (r: Option<(u32, BitPos)>)
    requires
        p.wf(),
    ensures
        has_bits(s@, p.at(), 1) ==> (r matches Some((b, q)) && b == bit(s@, p.at()) && q.wf()
            && q.at() == p.at() + 1),
        !has_bits(s@, p.at(), 1) ==> r is None,
{
    if p.byte >= s.len() {
        return None;
    }
    let x: u8 = s[p.byte];
    let k: u8 = p.bit as u8;
    let b: u8 = (x >> k) & 1u8;
    proof {
        lemma_div_mod8(p.byte as int, p.bit as int);
    }
    let q = if p.bit == 7 {
        BitPos { byte: p.byte + 1, bit: 0 }
    } else {
        BitPos { byte: p.byte, bit: p.bit + 1 }
    };
    Some((b as u32, q))
}

/// Reads `n` bits from `p` as a number, the first bit least significant;
/// `None` when they run past the end of `s`.
fn read_bits(s: &[u8], p: BitPos, n: usize) -> (r: Option<(u32, BitPos)>)
    requires
        p.wf(),
        p.at() <= 8 * s@.len(),
        n <= 16,
    ensures
        has_bits(s@, p.at(), n as int) ==> (r matches Some((v, q)) && v == bits(s@, p.at(), n as nat)
            && q.wf() && q.at() == p.at() + n),
        !has_bits(s@, p.at(), n as int) ==> r is None,
        r matches Some((v, _)) ==> v < 65536,
{
    let mut v: u32 = 0;
    let mut m: u32 = 1;
    let mut q = p;
    let mut k: usize = 0;
    while k < n
        invariant
            k <= n <= 16,
            p.wf(),
            p.at() <= 8 * s@.len(),
            q.wf(),
            q.at() == p.at() + k,
            has_bits(s@, p.at(), k as int),
            v == bits(s@, p.at(), k as nat),
            m == p2(k as nat),
            v < m,
            m <= 65536,
        decreases n - k,
    {
        match read_bit(s, q) {
            None => {
                return None;
            },
            Some((b, q2)) => {
                proof {
                    lemma_bit_is_bit(s@, q.at());
                    if b == 0 {
                        assert(b * m == 0);
                    } else {
                        assert(b == 1);
                        assert(b * m == m);
                    }
                    lemma_p2_mono((k + 1) as nat, 16);
                    lemma_p2_16();
                    assert(bits(s@, p.at(), (k + 1) as nat) == v + b * m);
                    if k + 1 <= 16 {
                        assert(p2((k + 1) as nat) == 2 * m);
                    }
                }
                v = v + b * m;
                if k + 1 < n {
                    m = m * 2;
                } else {
                    m = m * 2;
                }
                q = q2;
                k = k + 1;
            },
        }
    }
    Some((v, q))
}

/// The symbols below `k` whose code length in `lens` is `l`, in order.
pub open spec fn syms_of_len(lens: Seq<u8>, l: int, k: int) -> Seq<int>
    decreases k,
{
    if k <= 0 {
        seq![]
    } else if lens[k - 1] == l {
        syms_of_len(lens, l, k - 1).push(k - 1)
    } else {
        syms_of_len(lens, l, k - 1)
    }
}

/// The number of symbols whose code length in `lens` is `l`.
pub open spec fn count_len(lens: Seq<u8>, l: int) -> int {
    syms_of_len(lens, l, lens.len() as int).len() as int
}

/// The symbols with code lengths `1..=l`, ordered by code length and then
/// by symbol: the order of their canonical Huffman codes.
pub open spec fn syms_upto(lens: Seq<u8>, l: int) -> Seq<int>
    decreases l,
{
    if l <= 0 {
        seq![]
    } else {
        syms_upto(lens, l - 1) + syms_of_len(lens, l, lens.len() as int)
    }
}

/// Decodes one symbol of the canonical Huffman code with `counts[l]` codes
/// of length `l` whose symbols in code order are `syms`, reading from bit
/// `pos`, having read `len - 1` bits into `code`; `first` is the first code
/// of length `len` and `index` the number of shorter codes. Gives the symbol
/// and the position after its code, or `None` for a code that is not in the
/// table or runs past the end of `s`.
pub open spec fn decode_from(s: Seq<u8>, pos: int, counts: Seq<int>, syms: Seq<int>, len: int, code: int, first: int, index: int) -> Option<(int, int)>
    decreases 16 - len,
{
    if len < 1 || len > 15 || !has_bits(s, pos, 1) {
        None
    } else {
        let code = code + bit(s, pos);
        let count = counts[len];
        if code < first + count {
            let i = index + code - first;
            if 0 <= i < syms.len() {
                Some((syms[i], pos + 1))
            } else {
                None
            }
        } else {
            decode_from(s, pos + 1, counts, syms, len + 1, 2 * code, 2 * (first + count), index + count)
        }
    }
}

/// Decodes one symbol of the canonical Huffman code given by `counts` and
/// `syms` from bit `pos`.
pub open spec fn decode(s: Seq<u8>, pos: int, counts: Seq<int>, syms: Seq<int>) -> Option<(int, int)> {
    decode_from(s, pos, counts, syms, 1, 0, 0, 0)
}

/// The values of a sequence of small numbers as integers.
pub open spec fn ints(v: Seq<u16>) -> Seq<int> {
    v.map_values(|x: u16| x as int)
}

/// A canonical Huffman code: the number of codes of each length `0..16` and
/// the symbols in code order.
pub struct Huffman {
    pub counts: Vec<u16>,
    pub symbols: Vec<u16>,
}

impl Huffman {
    /// Whether this is the code for the code lengths `lens`.
    pub open spec fn is_code_for(&self, lens: Seq<u8>) -> bool {
        &&& self.counts@.len() == 16
        &&& forall|l: int| 0 <= l < 16 ==> self.counts@[l] == count_len(lens, l)
        &&& ints(self.symbols@) == syms_upto(lens, 15)
    }

    /// Sixteen counts, none above 320.
    pub open spec fn wf(&self) -> bool {
        &&& self.counts@.len() == 16
        &&& forall|l: int| 0 <= l < 16 ==> self.counts@[l] <= 320
    }
}

proof fn lemma_syms_of_len_bound(lens: Seq<u8>, l: int, k: int)
    ensures
        syms_of_len(lens, l, k).len() <= if k < 0 { 0 } else { k },
        forall|i: int| 0 <= i < syms_of_len(lens, l, k).len() ==> 0 <= #[trigger] syms_of_len(lens, l, k)[i] < k,
    decreases k,
{
    if k > 0 {
        lemma_syms_of_len_bound(lens, l, k - 1);
    }
}

/// Builds the canonical Huffman code for the code lengths `lens`.
fn construct(lens: &Vec<u8>) -> (h: Huffman)
    requires
        lens@.len() <= 320,
    ensures
        h.is_code_for(lens@),
        h.wf(),
{
    let n = lens.len();
    let mut counts: Vec<u16> = Vec::new();
    let mut symbols: Vec<u16> = Vec::new();
    let mut l: usize = 0;
    while l < 16
        invariant
            n == lens@.len() <= 320,
            l <= 16,
            counts@.len() == l,
            forall|m: int| 0 <= m < l ==> counts@[m] == count_len(lens@, m),
            forall|m: int| 0 <= m < l ==> counts@[m] <= 320,
            ints(symbols@) == syms_upto(lens@, if l == 0 { 0 } else { l - 1 }),
        decreases 16 - l,
    {
        let mut c: u16 = 0;
        let mut j: usize = 0;
        let ghost before = symbols@;
        while j < n
            invariant
                n == lens@.len() <= 320,
                l < 16,
                j <= n,
                c == syms_of_len(lens@, l as int, j as int).len(),
                c <= j,
                l > 0 ==> ints(symbols@) == ints(before) + syms_of_len(lens@, l as int, j as int),
                l == 0 ==> symbols@ == before,
            decreases n - j,
        {
            if lens[j] as usize == l {
                if l > 0 {
                    let ghost prev = symbols@;
                    symbols.push(j as u16);
                    assert(ints(symbols@) =~= ints(prev).push(j as int));
                    assert(syms_of_len(lens@, l as int, (j + 1) as int) == syms_of_len(lens@, l as int, j as int).push(j as int));
                    assert(ints(symbols@) =~= ints(before) + syms_of_len(lens@, l as int, (j + 1) as int));
                }
                c = c + 1;
            }
            j = j + 1;
        }
        proof {
            lemma_syms_of_len_bound(lens@, l as int, n as int);
        }
        counts.push(c);
        l = l + 1;
    }
    Huffman { counts, symbols }
}

/// Decodes one symbol of the code `h` from `p`.
fn decode_sym(s: &[u8], p: BitPos, h: &Huffman) -> (r: Option<(u16, BitPos)>)
    requires
        p.wf(),
        p.at() <= 8 * s@.len(),
        h.wf(),
    ensures
        match decode(s@, p.at(), ints(h.counts@), ints(h.symbols@)) {
            Some((sym, np)) => r matches Some((x, q)) && x as int == sym && q.wf() && q.at() == np
                && q.at() <= 8 * s@.len(),
            None => r is None,
        },
{
    let ghost cs = ints(h.counts@);
    let ghost ss = ints(h.symbols@);
    let mut code: u32 = 0;
    let mut first: u32 = 0;
    let mut index: u32 = 0;
    let mut len: usize = 1;
    let mut q = p;
    assert(p2(1) == 2) by {
        reveal_with_fuel(p2, 2);
    }
    while len <= 15
        invariant
            1 <= len <= 16,
            h.wf(),
            cs == ints(h.counts@),
            ss == ints(h.symbols@),
            q.wf(),
            q.at() <= 8 * s@.len(),
            decode(s@, p.at(), cs, ss) == decode_from(s@, q.at(), cs, ss, len as int, code as int, first as int, index as int),
            code % 2 == 0,
            code < p2(len as nat),
            first <= code,
            index <= 320 * len,
        decreases 16 - len,
    {
        proof {
            lemma_p2_mono(len as nat, 16);
            lemma_p2_16();
        }
        match read_bit(s, q) {
            None => {
                return None;
            },
            Some((b, q2)) => {
                proof {
                    lemma_bit_is_bit(s@, q.at());
                }
                let code1 = code + b;
                let count = h.counts[len] as u32;
                if code1 < first + count {
                    let i = index + (code1 - first);
                    if (i as usize) < h.symbols.len() {
                        return Some((h.symbols[i as usize], q2));
                    } else {
                        return None;
                    }
                }
                proof {
                    assert(p2((len + 1) as nat) == 2 * p2(len as nat));
                }
                code = 2 * code1;
                first = 2 * (first + count);
                index = index + count;
                len = len + 1;
                q = q2;
            },
        }
    }
    None
}

/// Base lengths of the length codes `257..286`.
pub open spec fn lbase_tab() -> Seq<u16> {
    seq![3u16, 4, 5, 6, 7, 8, 9, 10, 11, 13, 15, 17, 19, 23, 27, 31, 35, 43, 51, 59, 67, 83, 99, 115, 131, 163, 195, 227, 258]
}

/// Extra bits of the length codes `257..286`.
pub open spec fn lext_tab() -> Seq<u16> {
    seq![0u16, 0, 0, 0, 0, 0, 0, 0, 1, 1, 1, 1, 2, 2, 2, 2, 3, 3, 3, 3, 4, 4, 4, 4, 5, 5, 5, 5, 0]
}

/// Base distances of the distance codes `0..30`.
pub open spec fn dbase_tab() -> Seq<u16> {
    seq![1u16, 2, 3, 4, 5, 7, 9, 13, 17, 25, 33, 49, 65, 97, 129, 193, 257, 385, 513, 769, 1025, 1537, 2049, 3073, 4097, 6145, 8193, 12289, 16385, 24577]
}

/// Extra bits of the distance codes `0..30`.
pub open spec fn dext_tab() -> Seq<u16> {
    seq![0u16, 0, 0, 0, 1, 1, 2, 2, 3, 3, 4, 4, 5, 5, 6, 6, 7, 7, 8, 8, 9, 9, 10, 10, 11, 11, 12, 12, 13, 13]
}

fn lbase(i: usize) -> (r: u16)
    requires
        i < 29,
    ensures
        r == lbase_tab()[i as int],
{
    let t: Vec<u16> = vec![3u16, 4, 5, 6, 7, 8, 9, 10, 11, 13, 15, 17, 19, 23, 27, 31, 35, 43, 51, 59, 67, 83, 99, 115, 131, 163, 195, 227, 258];
    assert(t@ =~= lbase_tab());
    t[i]
}

fn lext(i: usize) -> (r: u16)
    requires
        i < 29,
    ensures
        r == lext_tab()[i as int],
        r <= 5,
{
    let t: Vec<u16> = vec![0u16, 0, 0, 0, 0, 0, 0, 0, 1, 1, 1, 1, 2, 2, 2, 2, 3, 3, 3, 3, 4, 4, 4, 4, 5, 5, 5, 5, 0];
    assert(t@ =~= lext_tab());
    t[i]
}

fn dbase(i: usize) -> (r: u16)
    requires
        i < 30,
    ensures
        r == dbase_tab()[i as int],
{
    let t: Vec<u16> = vec![1u16, 2, 3, 4, 5, 7, 9, 13, 17, 25, 33, 49, 65, 97, 129, 193, 257, 385, 513, 769, 1025, 1537, 2049, 3073, 4097, 6145, 8193, 12289, 16385, 24577];
    assert(t@ =~= dbase_tab());
    t[i]
}

fn dext(i: usize) -> (r: u16)
    requires
        i < 30,
    ensures
        r == dext_tab()[i as int],
        r <= 13,
{
    let t: Vec<u16> = vec![0u16, 0, 0, 0, 1, 1, 2, 2, 3, 3, 4, 4, 5, 5, 6, 6, 7, 7, 8, 8, 9, 9, 10, 10, 11, 11, 12, 12, 13, 13];
    assert(t@ =~= dext_tab());
    t[i]
}

/// `out` followed by `n` bytes, each copied from `dist` bytes before it.
pub open spec fn copy_back(out: Seq<u8>, dist: int, n: nat) -> Seq<u8>
    decreases n,
{
    if n == 0 {
        out
    } else {
        copy_back(out.push(out[out.len() - dist]), dist, (n - 1) as nat)
    }
}

/// A Huffman code as the counts and symbols that `decode` reads.
pub open spec fn code_of(h: Huffman) -> (Seq<int>, Seq<int>) {
    (ints(h.counts@), ints(h.symbols@))
}

/// Decodes the compressed data of a Huffman block from bit `pos`, appending
/// to `out`, with literal/length code `lc` and distance code `dc`, up to and
/// including the end-of-block code: the output and the position after the
/// block, or `None` for an invalid code, length, distance or a stream that
/// ends early.
pub open spec fn codes(s: Seq<u8>, pos: int, out: Seq<u8>, lc: (Seq<int>, Seq<int>), dc: (Seq<int>, Seq<int>)) -> Option<(Seq<u8>, int)>
    decreases 8 * s.len() - pos,
{
    match decode(s, pos, lc.0, lc.1) {
        None => None,
        Some((sym, p1)) => {
            if !(pos < p1 <= 8 * s.len()) {
                None
            } else if sym < 256 {
                codes(s, p1, out.push(sym as u8), lc, dc)
            } else if sym == 256 {
                Some((out, p1))
            } else if sym - 257 >= 29 {
                None
            } else {
                let li = sym - 257;
                let lx = lext_tab()[li] as int;
                if !has_bits(s, p1, lx) {
                    None
                } else {
                    let len = lbase_tab()[li] + bits(s, p1, lx as nat);
                    let p2 = p1 + lx;
                    match decode(s, p2, dc.0, dc.1) {
                        None => None,
                        Some((d, p3)) => {
                            if !(p2 < p3 <= 8 * s.len()) || d < 0 || d >= 30 {
                                None
                            } else {
                                let dx = dext_tab()[d] as int;
                                if !has_bits(s, p3, dx) {
                                    None
                                } else {
                                    let dist = dbase_tab()[d] + bits(s, p3, dx as nat);
                                    if dist > out.len() {
                                        None
                                    } else {
                                        codes(s, p3 + dx, copy_back(out, dist, len as nat), lc, dc)
                                    }
                                }
                            }
                        },
                    }
                }
            }
        },
    }
}

proof fn lemma_decode_from_advances(s: Seq<u8>, pos: int, counts: Seq<int>, syms: Seq<int>, len: int, code: int, first: int, index: int)
    ensures
        decode_from(s, pos, counts, syms, len, code, first, index) matches Some((_, np)) ==> pos < np <= 8 * s.len(),
        decode_from(s, pos, counts, syms, len, code, first, index) matches Some((sym, _)) ==> exists|i: int| 0 <= i < syms.len() && syms[i] == sym,
    decreases 16 - len,
{
    if !(len < 1 || len > 15 || !has_bits(s, pos, 1)) {
        let code2 = code + bit(s, pos);
        let count = counts[len];
        if !(code2 < first + count) {
            lemma_decode_from_advances(s, pos + 1, counts, syms, len + 1, 2 * code2, 2 * (first + count), index + count);
        }
    }
}

/// Copies `n` bytes, each from `dist` bytes back, onto the end of `out`.
fn copy_back_exec(out: &mut Vec<u8>, dist: usize, n: usize)
    requires
        1 <= dist <= old(out)@.len(),
    ensures
        final(out)@ == copy_back(old(out)@, dist as int, n as nat),
{
    let mut k: usize = 0;
    while k < n
        invariant
            k <= n,
            1 <= dist <= out@.len(),
            copy_back(out@, dist as int, (n - k) as nat) == copy_back(old(out)@, dist as int, n as nat),
        decreases n - k,
    {
        let b = out[out.len() - dist];
        out.push(b);
        k = k + 1;
    }
}

/// Decodes the compressed data of a Huffman block, appending to `out`.
fn inflate_codes(s: &[u8], p: BitPos, out: &mut Vec<u8>, lc: &Huffman, dc: &Huffman) -> (r: Option<BitPos>)
    requires
        p.wf(),
        p.at() <= 8 * s@.len(),
        lc.wf(),
        dc.wf(),
    ensures
        match codes(s@, p.at(), old(out)@, code_of(*lc), code_of(*dc)) {
            Some((o, np)) => r matches Some(q) && q.wf() && q.at() == np && q.at() <= 8 * s@.len()
                && final(out)@ == o,
            None => r is None,
        },
{
    let ghost lcv = code_of(*lc);
    let ghost dcv = code_of(*dc);
    let mut q = p;
    loop
        invariant
            lc.wf(),
            dc.wf(),
            lcv == code_of(*lc),
            dcv == code_of(*dc),
            q.wf(),
            q.at() <= 8 * s@.len(),
            codes(s@, p.at(), old(out)@, lcv, dcv) == codes(s@, q.at(), out@, lcv, dcv),
        decreases 8 * s@.len() - q.at(),
    {
        proof {
            lemma_decode_from_advances(s@, q.at(), lcv.0, lcv.1, 1, 0, 0, 0);
        }
        let (sym, q1) = match decode_sym(s, q, lc) {
            None => {
                return None;
            },
            Some(x) => x,
        };
        if sym < 256 {
            out.push(sym as u8);
            q = q1;
        } else if sym == 256 {
            return Some(q1);
        } else if sym - 257 >= 29 {
            return None;
        } else {
            let li = (sym - 257) as usize;
            let lx = lext(li);
            let (extra, q2) = match read_bits(s, q1, lx as usize) {
                None => {
                    return None;
                },
                Some(x) => x,
            };
            let len: usize = lbase(li) as usize + extra as usize;
            proof {
                lemma_decode_from_advances(s@, q2.at(), dcv.0, dcv.1, 1, 0, 0, 0);
            }
            let (d, q3) = match decode_sym(s, q2, dc) {
                None => {
                    return None;
                },
                Some(x) => x,
            };
            if d >= 30 {
                return None;
            }
            let dx = dext(d as usize);
            let (dextra, q4) = match read_bits(s, q3, dx as usize) {
                None => {
                    return None;
                },
                Some(x) => x,
            };
            let dist: usize = dbase(d as usize) as usize + dextra as usize;
            if dist > out.len() {
                return None;
            }
            copy_back_exec(out, dist, len);
            q = q4;
        }
    }
}

/// The canonical Huffman code for the code lengths `lens`: the number of
/// codes of each length `0..16` and the symbols in code order.
pub open spec fn code_spec(lens: Seq<u8>) -> (Seq<int>, Seq<int>) {
    (Seq::new(16, |l: int| count_len(lens, l)), syms_upto(lens, 15))
}

proof fn lemma_code_of(h: Huffman, lens: Seq<u8>)
    requires
        h.is_code_for(lens),
    ensures
        code_of(h) == code_spec(lens),
{
    assert(ints(h.counts@) =~= Seq::new(16, |l: int| count_len(lens, l)));
}

/// What is left of the code space after the codes of lengths `1..=l`, in
/// units of codes of length `l`; negative once the lengths ask for more
/// codes than there are (then it stays at the first negative value).
pub open spec fn code_left(counts: Seq<int>, l: int) -> int
    decreases l,
{
    if l <= 0 {
        1
    } else {
        let prev = code_left(counts, l - 1);
        if prev < 0 {
            prev
        } else {
            2 * prev - counts[l]
        }
    }
}

/// Zero when the code lengths `lens` make a complete code (or no code at
/// all), positive when they leave codes unused, negative when they ask for
/// more codes than there are.
pub open spec fn code_err(lens: Seq<u8>) -> int {
    if count_len(lens, 0) == lens.len() {
        0
    } else {
        code_left(code_spec(lens).0, 15)
    }
}

/// Whether a literal/length or distance code with lengths `lens` over `n`
/// symbols is accepted: complete, or incomplete with a single code of
/// length one.
pub open spec fn code_ok(lens: Seq<u8>, n: int) -> bool {
    code_err(lens) == 0 || (code_err(lens) > 0 && n == count_len(lens, 0) + count_len(lens, 1))
}

/// Computes `code_err(lens)` from the code built for `lens`.
fn code_error(h: &Huffman, n: usize, Ghost(lens): Ghost<Seq<u8>>) -> (r: i64)
    requires
        h.is_code_for(lens),
        h.wf(),
        n == lens.len(),
    ensures
        r == code_err(lens),
{
    proof {
        lemma_code_of(*h, lens);
    }
    if h.counts[0] as usize == n {
        return 0;
    }
    let mut left: i64 = 1;
    let mut l: usize = 1;
    while l <= 15
        invariant
            1 <= l <= 16,
            h.wf(),
            h.is_code_for(lens),
            code_of(*h) == code_spec(lens),
            left == code_left(code_spec(lens).0, l - 1),
            -320 <= left <= p2((l - 1) as nat),
        decreases 16 - l,
    {
        proof {
            lemma_p2_mono((l - 1) as nat, 16);
            lemma_p2_16();
            assert(p2(l as nat) == 2 * p2((l - 1) as nat));
        }
        if left >= 0 {
            left = 2 * left - h.counts[l] as i64;
        }
        l = l + 1;
    }
    left
}

/// The byte after a stored block's header bits ending at bit `pos`: the
/// next byte boundary.
pub open spec fn next_byte(pos: int) -> int {
    (pos + 7) / 8
}

/// Decodes a stored block whose header bits end at bit `pos`, appending to
/// `out`: its bytes, and the position after them.
pub open spec fn stored(s: Seq<u8>, pos: int, out: Seq<u8>) -> Option<(Seq<u8>, int)> {
    let b = next_byte(pos);
    if b + 4 > s.len() {
        None
    } else {
        let len = s[b] + 256 * s[b + 1];
        let nlen = s[b + 2] + 256 * s[b + 3];
        if len + nlen != 65535 || b + 4 + len > s.len() {
            None
        } else {
            Some((out + s.subrange(b + 4, b + 4 + len), 8 * (b + 4 + len)))
        }
    }
}

/// The code lengths of the fixed literal/length code.
pub open spec fn fixed_lit_lens() -> Seq<u8> {
    Seq::new(288, |i: int| if i < 144 { 8u8 } else if i < 256 { 9u8 } else if i < 280 { 7u8 } else { 8u8 })
}

/// The code lengths of the fixed distance code.
pub open spec fn fixed_dist_lens() -> Seq<u8> {
    Seq::new(30, |i: int| 5u8)
}

/// The order in which the code lengths of the code length code are stored.
pub open spec fn cl_order() -> Seq<u16> {
    seq![16u16, 17, 18, 0, 8, 7, 9, 6, 10, 5, 11, 4, 12, 3, 13, 2, 14, 1, 15]
}

/// The code lengths of the code length code after reading `k` of them,
/// three bits each, from bit `pos`.
pub open spec fn cl_lens(s: Seq<u8>, pos: int, k: int) -> Seq<u8>
    decreases k,
{
    if k <= 0 {
        Seq::new(19, |i: int| 0u8)
    } else {
        cl_lens(s, pos, k - 1).update(cl_order()[k - 1] as int, bits(s, pos + 3 * (k - 1), 3) as u8)
    }
}

/// Reads the code lengths of a dynamic block with the code length code
/// `cl` from bit `pos`, having read `lens` so far, until there are `total`:
/// the lengths and the position after them.
pub open spec fn read_lens(s: Seq<u8>, pos: int, cl: (Seq<int>, Seq<int>), total: int, lens: Seq<u8>) -> Option<(Seq<u8>, int)>
    decreases total - lens.len(),
{
    if lens.len() >= total {
        Some((lens, pos))
    } else {
        match decode(s, pos, cl.0, cl.1) {
            None => None,
            Some((sym, p1)) => {
                if 0 <= sym < 16 {
                    read_lens(s, p1, cl, total, lens.push(sym as u8))
                } else if sym == 16 && lens.len() == 0 {
                    None
                } else if 16 <= sym <= 18 {
                    let rep: u8 = if sym == 16 { lens.last() } else { 0u8 };
                    let nx: int = if sym == 16 { 2 } else if sym == 17 { 3 } else { 7 };
                    let base: int = if sym == 18 { 11 } else { 3 };
                    if !has_bits(s, p1, nx) {
                        None
                    } else {
                        let n = base + bits(s, p1, nx as nat);
                        proof {
                            lemma_bits_bound(s, p1, nx as nat);
                        }
                        if lens.len() + n > total {
                            None
                        } else {
                            read_lens(s, p1 + nx, cl, total, lens + Seq::new(n as nat, |i: int| rep))
                        }
                    }
                } else {
                    None
                }
            },
        }
    }
}

/// Decodes a dynamic-Huffman block whose header bits end at bit `pos`,
/// appending to `out`.
pub open spec fn dynamic(s: Seq<u8>, pos: int, out: Seq<u8>) -> Option<(Seq<u8>, int)> {
    if !has_bits(s, pos, 14) {
        None
    } else {
        let nlen = bits(s, pos, 5) + 257;
        let ndist = bits(s, pos + 5, 5) + 1;
        let ncode = bits(s, pos + 10, 4) + 4;
        if nlen > 286 || ndist > 30 || !has_bits(s, pos + 14, 3 * ncode) {
            None
        } else {
            let cl = cl_lens(s, pos + 14, ncode);
            if code_err(cl) != 0 {
                None
            } else {
                match read_lens(s, pos + 14 + 3 * ncode, code_spec(cl), nlen + ndist, seq![]) {
                    None => None,
                    Some((lens, p1)) => {
                        let lit = lens.subrange(0, nlen);
                        let dist = lens.subrange(nlen, nlen + ndist);
                        if lit[256] == 0 || !code_ok(lit, nlen) || !code_ok(dist, ndist) {
                            None
                        } else {
                            codes(s, p1, out, code_spec(lit), code_spec(dist))
                        }
                    },
                }
            }
        }
    }
}

/// Decodes the block whose header starts at bit `pos` and the blocks after
/// it up to the last one, appending to `out`: the output and the position
/// after the last block.
pub open spec fn blocks(s: Seq<u8>, pos: int, out: Seq<u8>) -> Option<(Seq<u8>, int)>
    decreases 8 * s.len() - pos,
{
    if !has_bits(s, pos, 3) {
        None
    } else {
        let last = bit(s, pos);
        let ty = bits(s, pos + 1, 2);
        let r = if ty == 0 {
            stored(s, pos + 3, out)
        } else if ty == 1 {
            codes(s, pos + 3, out, code_spec(fixed_lit_lens()), code_spec(fixed_dist_lens()))
        } else if ty == 2 {
            dynamic(s, pos + 3, out)
        } else {
            None
        };
        match r {
            None => None,
            Some((o, np)) => {
                if last == 1 {
                    Some((o, np))
                } else if !(pos < np <= 8 * s.len()) {
                    None
                } else {
                    blocks(s, np, o)
                }
            },
        }
    }
}

fn cl_order_at(k: usize) -> (r: usize)
    requires
        k < 19,
    ensures
        r == cl_order()[k as int],
        r < 19,
{
    let t: Vec<u16> = vec![16u16, 17, 18, 0, 8, 7, 9, 6, 10, 5, 11, 4, 12, 3, 13, 2, 14, 1, 15];
    assert(t@ =~= cl_order());
    t[k] as usize
}

/// Whether bit position `a` comes before `b`.
fn pos_lt(a: BitPos, b: BitPos) -> (r: bool)
    requires
        a.wf(),
        b.wf(),
    ensures
        r == (a.at() < b.at()),
{
    a.byte < b.byte || (a.byte == b.byte && a.bit < b.bit)
}

/// `v[from..to]` as a new vector.
fn sub_vec(v: &Vec<u8>, from: usize, to: usize) -> (r: Vec<u8>)
    requires
        from <= to <= v@.len(),
    ensures
        r@ == v@.subrange(from as int, to as int),
{
    let mut r: Vec<u8> = Vec::new();
    let mut i = from;
    while i < to
        invariant
            from <= i <= to <= v@.len(),
            r@ == v@.subrange(from as int, i as int),
        decreases to - i,
    {
        r.push(v[i]);
        i = i + 1;
        assert(r@ =~= v@.subrange(from as int, i as int));
    }
    r
}

/// Decodes a stored block whose header bits end at `p`, appending to `out`.
fn inflate_stored(s: &[u8], p: BitPos, out: &mut Vec<u8>) -> (r: Option<BitPos>)
    requires
        p.wf(),
        p.at() <= 8 * s@.len(),
    ensures
        match stored(s@, p.at(), old(out)@) {
            Some((o, np)) => r matches Some(q) && q.wf() && q.at() == np && q.at() <= 8 * s@.len()
                && final(out)@ == o,
            None => r is None,
        },
{
    let slen = s.len();
    if p.bit != 0 {
        assert(p.byte < slen);
    }
    let b: usize = if p.bit == 0 { p.byte } else { p.byte + 1 };
    assert(b as int == next_byte(p.at())) by (nonlinear_arith)
        requires
            p.bit < 8,
            b == (if p.bit == 0 { p.byte as int } else { p.byte + 1 }),
    ;
    if s.len() - b < 4 {
        return None;
    }
    let len: usize = s[b] as usize + 256 * (s[b + 1] as usize);
    let nlen: usize = s[b + 2] as usize + 256 * (s[b + 3] as usize);
    if len + nlen != 65535 || s.len() - (b + 4) < len {
        return None;
    }
    let start = b + 4;
    let end = start + len;
    let ghost o0 = out@;
    let mut i = start;
    while i < end
        invariant
            start <= i <= end <= s@.len(),
            out@ == o0 + s@.subrange(start as int, i as int),
        decreases end - i,
    {
        out.push(s[i]);
        i = i + 1;
        assert(out@ =~= o0 + s@.subrange(start as int, i as int));
    }
    Some(BitPos { byte: end, bit: 0 })
}

/// Decodes a fixed-Huffman block whose header bits end at `p`.
fn inflate_fixed(s: &[u8], p: BitPos, out: &mut Vec<u8>) -> (r: Option<BitPos>)
    requires
        p.wf(),
        p.at() <= 8 * s@.len(),
    ensures
        match codes(s@, p.at(), old(out)@, code_spec(fixed_lit_lens()), code_spec(fixed_dist_lens())) {
            Some((o, np)) => r matches Some(q) && q.wf() && q.at() == np && q.at() <= 8 * s@.len()
                && final(out)@ == o,
            None => r is None,
        },
{
    let mut lit: Vec<u8> = Vec::new();
    let mut i: usize = 0;
    while i < 288
        invariant
            i <= 288,
            lit@.len() == i,
            forall|j: int| 0 <= j < i ==> lit@[j] == fixed_lit_lens()[j],
        decreases 288 - i,
    {
        let l: u8 = if i < 144 { 8 } else if i < 256 { 9 } else if i < 280 { 7 } else { 8 };
        lit.push(l);
        i = i + 1;
    }
    assert(lit@ =~= fixed_lit_lens());
    let mut dist: Vec<u8> = Vec::new();
    let mut j: usize = 0;
    while j < 30
        invariant
            j <= 30,
            dist@.len() == j,
            forall|k: int| 0 <= k < j ==> dist@[k] == 5u8,
        decreases 30 - j,
    {
        dist.push(5u8);
        j = j + 1;
    }
    assert(dist@ =~= fixed_dist_lens());
    let lc = construct(&lit);
    let dc = construct(&dist);
    proof {
        lemma_code_of(lc, lit@);
        lemma_code_of(dc, dist@);
    }
    inflate_codes(s, p, out, &lc, &dc)
}

/// Reads the literal/length and distance code lengths of a dynamic block
/// with the code length code `clh`.
fn inflate_read_lens(s: &[u8], p: BitPos, clh: &Huffman, total: usize, Ghost(cl): Ghost<Seq<u8>>) -> (r: Option<(Vec<u8>, BitPos)>)
    requires
        p.wf(),
        p.at() <= 8 * s@.len(),
        clh.wf(),
        clh.is_code_for(cl),
        total <= 316,
    ensures
        match read_lens(s@, p.at(), code_spec(cl), total as int, seq![]) {
            Some((lens, np)) => r matches Some((v, q)) && v@ == lens && q.wf() && q.at() == np
                && q.at() <= 8 * s@.len(),
            None => r is None,
        },
        r matches Some((v, _)) ==> v@.len() == total,
{
    proof {
        lemma_code_of(*clh, cl);
    }
    let ghost clv = code_spec(cl);
    let mut lens: Vec<u8> = Vec::new();
    let mut q = p;
    while lens.len() < total
        invariant
            clh.wf(),
            code_of(*clh) == clv,
            clv == code_spec(cl),
            total <= 316,
            lens@.len() <= total,
            q.wf(),
            q.at() <= 8 * s@.len(),
            read_lens(s@, p.at(), clv, total as int, seq![]) == read_lens(s@, q.at(), clv, total as int, lens@),
        decreases total - lens@.len(),
    {
        proof {
            lemma_decode_from_advances(s@, q.at(), clv.0, clv.1, 1, 0, 0, 0);
        }
        let (sym, q1) = match decode_sym(s, q, clh) {
            None => {
                return None;
            },
            Some(x) => x,
        };
        if sym < 16 {
            lens.push(sym as u8);
            q = q1;
        } else if sym == 16 && lens.len() == 0 {
            return None;
        } else if sym <= 18 {
            let rep: u8 = if sym == 16 { lens[lens.len() - 1] } else { 0u8 };
            let nx: usize = if sym == 16 { 2 } else if sym == 17 { 3 } else { 7 };
            let base: usize = if sym == 18 { 11 } else { 3 };
            let (v, q2) = match read_bits(s, q1, nx) {
                None => {
                    return None;
                },
                Some(x) => x,
            };
            let n: usize = base + v as usize;
            if lens.len() + n > total {
                return None;
            }
            let ghost l0 = lens@;
            let mut k: usize = 0;
            while k < n
                invariant
                    k <= n,
                    lens@ == l0 + Seq::new(k as nat, |i: int| rep),
                    l0.len() + n <= total,
                decreases n - k,
            {
                lens.push(rep);
                k = k + 1;
                assert(lens@ =~= l0 + Seq::new(k as nat, |i: int| rep));
            }
            q = q2;
        } else {
            return None;
        }
    }
    Some((lens, q))
}

/// Decodes a dynamic-Huffman block whose header bits end at `p`.
fn inflate_dynamic(s: &[u8], p: BitPos, out: &mut Vec<u8>) -> (r: Option<BitPos>)
    requires
        p.wf(),
        p.at() <= 8 * s@.len(),
    ensures
        match dynamic(s@, p.at(), old(out)@) {
            Some((o, np)) => r matches Some(q) && q.wf() && q.at() == np && q.at() <= 8 * s@.len()
                && final(out)@ == o,
            None => r is None,
        },
{
    let (hlit, q1) = match read_bits(s, p, 5) {
        None => {
            return None;
        },
        Some(x) => x,
    };
    let (hdist, q2) = match read_bits(s, q1, 5) {
        None => {
            return None;
        },
        Some(x) => x,
    };
    let (hclen, q3) = match read_bits(s, q2, 4) {
        None => {
            return None;
        },
        Some(x) => x,
    };
    proof {
        lemma_bits_bound(s@, p.at(), 5);
        lemma_bits_bound(s@, p.at() + 5, 5);
        lemma_bits_bound(s@, p.at() + 10, 4);
        reveal_with_fuel(p2, 6);
    }
    let nlen: usize = hlit as usize + 257;
    let ndist: usize = hdist as usize + 1;
    let ncode: usize = hclen as usize + 4;
    if nlen > 286 || ndist > 30 {
        return None;
    }
    let mut cl: Vec<u8> = Vec::new();
    let mut i: usize = 0;
    while i < 19
        invariant
            i <= 19,
            cl@.len() == i,
            forall|j: int| 0 <= j < i ==> cl@[j] == 0u8,
        decreases 19 - i,
    {
        cl.push(0u8);
        i = i + 1;
    }
    assert(cl@ =~= cl_lens(s@, p.at() + 14, 0));
    let mut q = q3;
    let mut k: usize = 0;
    while k < ncode
        invariant
            k <= ncode <= 19,
            q.wf(),
            q.at() == p.at() + 14 + 3 * k,
            q.at() <= 8 * s@.len(),
            cl@ == cl_lens(s@, p.at() + 14, k as int),
            cl@.len() == 19,
            p.wf(),
            has_bits(s@, p.at(), 14),
            nlen == bits(s@, p.at(), 5) + 257,
            ndist == bits(s@, p.at() + 5, 5) + 1,
            ncode == bits(s@, p.at() + 10, 4) + 4,
            nlen <= 286,
            ndist <= 30,
        decreases ncode - k,
    {
        let (v, qn) = match read_bits(s, q, 3) {
            None => {
                return None;
            },
            Some(x) => x,
        };
        proof {
            lemma_bits_bound(s@, q.at(), 3);
            reveal_with_fuel(p2, 4);
        }
        let o = cl_order_at(k);
        cl.set(o, v as u8);
        q = qn;
        k = k + 1;
    }
    let clh = construct(&cl);
    let err = code_error(&clh, 19, Ghost(cl@));
    if err != 0 {
        return None;
    }
    let total = nlen + ndist;
    let (lens, q4) = match inflate_read_lens(s, q, &clh, total, Ghost(cl@)) {
        None => {
            return None;
        },
        Some(x) => x,
    };
    let lit = sub_vec(&lens, 0, nlen);
    let dist = sub_vec(&lens, nlen, total);
    if lit[256] == 0 {
        return None;
    }
    let lc = construct(&lit);
    let dc = construct(&dist);
    let lerr = code_error(&lc, nlen, Ghost(lit@));
    if !(lerr == 0 || (lerr > 0 && nlen == lc.counts[0] as usize + lc.counts[1] as usize)) {
        return None;
    }
    let derr = code_error(&dc, ndist, Ghost(dist@));
    if !(derr == 0 || (derr > 0 && ndist == dc.counts[0] as usize + dc.counts[1] as usize)) {
        return None;
    }
    proof {
        lemma_code_of(lc, lit@);
        lemma_code_of(dc, dist@);
    }
    inflate_codes(s, q4, out, &lc, &dc)
}

/// Decodes the deflate blocks that start at bit `p`, up to the last one:
/// the output and the position after the last block.
pub fn inflate(s: &[u8], p: BitPos) -> (r: Option<(Vec<u8>, BitPos)>)
    requires
        p.wf(),
        p.at() <= 8 * s@.len(),
    ensures
        match blocks(s@, p.at(), seq![]) {
            Some((o, np)) => r matches Some((v, q)) && v@ == o && q.wf() && q.at() == np
                && q.at() <= 8 * s@.len(),
            None => r is None,
        },
{
    let mut out: Vec<u8> = Vec::new();
    let mut q = p;
    loop
        invariant
            q.wf(),
            q.at() <= 8 * s@.len(),
            blocks(s@, p.at(), seq![]) == blocks(s@, q.at(), out@),
        decreases 8 * s@.len() - q.at(),
    {
        let (last, q1) = match read_bit(s, q) {
            None => {
                return None;
            },
            Some(x) => x,
        };
        let (ty, q2) = match read_bits(s, q1, 2) {
            None => {
                return None;
            },
            Some(x) => x,
        };
        proof {
            assert(bits(s@, q.at() + 1, 2) == ty);
        }
        let nq = if ty == 0 {
            inflate_stored(s, q2, &mut out)
        } else if ty == 1 {
            inflate_fixed(s, q2, &mut out)
        } else if ty == 2 {
            inflate_dynamic(s, q2, &mut out)
        } else {
            None
        };
        let nq = match nq {
            None => {
                return None;
            },
            Some(x) => x,
        };
        if last == 1 {
            return Some((out, nq));
        }
        if !pos_lt(q, nq) {
            return None;
        }
        q = nq;
    }
}

/// Law: the fixed Huffman codes are those of RFC 1951 section 3.2.6: code
/// length 8 for literals 0-143, 9 for literals 144-255, 7 for symbols
/// 256-279 and 8 for symbols 280-287; 5 for each of the 30 distance codes.
pub proof fn law_fixed_code_lengths()
    ensures
        fixed_lit_lens().len() == 288,
        forall|i: int| 0 <= i <= 143 ==> fixed_lit_lens()[i] == 8,
        forall|i: int| 144 <= i <= 255 ==> fixed_lit_lens()[i] == 9,
        forall|i: int| 256 <= i <= 279 ==> fixed_lit_lens()[i] == 7,
        forall|i: int| 280 <= i <= 287 ==> fixed_lit_lens()[i] == 8,
        fixed_dist_lens().len() == 30,
        forall|i: int| 0 <= i < 30 ==> fixed_dist_lens()[i] == 5,
{
}

/// Law: the length and distance codes are those of RFC 1951 section 3.2.5.
/// Length codes 257-264 stand for lengths 3-10 with no extra bits; from code
/// 265 on, four codes share each number of extra bits `(i - 4) / 4`, each
/// code's base following the range of the one before; code 285 stands for
/// length 258 with no extra bits. Distance codes 0-3 stand for distances
/// 1-4; from code 4 on, two codes share each number of extra bits
/// `(i - 2) / 2`, each base following the range of the one before.
pub proof fn law_length_distance_codes()
    ensures
        lbase_tab().len() == 29,
        lext_tab().len() == 29,
        forall|i: int| 0 <= i < 8 ==> lext_tab()[i] == 0 && lbase_tab()[i] == 3 + i,
        forall|i: int| 8 <= i < 28 ==> lext_tab()[i] == (i - 4) / 4,
        forall|i: int| 0 <= i < 27 ==> lbase_tab()[i + 1] == lbase_tab()[i] + p2(lext_tab()[i] as nat),
        lbase_tab()[28] == 258,
        lext_tab()[28] == 0,
        dbase_tab().len() == 30,
        dext_tab().len() == 30,
        forall|i: int| 0 <= i < 4 ==> dext_tab()[i] == 0 && dbase_tab()[i] == 1 + i,
        forall|i: int| 4 <= i < 30 ==> dext_tab()[i] == (i - 2) / 2,
        forall|i: int| 0 <= i < 29 ==> dbase_tab()[i + 1] == dbase_tab()[i] + p2(dext_tab()[i] as nat),
{
    reveal_with_fuel(p2, 14);
    assert forall|i: int| 0 <= i < 8 implies lext_tab()[i] == 0 && lbase_tab()[i] == 3 + i by {
        assert(lext_tab()[0] == 0 && lext_tab()[1] == 0 && lext_tab()[2] == 0 && lext_tab()[3] == 0);
        assert(lext_tab()[4] == 0 && lext_tab()[5] == 0 && lext_tab()[6] == 0 && lext_tab()[7] == 0);
    }
}

} // verus!
