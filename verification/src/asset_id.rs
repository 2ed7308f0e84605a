//! Asset identifiers: a thin wrapper around `u64`, and the deterministic
//! mapping from an asset path to its identifier.
//!
//! An asset path is first percent-encoded (RFC 3986: unreserved characters and
//! `/` are kept, every other byte of the UTF-8 encoding becomes `%XX` with
//! upper-case hex digits), and the encoded bytes are then hashed with XXH3
//! (64 bit) under a secret derived from a fixed seed.
use vstd::prelude::*;
use vstd::std_specs::convert::FromSpecImpl;
use vstd::std_specs::convert::FromSpec;
use vstd::string::StringSliceAdditionalSpecFns;

verus! {

/// Seed from which the XXH3 secret used for asset ids is derived.
pub const ASSET_ID_SECRET_SEED: u64 = 1111u64;

/// Smallest secret accepted by `xxhash_rust::xxh3::xxh3_64_with_secret`.
pub const XXH3_SECRET_SIZE_MIN: usize = 136usize;

/// Unique identifier of an asset.
#[derive(Clone, Copy, Debug, PartialEq, Eq, Structural, PartialOrd, Ord, Hash)]
pub struct AssetId(pub u64);

impl AssetId {
    /// Generates the deterministic id of an asset path
    /// (same as `AssetId::from(asset_path)`).
    pub fn from_path(asset_path: &str) -> (r: AssetId)
        ensures
            r.0 == asset_id_for_path(asset_path.spec_bytes()),
    {
        let encoded = encode_asset_path(asset_path);
        let secret = xxh3_secret_from_seed(ASSET_ID_SECRET_SEED);
        let h = xxh3_64_hash_with_secret(encoded.as_slice(), secret.as_slice());
        AssetId(h)
    }
}

impl Default for AssetId {
    /// The zero id, which marks an asset that has not been assigned an id yet.
    fn default() -> (r: Self)
        ensures
            r.0 == 0,
    {
        AssetId(0)
    }
}

impl From<u64> for AssetId {
    fn from(value: u64) -> (r: Self) {
        AssetId(value)
    }
}

impl FromSpecImpl<u64> for AssetId {
    open spec fn obeys_from_spec() -> bool {
        true
    }

    open spec fn from_spec(value: u64) -> Self {
        AssetId(value)
    }
}

impl From<AssetId> for u64 {
    fn from(value: AssetId) -> (r: Self) {
        value.0
    }
}

impl FromSpecImpl<AssetId> for u64 {
    open spec fn obeys_from_spec() -> bool {
        true
    }

    open spec fn from_spec(value: AssetId) -> Self {
        value.0
    }
}

impl<'a> From<&'a str> for AssetId {
    /// Generates a deterministic asset id from an asset path.
    fn from(value: &'a str) -> (r: Self) {
        AssetId::from_path(value)
    }
}

impl<'a> FromSpecImpl<&'a str> for AssetId {
    open spec fn obeys_from_spec() -> bool {
        true
    }

    open spec fn from_spec(value: &'a str) -> Self {
        AssetId(asset_id_for_path(value.spec_bytes()))
    }
}

/// Bytes that percent-encoding keeps as they are: the RFC 3986 unreserved
/// characters (`A-Z a-z 0-9 - _ . ~`) and the path separator `/`.
pub open spec fn is_kept_byte(b: u8) -> bool {
    ||| 65 <= b <= 90
    ||| 97 <= b <= 122
    ||| 48 <= b <= 57
    ||| b == 45
    ||| b == 95
    ||| b == 46
    ||| b == 126
    ||| b == 47
}

/// The upper-case hexadecimal digit (ASCII) of a value below 16.
pub open spec fn hex_digit_upper(n: int) -> u8 {
    if n < 10 {
        (48 + n) as u8
    } else {
        (55 + n) as u8
    }
}

/// Percent-encoding of a single byte.
pub open spec fn encode_byte(b: u8) -> Seq<u8> {
    if is_kept_byte(b) {
        seq![b]
    } else {
        seq![37u8, hex_digit_upper((b / 16) as int), hex_digit_upper((b % 16) as int)]
    }
}

/// Percent-encoding of a byte string, byte by byte.
pub open spec fn percent_encode(bytes: Seq<u8>) -> Seq<u8>
    decreases bytes.len(),
{
    if bytes.len() == 0 {
        seq![]
    } else {
        percent_encode(bytes.drop_last()) + encode_byte(bytes.last())
    }
}

/// The id of the asset whose path has the UTF-8 encoding `path`.
pub open spec fn asset_id_for_path(path: Seq<u8>) -> u64 {
    xxh3_64_with_secret_result(percent_encode(path), xxh3_secret_for_seed(ASSET_ID_SECRET_SEED as u64))
}

/// What `xxhash_rust::const_xxh3::const_custom_default_secret` returns for a seed.
pub uninterp spec fn xxh3_secret_for_seed(seed: u64) -> Seq<u8>;

/// What `xxhash_rust::xxh3::xxh3_64_with_secret` returns for an input and a secret.
pub uninterp spec fn xxh3_64_with_secret_result(input: Seq<u8>, secret: Seq<u8>) -> u64;

/// Calls `xxhash_rust::const_xxh3::const_custom_default_secret(seed)`.
/// Trusted: the result is the named value for the seed, and it holds the
/// 192 bytes of the `[u8; 192]` that the function returns.
#[verifier::external_body]
fn xxh3_secret_from_seed(seed: u64) -> (r: Vec<u8>)
    ensures
        r@ == xxh3_secret_for_seed(seed),
        r@.len() == 192,
{
    xxhash_rust::const_xxh3::const_custom_default_secret(seed).to_vec()
}

/// Calls `xxhash_rust::xxh3::xxh3_64_with_secret(input, secret)`, which
/// asserts (panics) unless the secret has at least 136 bytes.
/// Trusted: the result is the named value for the input and the secret.
#[verifier::external_body]
fn xxh3_64_hash_with_secret(input: &[u8], secret: &[u8]) -> (r: u64)
    requires
        secret@.len() >= XXH3_SECRET_SIZE_MIN,
    ensures
        r == xxh3_64_with_secret_result(input@, secret@),
{
    xxhash_rust::xxh3::xxh3_64_with_secret(input, secret)
}

/// Upper-case hexadecimal digit of a value below 16.
fn hex_digit(n: u8) -> (r: u8)
    requires
        n < 16,
    ensures
        r == hex_digit_upper(n as int),
{
    if n < 10 {
        48 + n
    } else {
        55 + n
    }
}

/// Whether a byte is kept as it is by percent-encoding.
pub fn is_kept(b: u8) -> (r: bool)
    ensures
        r == is_kept_byte(b),
{
    (65 <= b && b <= 90) || (97 <= b && b <= 122) || (48 <= b && b <= 57) || b == 45 || b == 95
        || b == 46 || b == 126 || b == 47
}

/// Percent-encodes an asset path for URI safety, preserving forward slashes
/// and the unreserved characters of RFC 3986; every other byte of the path's
/// UTF-8 encoding becomes `%XX`.
pub fn encode_asset_path(asset_path: &str) -> (r: Vec<u8>)
    ensures
        r@ == percent_encode(asset_path.spec_bytes()),
{
    let bytes = asset_path.as_bytes();
    let mut out: Vec<u8> = Vec::new();
    let mut i: usize = 0;
    while i < bytes.len()
        invariant
            i <= bytes@.len(),
            bytes@ == asset_path.spec_bytes(),
            out@ == percent_encode(bytes@.take(i as int)),
        decreases bytes@.len() - i,
    {
        let b = bytes[i];
        assert(bytes@.take(i + 1).drop_last() =~= bytes@.take(i as int));
        if is_kept(b) {
            out.push(b);
        } else {
            out.push(37u8);
            out.push(hex_digit(b / 16));
            out.push(hex_digit(b % 16));
        }
        i = i + 1;
    }
    assert(bytes@.take(bytes@.len() as int) =~= bytes@);
    out
}

/// Every byte of a percent-encoded path is a kept byte or `%`: the result
/// is safe for use in URIs.
pub open spec fn is_uri_safe(bytes: Seq<u8>) -> bool {
    forall|i: int| 0 <= i < bytes.len() ==> is_kept_byte(#[trigger] bytes[i]) || bytes[i] == 37
}

/// Law: percent-encoding yields only unreserved characters, `/` and `%`
/// (the digits of each `%XX` are unreserved), so encoded paths are URI-safe.
pub proof fn law_percent_encode_uri_safe(bytes: Seq<u8>)
    ensures
        is_uri_safe(percent_encode(bytes)),
    decreases bytes.len(),
{
    if bytes.len() > 0 {
        let prefix = percent_encode(bytes.drop_last());
        let unit = encode_byte(bytes.last());
        law_percent_encode_uri_safe(bytes.drop_last());
        let b = bytes.last();
        assert(is_kept_byte(hex_digit_upper((b / 16) as int)));
        assert(is_kept_byte(hex_digit_upper((b % 16) as int)));
        assert(is_uri_safe(unit));
        let out = prefix + unit;
        assert forall|i: int| 0 <= i < out.len() implies is_kept_byte(#[trigger] out[i])
            || out[i] == 37 by {
            if i < prefix.len() {
                assert(out[i] == prefix[i]);
            } else {
                assert(out[i] == unit[i - prefix.len()]);
            }
        }
    }
}

/// Law: percent-encoding keeps exactly the characters `A`-`Z`, `a`-`z`,
/// `0`-`9`, `-`, `_`, `.`, `~` and `/`, and writes every other byte `b` as
/// `%` followed by the upper-case hexadecimal digits of `b / 16` and
/// `b % 16` (so `@` becomes `%40`); a path is encoded byte by byte.
pub proof fn law_percent_encode_bytes(b: u8, x: Seq<u8>, y: Seq<u8>)
    ensures
        ({
            let c = b as char;
            ||| 'A' <= c <= 'Z'
            ||| 'a' <= c <= 'z'
            ||| '0' <= c <= '9'
            ||| c == '-'
            ||| c == '_'
            ||| c == '.'
            ||| c == '~'
            ||| c == '/'
        }) ==> percent_encode(seq![b]) == seq![b],
        !({
            let c = b as char;
            ||| 'A' <= c <= 'Z'
            ||| 'a' <= c <= 'z'
            ||| '0' <= c <= '9'
            ||| c == '-'
            ||| c == '_'
            ||| c == '.'
            ||| c == '~'
            ||| c == '/'
        }) ==> percent_encode(seq![b]) == seq![
            '%' as u8,
            (if b / 16 < 10 { '0' as u8 + b / 16 } else { 'A' as u8 + (b / 16 - 10) }) as u8,
            (if b % 16 < 10 { '0' as u8 + b % 16 } else { 'A' as u8 + (b % 16 - 10) }) as u8,
        ],
        percent_encode(x + y) == percent_encode(x) + percent_encode(y),
    decreases y.len(),
{
    assert(seq![b].drop_last() =~= Seq::<u8>::empty());
    assert(seq![b].last() == b);
    assert(percent_encode(Seq::<u8>::empty()) =~= Seq::<u8>::empty());
    assert(percent_encode(seq![b]) == percent_encode(Seq::<u8>::empty()) + encode_byte(b));
    assert(percent_encode(seq![b]) =~= encode_byte(b));
    if y.len() > 0 {
        law_percent_encode_bytes(b, x, y.drop_last());
        assert((x + y).drop_last() =~= x + y.drop_last());
        assert(percent_encode(x + y.drop_last()) + encode_byte(y.last()) =~= percent_encode(x)
            + (percent_encode(y.drop_last()) + encode_byte(y.last())));
    } else {
        assert(x + y =~= x);
        assert(percent_encode(y) =~= Seq::<u8>::empty());
        assert(percent_encode(x) + percent_encode(y) =~= percent_encode(x));
    }
}

/// Law: converting an id to `u64` and back, or a `u64` to an id and back,
/// gives the value that was started from.
pub proof fn law_asset_id_u64_roundtrip(value: u64, id: AssetId)
    ensures
        <u64 as FromSpec<AssetId>>::from_spec(<AssetId as FromSpec<u64>>::from_spec(value))
            == value,
        <AssetId as FromSpec<u64>>::from_spec(<u64 as FromSpec<AssetId>>::from_spec(id))
            == id,
{
}

/// Law: ids are deterministic: two paths with the same characters give the
/// same id.
pub proof fn law_asset_id_deterministic(a: &str, b: &str)
    requires
        a@ == b@,
    ensures
        <AssetId as FromSpec<&str>>::from_spec(a) == <AssetId as FromSpec<&str>>::from_spec(b),
{
}

/// The lower-case hexadecimal digit of a value below 16.
pub open spec fn hex_char_lower(n: int) -> char {
    if n < 10 {
        (48 + n) as char
    } else {
        (87 + n) as char
    }
}

/// Lower-case hexadecimal digits of `v`, without leading zeros.
pub open spec fn hex_lower(v: nat) -> Seq<char>
    decreases v,
{
    if v < 16 {
        seq![hex_char_lower(v as int)]
    } else {
        hex_lower(v / 16) + seq![hex_char_lower((v % 16) as int)]
    }
}

/// The debug representation of an id: `AssetId(0x0x` then the lower-case
/// hexadecimal digits of the value, then `)`.
pub open spec fn debug_repr(id: AssetId) -> Seq<char> {
    "AssetId(0x0x"@ + hex_lower(id.0 as nat) + ")"@
}

/// The value of a lower-case hexadecimal digit (`0`-`9`, `a`-`f`).
pub open spec fn lower_hex_value(c: char) -> int {
    if '0' <= c <= '9' {
        c as int - '0' as int
    } else {
        c as int - 'a' as int + 10
    }
}

/// The number that a string of lower-case hexadecimal digits spells.
pub open spec fn parse_lower_hex(s: Seq<char>) -> int
    decreases s.len(),
{
    if s.len() == 0 {
        0
    } else {
        16 * parse_lower_hex(s.drop_last()) + lower_hex_value(s.last())
    }
}

/// Law: the digits of an id's debug representation are lower-case
/// hexadecimal digits (`0`-`9`, `a`-`f`) that spell its value, with no
/// leading zero unless the value is zero.
pub proof fn law_hex_lower(v: nat)
    ensures
        hex_lower(v).len() >= 1,
        forall|i: int|
            0 <= i < hex_lower(v).len() ==> ('0' <= #[trigger] hex_lower(v)[i] <= '9' || 'a'
                <= hex_lower(v)[i] <= 'f'),
        parse_lower_hex(hex_lower(v)) == v,
        v > 0 ==> hex_lower(v)[0] != '0',
    decreases v,
{
    let d = (v % 16) as int;
    assert(0 <= d < 16);
    if d < 10 {
        assert(((48 + d) as char) as int == 48 + d);
    } else {
        assert(((87 + d) as char) as int == 87 + d);
    }
    assert(lower_hex_value(hex_char_lower(d)) == d);
    assert(v == 16 * (v / 16) + d);
    if v < 16 {
        let h = hex_lower(v);
        assert(h.drop_last() =~= Seq::<char>::empty());
        assert(parse_lower_hex(Seq::<char>::empty()) == 0);
        assert(h.last() == hex_char_lower(v as int));
    } else {
        law_hex_lower(v / 16);
        let p = hex_lower(v / 16);
        let h = hex_lower(v);
        assert(h.drop_last() =~= p);
        assert(h.last() == hex_char_lower(d));
        assert(h[0] == p[0]);
        assert forall|i: int| 0 <= i < h.len() implies ('0' <= #[trigger] h[i] <= '9' || 'a' <= h[i]
            <= 'f') by {
            if i < p.len() {
                assert(h[i] == p[i]);
            }
        }
    }
}

/// The one-character string of a lower-case hexadecimal digit.
fn hex_digit_str(d: u64) -> (r: &'static str)
    requires
        d < 16,
    ensures
        r@ == seq![hex_char_lower(d as int)],
{
    proof {
        reveal_strlit("0");
        reveal_strlit("1");
        reveal_strlit("2");
        reveal_strlit("3");
        reveal_strlit("4");
        reveal_strlit("5");
        reveal_strlit("6");
        reveal_strlit("7");
        reveal_strlit("8");
        reveal_strlit("9");
        reveal_strlit("a");
        reveal_strlit("b");
        reveal_strlit("c");
        reveal_strlit("d");
        reveal_strlit("e");
        reveal_strlit("f");
    }
    let r = if d == 0 {
        "0"
    } else if d == 1 {
        "1"
    } else if d == 2 {
        "2"
    } else if d == 3 {
        "3"
    } else if d == 4 {
        "4"
    } else if d == 5 {
        "5"
    } else if d == 6 {
        "6"
    } else if d == 7 {
        "7"
    } else if d == 8 {
        "8"
    } else if d == 9 {
        "9"
    } else if d == 10 {
        "a"
    } else if d == 11 {
        "b"
    } else if d == 12 {
        "c"
    } else if d == 13 {
        "d"
    } else if d == 14 {
        "e"
    } else {
        "f"
    };
    assert(r@ =~= seq![hex_char_lower(d as int)]);
    r
}

/// Appends the lower-case hexadecimal digits of `v`.
fn push_hex_lower(out: &mut String, v: u64)
    ensures
        final(out)@ == old(out)@ + hex_lower(v as nat),
    decreases v,
{
    if v >= 16 {
        push_hex_lower(out, v / 16);
    }
    out.append(hex_digit_str(v % 16));
    proof {
        if v >= 16 {
            assert(hex_lower(v as nat) == hex_lower((v / 16) as nat) + seq![hex_char_lower((v % 16) as int)]);
        }
    }
    assert(final(out)@ =~= old(out)@ + hex_lower(v as nat));
}

impl AssetId {
    /// The debug representation of the id, `AssetId(0x0x…)` with the value
    /// in lower-case hexadecimal.
    pub fn debug_string(&self) -> (r: String)
        ensures
            r@ == debug_repr(*self),
    {
        proof {
            reveal_strlit("AssetId(0x0x");
            reveal_strlit(")");
        }
        let mut r = String::from_str("AssetId(0x0x");
        push_hex_lower(&mut r, self.0);
        r.append(")");
        r
    }
}

} // verus!
