use extendable_assets::compression::{adler32_checksum, zlib_compress, zlib_decompress};
use extendable_assets::CompressionMode;

#[test]
fn adler32_known_values() {
    assert_eq!(adler32_checksum(b"Wikipedia"), 0x11E6_0398);
    assert_eq!(adler32_checksum(b""), 1);
    assert_eq!(adler32_checksum(b"hello"), 0x062C_0215);
}

#[test]
fn compress_small_input_exact_bytes() {
    let out = CompressionMode::Zlib.compress(b"hello").unwrap();
    assert_eq!(
        out,
        vec![
            0x78, 0x01, 0x01, 0x05, 0x00, 0xFA, 0xFF, b'h', b'e', b'l', b'l', b'o', 0x06, 0x2C,
            0x02, 0x15
        ]
    );
    let empty = CompressionMode::Zlib.compress(b"").unwrap();
    assert_eq!(empty, vec![0x78, 0x01, 0x01, 0x00, 0x00, 0xFF, 0xFF, 0x00, 0x00, 0x00, 0x01]);
}

#[test]
fn roundtrip_small_and_large() {
    for len in [0usize, 1, 5, 1000, 65535, 65536, 200_000] {
        let data: Vec<u8> = (0..len).map(|i| (i * 7 % 251) as u8).collect();
        let c = CompressionMode::Zlib.compress(&data).unwrap();
        let blocks = if len == 0 { 1 } else { (len + 65534) / 65535 };
        assert_eq!(c.len(), 2 + 5 * blocks + len + 4);
        assert_eq!(CompressionMode::Zlib.decompress(&c).unwrap(), data);
    }
}

#[test]
fn decompress_rejects_corrupted_streams() {
    let good = zlib_compress(b"hello world");
    assert_eq!(zlib_decompress(&good).unwrap(), b"hello world".to_vec());

    // Wrong checksum.
    let mut bad = good.clone();
    let last = bad.len() - 1;
    bad[last] ^= 1;
    assert!(zlib_decompress(&bad).is_none());

    // Truncated.
    assert!(zlib_decompress(&good[..good.len() - 1]).is_none());
    assert!(zlib_decompress(&good[..3]).is_none());
    assert!(zlib_decompress(&[]).is_none());

    // Trailing bytes.
    let mut longer = good.clone();
    longer.push(0);
    assert!(zlib_decompress(&longer).is_none());

    // Bad header check bits.
    let mut header = good.clone();
    header[1] = 0x02;
    assert!(zlib_decompress(&header).is_none());

    // LEN and NLEN disagree.
    let mut lens = good.clone();
    lens[5] ^= 0xFF;
    assert!(zlib_decompress(&lens).is_none());
}

#[test]
fn decompress_reads_other_header_levels() {
    // Header 0x78 0x9C (default level) with the same stored block payload.
    let mut s = zlib_compress(b"abc");
    s[1] = 0x9C;
    assert_eq!(zlib_decompress(&s).unwrap(), b"abc".to_vec());
}

fn unhex(s: &str) -> Vec<u8> {
    (0..s.len()).step_by(2).map(|i| u8::from_str_radix(&s[i..i + 2], 16).unwrap()).collect()
}

#[test]
fn decompress_reads_fixed_huffman_blocks() {
    // The zlib stream of "a" at the default level: one fixed-Huffman block.
    let a = unhex("789c4b040000620062");
    assert_eq!(CompressionMode::Zlib.decompress(&a).unwrap(), b"a".to_vec());
    // A fixed-Huffman block with back references.
    let hello = unhex("789ccb48cdc9c957c8402701680308b1");
    assert_eq!(zlib_decompress(&hello).unwrap(), b"hello hello hello hello".to_vec());
}

#[test]
fn decompress_reads_dynamic_huffman_blocks() {
    let mut expected: Vec<u8> = Vec::new();
    for i in 0..40 {
        expected.extend_from_slice(format!("The quick brown fox jumps over the lazy dog {}. ", i).as_bytes());
    }
    let hex = [
        "78da95d4c911c2500c04d154140165cd982d0f2700c6ecf0c160b6e8710a7d56df5e8d9a7d17f7e1d09e62dd97",
        "f735b6e513c7e1727b4479757d3cc7f379f5fbc6a6eca29a4403f264b9586e96d72c9fb27cc6f239cb172c5f42",
        "26ca0a5d13c226944d489bd036216e42dd84bc097d057d45770b7d057d057d057d057d057d057d057d0d7d0d7d",
        "4d1f33f435f435f435f435f435f4f5e8fb073c239947",
    ]
    .join("");
    let stream = unhex(&hex);
    // The block is a dynamic-Huffman block (BTYPE 2).
    assert_eq!((stream[2] >> 1) & 3, 2);
    assert_eq!(zlib_decompress(&stream).unwrap(), expected);
    // A reserved block type (3) is refused.
    let mut bad = stream.clone();
    bad[2] |= 0x06;
    assert!(zlib_decompress(&bad).is_none());
}
