use extendable_assets::AssetId;
use extendable_assets::asset_id::encode_asset_path;

fn expected_hash(encoded: &[u8]) -> u64 {
    let secret = xxhash_rust::const_xxh3::const_custom_default_secret(1111);
    xxhash_rust::xxh3::xxh3_64_with_secret(encoded, &secret)
}

#[test]
fn encode_keeps_unreserved_and_slashes() {
    assert_eq!(encode_asset_path("textures/grass_01.png"), b"textures/grass_01.png".to_vec());
    assert_eq!(encode_asset_path("A-Z.a~z"), b"A-Z.a~z".to_vec());
    assert_eq!(encode_asset_path(""), Vec::<u8>::new());
}

#[test]
fn encode_percent_encodes_everything_else() {
    assert_eq!(encode_asset_path("a b"), b"a%20b".to_vec());
    assert_eq!(encode_asset_path("100%"), b"100%25".to_vec());
    assert_eq!(encode_asset_path("x\\y?"), b"x%5Cy%3F".to_vec());
    // Non-ASCII characters: every byte of their UTF-8 encoding.
    assert_eq!(encode_asset_path("é"), b"%C3%A9".to_vec());
    assert_eq!(encode_asset_path("日/"), b"%E6%97%A5/".to_vec());
}

#[test]
fn id_from_path_is_hash_of_encoded_path() {
    let id = AssetId::from("textures/my grass.png");
    assert_eq!(u64::from(id), expected_hash(b"textures/my%20grass.png"));
    assert_eq!(AssetId::from_path("a"), AssetId::from("a"));
    assert_eq!(AssetId::from("same/path"), AssetId::from("same/path"));
    assert_ne!(AssetId::from("one"), AssetId::from("two"));
    assert_ne!(AssetId::from("a b"), AssetId::from("a%20b"));
}

#[test]
fn u64_conversions_roundtrip() {
    let v: u64 = rand::random::<u64>();
    let id = AssetId::from(v);
    assert_eq!(u64::from(id), v);
    assert_eq!(id.0, v);
    assert_eq!(AssetId::from(u64::from(id)), id);
    assert_eq!(AssetId::default(), AssetId::from(0u64));
}

#[test]
fn debug_string_format() {
    assert_eq!(AssetId::from(0u64).debug_string(), "AssetId(0x0x0)");
    assert_eq!(AssetId::from(255u64).debug_string(), "AssetId(0x0xff)");
    assert_eq!(AssetId::from(0x1f2e3d4cu64).debug_string(), "AssetId(0x0x1f2e3d4c)");
    assert_eq!(AssetId::from(u64::MAX).debug_string(), "AssetId(0x0xffffffffffffffff)");
}

#[test]
fn ordering_follows_value() {
    assert!(AssetId::from(1u64) < AssetId::from(2u64));
    assert_eq!(AssetId::from(3u64).max(AssetId::from(9u64)), AssetId::from(9u64));
}
