use extendable_assets::{
    AssetId, AssetLoadError, AssetSerializationBackend, CompressionMode,
    NullSerializationBackend, SerializedAsset, SerializedData,
};

fn asset(id: u64, ty: &str, data: &[u8]) -> SerializedAsset {
    SerializedAsset { id: AssetId::from(id), asset_type: ty.to_string(), data: data.to_vec() }
}

#[test]
fn serialized_asset_equality_compares_all_fields() {
    assert_eq!(asset(1, "T", b"abc"), asset(1, "T", b"abc"));
    assert_ne!(asset(1, "T", b"abc"), asset(2, "T", b"abc"));
    assert_ne!(asset(1, "T", b"abc"), asset(1, "U", b"abc"));
    assert_ne!(asset(1, "T", b"abc"), asset(1, "T", b"abd"));
    assert_ne!(asset(1, "T", b"abc"), asset(1, "T", b"ab"));
}

#[test]
fn null_backend_always_fails() {
    let b = NullSerializationBackend;
    assert_eq!(
        b.serialize(&asset(1, "T", b"")).unwrap_err(),
        "Unimplemented for NullSerializationBackend"
    );
    assert_eq!(b.deserialize(b"{}").unwrap_err(), "Unimplemented for NullSerializationBackend");
}

#[test]
fn serialized_data_accessors() {
    let c = SerializedData::Compressed(CompressionMode::Zlib, vec![1, 2, 3]);
    assert_eq!(c.compression_mode(), Some(CompressionMode::Zlib));
    assert_eq!(c.data(), &[1, 2, 3]);
    let u = SerializedData::Uncompressed(vec![4, 5]);
    assert_eq!(u.compression_mode(), None);
    assert_eq!(u.data(), &[4, 5]);
}

#[test]
fn load_error_messages() {
    assert_eq!(
        AssetLoadError::Deserialization("eof".to_string()).message(),
        "Deserialization error: eof"
    );
    assert_eq!(AssetLoadError::Other("x".to_string()).message(), "x");
}
