//! Serialized representation of assets, and the backends that turn it into bytes.
use vstd::prelude::*;
use vstd::std_specs::cmp::PartialEqSpecImpl;

use crate::asset_id::AssetId;
use crate::compression::CompressionMode;

verus! {

/// A serialized representation of an asset for storage or transmission.
///
/// This struct contains all the necessary information to reconstruct an asset,
/// including its ID, type information, and the serialized data payload.
#[derive(Debug)]
pub struct SerializedAsset {
    /// The unique identifier of the asset
    pub id: AssetId,
    /// The name of the asset type used to determine how to deserialize the data
    pub asset_type: String,
    /// The serialized asset data as raw bytes
    pub data: Vec<u8>,
}

/// Whether two byte slices hold the same bytes.
pub fn bytes_equal(a: &[u8], b: &[u8]) -> (r: bool)
    ensures
        r == (a@ == b@),
{
    if a.len() != b.len() {
        return false;
    }
    let mut i: usize = 0;
    while i < a.len()
        invariant
            a@.len() == b@.len(),
            i <= a@.len(),
            a@.take(i as int) == b@.take(i as int),
        decreases a@.len() - i,
    {
        if a[i] != b[i] {
            assert(a@[i as int] != b@[i as int]);
            return false;
        }
        assert(a@.take(i + 1) =~= a@.take(i as int).push(a@[i as int]));
        assert(b@.take(i + 1) =~= b@.take(i as int).push(b@[i as int]));
        i = i + 1;
    }
    assert(a@.take(a@.len() as int) =~= a@);
    assert(b@.take(b@.len() as int) =~= b@);
    true
}

impl PartialEq for SerializedAsset {
    /// Two assets are considered equal if all their fields match exactly.
    fn eq(&self, other: &Self) -> (r: bool) {
        self.id.0 == other.id.0 && self.asset_type == other.asset_type && bytes_equal(
            self.data.as_slice(),
            other.data.as_slice(),
        )
    }
}

impl PartialEqSpecImpl for SerializedAsset {
    open spec fn obeys_eq_spec() -> bool {
        true
    }

    open spec fn eq_spec(&self, other: &SerializedAsset) -> bool {
        &&& self.id == other.id
        &&& self.asset_type@ == other.asset_type@
        &&& self.data@ == other.data@
    }
}

/// Trait for implementing different asset serialization backends.
///
/// This trait allows for pluggable serialization strategies for assets,
/// enabling support for different formats like JSON, MessagePack, bincode, etc.
/// Errors carry a message.
pub trait AssetSerializationBackend: Send + Sync {
    /// Whether `r` is an answer this backend may give when asked to
    /// serialize `asset`. Implementations in verified code define it; for
    /// others it stands for the answers their `serialize` gives.
    closed spec fn spec_serializes(&self, asset: SerializedAsset, r: Result<Vec<u8>, String>) -> bool {
        arbitrary::<spec_fn(&Self, SerializedAsset, Result<Vec<u8>, String>) -> bool>()(self, asset, r)
    }

    /// Serializes a SerializedAsset into bytes using the backend's format.
    fn serialize(&self, asset: &SerializedAsset) -> (r: Result<Vec<u8>, String>)
        ensures
            self.spec_serializes(*asset, r),
    ;

    /// Whether `r` is an answer this backend may give when asked to
    /// deserialize `bytes`. Implementations in verified code define it; for
    /// others it stands for the answers their `deserialize` gives.
    closed spec fn spec_deserializes(&self, bytes: Seq<u8>, r: Result<SerializedAsset, String>) -> bool {
        arbitrary::<spec_fn(&Self, Seq<u8>, Result<SerializedAsset, String>) -> bool>()(self, bytes, r)
    }

    /// Deserializes bytes back into a SerializedAsset using the backend's format.
    fn deserialize(&self, bytes: &[u8]) -> (r: Result<SerializedAsset, String>)
        ensures
            self.spec_deserializes(bytes@, r),
    ;
}

/// Whether `r` is the error that `NullSerializationBackend` gives.
pub open spec fn is_null_backend_answer<T>(r: Result<T, String>) -> bool {
    r matches Err(m) && m@ == null_backend_message()
}

/// The message of the errors of `NullSerializationBackend`.
pub open spec fn null_backend_message() -> Seq<char> {
    "Unimplemented for NullSerializationBackend"@
}

/// A null implementation of AssetSerializationBackend that always returns errors.
///
/// This backend is useful as a placeholder or for testing error conditions.
pub struct NullSerializationBackend;

impl NullSerializationBackend {
    /// The error that both operations of this backend return.
    fn unimplemented_error() -> (r: String)
        ensures
            r@ == null_backend_message(),
    {
        String::from_str("Unimplemented for NullSerializationBackend")
    }
}

impl AssetSerializationBackend for NullSerializationBackend {
    open spec fn spec_serializes(&self, asset: SerializedAsset, r: Result<Vec<u8>, String>) -> bool {
        is_null_backend_answer(r)
    }

    open spec fn spec_deserializes(&self, bytes: Seq<u8>, r: Result<SerializedAsset, String>) -> bool {
        is_null_backend_answer(r)
    }

    /// Always returns an error - this backend does not implement serialization.
    fn serialize(&self, asset: &SerializedAsset) -> (r: Result<Vec<u8>, String>)
        ensures
            r matches Err(m) && m@ == null_backend_message(),
    {
        Err(Self::unimplemented_error())
    }

    /// Always returns an error - this backend does not implement deserialization.
    fn deserialize(&self, bytes: &[u8]) -> (r: Result<SerializedAsset, String>)
        ensures
            r matches Err(m) && m@ == null_backend_message(),
    {
        Err(Self::unimplemented_error())
    }
}

/// Represents serialized asset data that can be either compressed or uncompressed.
#[derive(Debug, Clone, PartialEq, PartialOrd)]
pub enum SerializedData {
    /// Compressed data variant containing compression mode and compressed bytes
    Compressed(CompressionMode, Vec<u8>),
    /// Uncompressed data variant containing raw bytes
    Uncompressed(Vec<u8>),
}

impl SerializedData {
    /// Returns the compression mode if the data is compressed, or None if uncompressed.
    pub fn compression_mode(&self) -> (r: Option<CompressionMode>)
        ensures
            r == match self {
                SerializedData::Compressed(mode, _) => Some(*mode),
                SerializedData::Uncompressed(_) => None::<CompressionMode>,
            },
    {
        match self {
            SerializedData::Compressed(mode, _) => Some(*mode),
            SerializedData::Uncompressed(_) => None,
        }
    }

    /// Returns a reference to the underlying data bytes.
    ///
    /// For compressed data, this returns the compressed bytes.
    /// For uncompressed data, this returns the raw bytes.
    pub fn data(&self) -> (r: &[u8])
        ensures
            r@ == match self {
                SerializedData::Compressed(_, d) => d@,
                SerializedData::Uncompressed(d) => d@,
            },
    {
        match self {
            SerializedData::Compressed(_, data) => data.as_slice(),
            SerializedData::Uncompressed(data) => data.as_slice(),
        }
    }
}

} // verus!
