//! An asset framework for graphics and games: asset identifiers, asset
//! registries, pluggable filesystems, serialization backends and compression.
use vstd::prelude::*;

pub mod asset;
pub mod asset_id;
pub mod asset_type;
pub mod compression;
pub mod filesystem;
pub mod inflate;
pub mod loader;
pub mod manager;
pub mod saver;
pub mod serialize;
pub mod type_registry;

pub use asset::{Asset, AssetData, AssetError};
pub use asset_id::{AssetId, encode_asset_path};
pub use asset_type::{AssetType, LoaderHandle, SaverHandle};
pub use compression::CompressionMode;
pub use filesystem::{
    EmbedFilesystem, EmbedFilesystemProvider, FallbackFilesystem, Filesystem, FilesystemError,
};
pub use loader::{AssetLoadError, AssetLoader};
pub use manager::{AssetManager, AssetManagerContext};
pub use saver::{AssetSaveError, AssetSaver};
pub use serialize::{
    AssetSerializationBackend, NullSerializationBackend, SerializedAsset, SerializedData,
};

verus! {
} // verus!
