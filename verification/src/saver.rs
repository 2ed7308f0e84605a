//! Saving asset data to raw bytes.
use vstd::prelude::*;
use std::sync::Arc;

use crate::asset::AssetData;
use crate::manager::AssetManagerContext;

verus! {

/// Errors that can occur during asset saving.
#[derive(Debug)]
#[non_exhaustive]
pub enum AssetSaveError {
    /// The asset type is not supported by this saver.
    UnsupportedType,
    /// Failed to serialize the asset data to bytes.
    Serialization(String),
    /// Any other error that occurred during saving.
    Other(String),
}

/// Trait for saving assets to raw byte data.
///
/// Asset savers are responsible for converting typed asset data back into raw bytes
/// that can be written to files or transmitted over the network. `D` is the
/// type of asset data (a trait object), `C` the type of the manager's context.
pub trait AssetSaver<D: ?Sized = dyn AssetData, C: ?Sized = dyn AssetManagerContext> {
    /// Converts asset data into raw bytes.
    ///
    /// `context` gives access to the asset manager's context, if one is set.
    fn asset_to_bytes(
        &self,
        asset: &D,
        context: Option<Arc<C>>,
    ) -> Result<Vec<u8>, AssetSaveError>;
}

/// The message of a saving error.
pub open spec fn save_error_message(e: AssetSaveError) -> Seq<char> {
    match e {
        AssetSaveError::UnsupportedType => "Unsupported asset type"@,
        AssetSaveError::Serialization(m) => "Serialization error: "@ + m@,
        AssetSaveError::Other(m) => m@,
    }
}

impl AssetSaveError {
    /// The message describing this error.
    pub fn message(&self) -> (r: String)
        ensures
            r@ == save_error_message(*self),
    {
        match self {
            AssetSaveError::UnsupportedType => String::from_str("Unsupported asset type"),
            AssetSaveError::Serialization(m) => {
                proof {
                    reveal_strlit("Serialization error: ");
                }
                let mut r = String::from_str("Serialization error: ");
                r.append(m.as_str());
                r
            },
            AssetSaveError::Other(m) => m.clone(),
        }
    }
}

} // verus!
