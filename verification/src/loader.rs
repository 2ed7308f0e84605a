//! Loading asset data from raw bytes.
use vstd::prelude::*;
use std::sync::Arc;

use crate::asset::AssetData;
use crate::manager::AssetManagerContext;

verus! {

/// Errors that can occur during asset loading.
#[derive(Debug)]
#[non_exhaustive]
pub enum AssetLoadError {
    /// Failed to deserialize the asset data from bytes.
    Deserialization(String),
    /// Any other error that occurred during loading.
    Other(String),
}

/// Trait for loading assets from raw byte data.
///
/// Asset loaders are responsible for converting raw bytes (typically read from files)
/// into typed asset data that can be used by the application. `D` is the type
/// of asset data (a trait object), `C` the type of the manager's context.
pub trait AssetLoader<D: ?Sized = dyn AssetData, C: ?Sized = dyn AssetManagerContext> {
    /// Whether `r` is an answer this loader may give for `bytes` and
    /// `context`. Implementations in verified code define it; for others it
    /// stands for the answers their `asset_from_bytes` gives.
    closed spec fn spec_loads(&self, bytes: Seq<u8>, context: Option<Arc<C>>, r: Result<Box<D>, AssetLoadError>) -> bool {
        arbitrary::<spec_fn(&Self, Seq<u8>, Option<Arc<C>>, Result<Box<D>, AssetLoadError>) -> bool>()(
            self,
            bytes,
            context,
            r,
        )
    }

    /// Converts raw bytes into asset data.
    ///
    /// `context` gives access to the asset manager's context, if one is set.
    fn asset_from_bytes(
        &self,
        bytes: &[u8],
        context: Option<Arc<C>>,
    ) -> (r: Result<Box<D>, AssetLoadError>)
        ensures
            self.spec_loads(bytes@, context, r),
    ;
}

/// The message of a loading error.
pub open spec fn load_error_message(e: AssetLoadError) -> Seq<char> {
    match e {
        AssetLoadError::Deserialization(m) => "Deserialization error: "@ + m@,
        AssetLoadError::Other(m) => m@,
    }
}

impl AssetLoadError {
    /// The message describing this error.
    pub fn message(&self) -> (r: String)
        ensures
            r@ == load_error_message(*self),
    {
        match self {
            AssetLoadError::Deserialization(m) => {
                proof {
                    reveal_strlit("Deserialization error: ");
                }
                let mut r = String::from_str("Deserialization error: ");
                r.append(m.as_str());
                r
            },
            AssetLoadError::Other(m) => m.clone(),
        }
    }
}

} // verus!
