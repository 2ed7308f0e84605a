//! Asset types: how a kind of asset is named, loaded and saved.
use vstd::prelude::*;
use std::sync::Arc;

use crate::asset::AssetData;
use crate::loader::{AssetLoadError, AssetLoader};
use crate::manager::AssetManagerContext;
use crate::saver::AssetSaver;

verus! {

/// A loader handed out by an asset type.
#[verifier::reject_recursive_types(D)]
#[verifier::reject_recursive_types(C)]
pub struct LoaderHandle<D: ?Sized = dyn AssetData, C: ?Sized = dyn AssetManagerContext>(pub Box<dyn AssetLoader<D, C>>);

/// A saver handed out by an asset type.
#[verifier::reject_recursive_types(D)]
#[verifier::reject_recursive_types(C)]
pub struct SaverHandle<D: ?Sized = dyn AssetData, C: ?Sized = dyn AssetManagerContext>(pub Box<dyn AssetSaver<D, C>>);

/// Defines how a specific type of asset should be loaded and saved.
///
/// Asset types provide the metadata and behavior for handling different kinds of assets.
/// Each asset type has a unique name and provides factories for creating loaders and savers.
/// `D` is the type of asset data (a trait object), `C` the type of the
/// manager's context.
pub trait AssetType<D: ?Sized = dyn AssetData, C: ?Sized = dyn AssetManagerContext>: Send + Sync {
    /// The name that `name()` returns. Implementations in verified code
    /// define it; for others it stands for that name, which the asset
    /// manager registers the type under.
    closed spec fn spec_name(&self) -> Seq<char> {
        arbitrary::<spec_fn(&Self) -> Seq<char>>()(self)
    }

    /// Returns the unique name identifier for this asset type.
    fn name(&self) -> (r: &str)
        ensures
            r@ == self.spec_name(),
    ;

    /// Whether `r` is an answer the loaders of this asset type may give for
    /// `bytes` and `context`. Implementations in verified code define it; for
    /// others it stands for the answers of the loaders their `loader()`
    /// hands out.
    closed spec fn spec_type_loads(&self, bytes: Seq<u8>, context: Option<Arc<C>>, r: Result<Box<D>, AssetLoadError>) -> bool {
        arbitrary::<spec_fn(&Self, Seq<u8>, Option<Arc<C>>, Result<Box<D>, AssetLoadError>) -> bool>()(
            self,
            bytes,
            context,
            r,
        )
    }

    /// Creates a new loader instance for this asset type.
    ///
    /// The loader is responsible for converting raw bytes into asset data;
    /// its answers are answers of this asset type.
    fn loader(&self) -> (l: LoaderHandle<D, C>)
        ensures
            forall|bytes: Seq<u8>, context: Option<Arc<C>>, r: Result<Box<D>, AssetLoadError>|
                #[trigger] l.0.spec_loads(bytes, context, r) ==> self.spec_type_loads(bytes, context, r),
    ;

    /// Creates a new saver instance for this asset type.
    ///
    /// The saver is responsible for converting asset data back to raw bytes.
    fn saver(&self) -> SaverHandle<D, C>;
}

} // verus!
