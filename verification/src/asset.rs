//! Assets: an id, the asset type that handles them, and their data.
use vstd::prelude::*;
use std::sync::Arc;

use crate::asset_id::AssetId;
use crate::asset_type::{AssetType, LoaderHandle};
use crate::filesystem::{FilesystemError, filesystem_error_message};
use crate::loader::{AssetLoadError, load_error_message};
use crate::manager::{AssetManager, AssetManagerContext};
use crate::serialize::SerializedAsset;
use vstd::std_specs::convert::FromSpecImpl;

verus! {

/// Trait for asset data that can be stored in an asset.
///
/// Types must explicitly implement this trait to be used as asset data.
pub trait AssetData: Send + Sync {}

/// Errors that can occur during asset operations.
#[derive(Debug)]
#[non_exhaustive]
pub enum AssetError {
    /// Error occurred during asset loading from bytes.
    Loader(AssetLoadError),
    /// The asset type reference has been dropped and is no longer available.
    /// (Assets and the manager hold asset types by strong references, so the
    /// library itself does not return this error.)
    TypeDropped,
    /// The specified asset type could not be found in the asset manager.
    TypeNotFound(String),
    /// The asset file could not be read from the filesystem.
    Filesystem(FilesystemError),
    /// The serialization backend could not decode the asset file.
    Serialization(String),
    /// Any other error.
    Other(String),
}

/// The message of an asset error; for a filesystem error that is an I/O
/// error, only its prefix.
pub open spec fn asset_error_message(e: AssetError) -> Seq<char> {
    match e {
        AssetError::Loader(l) => "Error loading asset data from bytes: "@ + load_error_message(l),
        AssetError::TypeDropped => "A weak pointer to an AssetType could not be upgraded"@,
        AssetError::TypeNotFound(n) => "Asset type was not found: "@ + n@,
        AssetError::Filesystem(f) => filesystem_error_message(f),
        AssetError::Serialization(m) => m@,
        AssetError::Other(m) => m@,
    }
}

impl AssetError {
    /// The message describing this error.
    pub fn message(&self) -> (r: String)
        ensures
            self matches AssetError::Filesystem(FilesystemError::Io(_)) ==> r@.take(5)
                == asset_error_message(*self),
            !(self matches AssetError::Filesystem(FilesystemError::Io(_))) ==> r@
                == asset_error_message(*self),
    {
        match self {
            AssetError::Loader(l) => {
                proof {
                    reveal_strlit("Error loading asset data from bytes: ");
                }
                let mut r = String::from_str("Error loading asset data from bytes: ");
                let inner = l.message();
                r.append(inner.as_str());
                r
            },
            AssetError::TypeDropped => String::from_str(
                "A weak pointer to an AssetType could not be upgraded",
            ),
            AssetError::TypeNotFound(n) => {
                proof {
                    reveal_strlit("Asset type was not found: ");
                }
                let mut r = String::from_str("Asset type was not found: ");
                r.append(n.as_str());
                r
            },
            AssetError::Filesystem(f) => f.message(),
            AssetError::Serialization(m) => m.clone(),
            AssetError::Other(m) => m.clone(),
        }
    }
}

impl From<AssetLoadError> for AssetError {
    fn from(e: AssetLoadError) -> (r: Self) {
        AssetError::Loader(e)
    }
}

impl FromSpecImpl<AssetLoadError> for AssetError {
    open spec fn obeys_from_spec() -> bool {
        true
    }

    open spec fn from_spec(e: AssetLoadError) -> Self {
        AssetError::Loader(e)
    }
}

/// Whether `r` is the `TypeNotFound` error for the type name `name`.
pub open spec fn is_type_not_found<T>(r: Result<T, AssetError>, name: Seq<char>) -> bool {
    r matches Err(AssetError::TypeNotFound(n)) && n@ == name
}

/// An asset containing type information and data.
///
/// Assets are the core data containers in the asset system. Each asset has
/// a unique ID, an asset type that defines how to load and save it, and the
/// actual data payload.
#[verifier::reject_recursive_types(D)]
#[verifier::reject_recursive_types(C)]
pub struct Asset<D: ?Sized = dyn AssetData, C: ?Sized = dyn AssetManagerContext> {
    /// Unique identifier for this asset
    id: AssetId,
    /// Type definition that specifies how to handle this asset (held in a
    /// 1-tuple, which moves without an unsizing coercion)
    asset_type: (Arc<dyn AssetType<D, C>>,),
    /// The actual asset data (held in a 1-tuple, which moves without an
    /// unsizing coercion)
    data: (Box<D>,),
}

impl<D: ?Sized, C: ?Sized> Asset<D, C> {
    /// The asset's id.
    pub closed spec fn spec_id(&self) -> AssetId {
        self.id
    }

    /// The asset's type.
    pub closed spec fn spec_asset_type(&self) -> (Arc<dyn AssetType<D, C>>,) {
        self.asset_type
    }

    /// The asset's data.
    pub closed spec fn spec_data(&self) -> (Box<D>,) {
        self.data
    }

    /// The asset with its id replaced by `id`.
    pub closed spec fn spec_with_id(self, id: AssetId) -> Asset<D, C> {
        Asset { id, ..self }
    }

    /// What `from_loaded` returns: the asset with id `id`, type `asset_type`
    /// and the loaded data, or the loader's error as `Loader`.
    pub closed spec fn spec_from_loaded(
        id: AssetId,
        asset_type: (Arc<dyn AssetType<D, C>>,),
        loaded: Result<Box<D>, AssetLoadError>,
    ) -> Result<Self, AssetError> {
        match loaded {
            Ok(data) => Ok(Asset { id, asset_type, data: (data,) }),
            Err(e) => Err(AssetError::Loader(e)),
        }
    }

    /// An asset built from loaded data carries the id, type and data it was
    /// built from; a loader error becomes `Loader`.
    pub proof fn lemma_from_loaded(id: AssetId, asset_type: (Arc<dyn AssetType<D, C>>,), loaded: Result<Box<D>, AssetLoadError>)
        ensures
            match loaded {
                Ok(data) => Self::spec_from_loaded(id, asset_type, loaded) matches Ok(asset)
                    && asset.spec_id() == id && asset.spec_asset_type() == asset_type
                    && asset.spec_data().0 == data,
                Err(e) => Self::spec_from_loaded(id, asset_type, loaded) matches Err(AssetError::Loader(l)) && l == e,
            },
    {
    }

    /// Replacing the id changes the id only.
    pub proof fn lemma_with_id(self, id: AssetId)
        ensures
            self.spec_with_id(id).spec_id() == id,
            self.spec_with_id(id).spec_asset_type() == self.spec_asset_type(),
            self.spec_with_id(id).spec_data() == self.spec_data(),
            self.spec_with_id(self.spec_id()) == self,
    {
    }

    /// Creates a new asset with the given type and data.
    ///
    /// The asset ID is initially set to 0 and will be assigned by the asset manager
    /// when the asset is registered.
    pub fn new(asset_type: Arc<dyn AssetType<D, C>>, data: Box<D>) -> (r: Self)
        ensures
            r.spec_id() == AssetId(0),
            r.spec_asset_type().0 == asset_type,
            r.spec_data().0 == data,
    {
        let held = (asset_type,);
        let held_data = (data,);
        Asset { id: AssetId(0), asset_type: held, data: held_data }
    }

    /// Creates an asset from a serialized representation.
    ///
    /// Looks up the asset type by name in the manager and deserializes the data
    /// with that type's loader, handing it the manager's context.
    pub fn from_serialized(mgr: &AssetManager<D, C>, serialized: SerializedAsset) -> (r: Result<
        Self,
        AssetError,
    >)
        ensures
            !mgr.types_view().contains_key(serialized.asset_type@) ==> is_type_not_found(
                r,
                serialized.asset_type@,
            ),
            mgr.types_view().contains_key(serialized.asset_type@) ==> exists|
                loaded: Result<Box<D>, AssetLoadError>,
            |
                #[trigger] mgr.types_view()[serialized.asset_type@].0.spec_type_loads(
                    serialized.data@,
                    mgr.spec_context(),
                    loaded,
                ) && r == Self::spec_from_loaded(
                    serialized.id,
                    mgr.types_view()[serialized.asset_type@],
                    loaded,
                ),
            mgr.types_view().contains_key(serialized.asset_type@) ==> match r {
                Ok(asset) => {
                    &&& asset.spec_id() == serialized.id
                    &&& asset.spec_asset_type().0 == mgr.types_view()[serialized.asset_type@].0
                },
                Err(e) => e is Loader,
            },
    {
        let id = serialized.id;
        let found = mgr.asset_type_by_name(serialized.asset_type.as_str());
        match found {
            None => Err(AssetError::TypeNotFound(serialized.asset_type)),
            Some(asset_type) => {
                let loader = asset_type.loader();
                let loaded = loader.0.asset_from_bytes(serialized.data.as_slice(), mgr.context());
                let held = (asset_type,);
                let r = Self::from_loaded(id, held, loaded);
                assert(loader.0.spec_loads(serialized.data@, mgr.spec_context(), loaded));
                assert(mgr.types_view()[serialized.asset_type@].0.spec_type_loads(
                    serialized.data@,
                    mgr.spec_context(),
                    loaded,
                ));
                r
            },
        }
    }

    /// The asset that `from_serialized` makes from what the asset type's
    /// loader returned: the loaded data with the given id and type, or the
    /// loader's error.
    pub fn from_loaded(
        id: AssetId,
        asset_type: (Arc<dyn AssetType<D, C>>,),
        loaded: Result<Box<D>, AssetLoadError>,
    ) -> (r: Result<Self, AssetError>)
        ensures
            r == Self::spec_from_loaded(id, asset_type, loaded),
            match loaded {
                Ok(data) => r matches Ok(asset) && asset.spec_id() == id
                    && asset.spec_asset_type() == asset_type && asset.spec_data().0 == data,
                Err(e) => r matches Err(AssetError::Loader(l)) && l == e,
            },
    {
        match loaded {
            Ok(data) => {
                let held_data = (data,);
                Ok(Asset { id, asset_type, data: held_data })
            },
            Err(e) => Err(AssetError::Loader(e)),
        }
    }

    /// Returns the unique identifier for this asset.
    pub fn id(&self) -> (r: AssetId)
        ensures
            r == self.spec_id(),
    {
        self.id
    }

    /// Sets the asset's unique identifier.
    ///
    /// This is only used internally by the asset manager during registration.
    pub(crate) fn set_id(&mut self, new_id: AssetId)
        ensures
            *final(self) == old(self).spec_with_id(new_id),
    {
        self.id = new_id;
    }

    /// Returns the asset type definition.
    pub fn asset_type(&self) -> (r: &Arc<dyn AssetType<D, C>>)
        ensures
            *r == self.spec_asset_type().0,
    {
        &self.asset_type.0
    }

    /// Returns a reference to the asset's data.
    pub fn data(&self) -> (r: &D)
        ensures
            r == self.spec_data().0,
    {
        &*self.data.0
    }
}

} // verus!
