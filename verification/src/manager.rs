//! The asset manager: registries of asset types and of assets, the
//! filesystem assets are read from, and the serialization backend.
use vstd::prelude::*;
use std::collections::HashMap;
use std::sync::Arc;
use vstd::string::StringSliceAdditionalSpecFns;

use crate::asset::{Asset, AssetData, AssetError, is_type_not_found};
use crate::loader::AssetLoadError;
use crate::asset_id::{AssetId, asset_id_for_path};
use crate::asset_type::{AssetType, LoaderHandle};
use crate::filesystem::{Filesystem, FilesystemError};
use crate::serialize::{
    AssetSerializationBackend, NullSerializationBackend, SerializedAsset, is_null_backend_answer,
    null_backend_message,
};
use crate::type_registry::TypeRegistry;

verus! {

broadcast use {
    vstd::std_specs::hash::group_hash_axioms,
    vstd::string::group_string_axioms,
};

/// Trait for providing additional context to the asset manager.
///
/// Loaders and savers receive the context of the manager they work for.
pub trait AssetManagerContext: Send + Sync {}

/// The id under which `register_asset` stores an asset whose id is
/// `asset_id` when it is registered under `asset_path` (UTF-8 bytes): the
/// asset's own id, unless that is zero; then the id generated from the path.
pub open spec fn registered_id(asset_path: Seq<u8>, asset_id: AssetId) -> AssetId {
    if asset_id.0 == 0 {
        AssetId(asset_id_for_path(asset_path))
    } else {
        asset_id
    }
}

/// What `asset_by_id` returns for `id` when the registered assets are `assets`.
pub open spec fn lookup_asset<D: ?Sized, C: ?Sized>(assets: Map<u64, Arc<Asset<D, C>>>, id: AssetId) -> Option<Arc<Asset<D, C>>> {
    if assets.contains_key(id.0) {
        Some(assets[id.0])
    } else {
        None
    }
}

/// `after` differs from `before` only in the asset stored under `id`.
pub open spec fn stores_one<D: ?Sized, C: ?Sized>(before: Map<u64, Arc<Asset<D, C>>>, after: Map<u64, Arc<Asset<D, C>>>, id: AssetId) -> bool {
    after == before.insert(id.0, after[id.0])
}

/// Whether `r` is the `Serialization` error that the null backend gives.
pub open spec fn is_null_backend_error<T>(r: Result<T, AssetError>) -> bool {
    r matches Err(AssetError::Serialization(m)) && m@ == null_backend_message()
}

/// Whether `r` holds `Some(t)` where `held` is `(t,)`.
pub open spec fn is_held_type<D: ?Sized, C: ?Sized>(r: Option<Arc<dyn AssetType<D, C>>>, held: (Arc<dyn AssetType<D, C>>,)) -> bool {
    r matches Some(t) && t == held.0
}

/// Central manager for assets in the system.
///
/// The asset manager is responsible for:
/// - Registering and retrieving asset types
/// - Managing asset lifecycles and hash-based unique IDs
/// - Providing access to the filesystem for asset operations
///
/// `D` is the type of asset data (a trait object), `C` the type of the context.
#[verifier::reject_recursive_types(D)]
#[verifier::reject_recursive_types(C)]
pub struct AssetManager<D: ?Sized = dyn AssetData, C: ?Sized = dyn AssetManagerContext> {
    /// Registry of asset types by their names
    asset_types: TypeRegistry<D, C>,
    /// Storage for loaded assets indexed by their unique IDs
    assets: HashMap<u64, Arc<Asset<D, C>>>,
    /// Filesystem abstraction for reading and writing asset files (held in a
    /// 1-tuple, which moves without an unsizing coercion)
    filesystem: (Arc<dyn Filesystem>,),
    /// Optional context for providing additional state to the asset manager
    context: Option<Arc<C>>,
    /// Backend implementation for serializing and deserializing assets;
    /// `None` stands for the null backend, which refuses every request
    serialization: Option<(Box<dyn AssetSerializationBackend>,)>,
}

impl<D: ?Sized, C: ?Sized> AssetManager<D, C> {
    /// Registered asset types by name.
    pub closed spec fn types_view(&self) -> Map<Seq<char>, (Arc<dyn AssetType<D, C>>,)> {
        self.asset_types.view()
    }

    /// Registered assets by id.
    pub closed spec fn assets_view(&self) -> Map<u64, Arc<Asset<D, C>>> {
        self.assets@
    }

    /// The filesystem assets are read from.
    pub closed spec fn spec_filesystem(&self) -> (Arc<dyn Filesystem>,) {
        self.filesystem
    }

    /// The context handed to loaders.
    pub closed spec fn spec_context(&self) -> Option<Arc<C>> {
        self.context
    }

    /// The serialization backend that was set; `None` while the manager
    /// uses the null backend it starts with.
    pub closed spec fn spec_serialization(&self) -> Option<(Box<dyn AssetSerializationBackend>,)> {
        self.serialization
    }

    /// Whether `after` and result `r` are an outcome of registering `made`
    /// (an asset, or the error of making it) under `asset_path` in `self`:
    /// the asset is stored under its registered id, which `r` returns; an
    /// error is returned and the assets stay as they were.
    pub open spec fn registers_made(&self, after: &Self, asset_path: Seq<u8>, made: Result<Asset<D, C>, AssetError>, r: Result<AssetId, AssetError>) -> bool {
        match made {
            Ok(asset) => {
                let id = registered_id(asset_path, asset.spec_id());
                &&& r == Ok::<AssetId, AssetError>(id)
                &&& stores_one(self.assets_view(), after.assets_view(), id)
                &&& *after.assets_view()[id.0] == asset.spec_with_id(id)
            },
            Err(e) => r == Err::<AssetId, AssetError>(e) && after.assets_view() == self.assets_view(),
        }
    }

    /// Whether `after` and `r` are an outcome of `register_serialized` on
    /// `self`: `TypeNotFound` when no type of that name is registered; else
    /// the asset type's loader was handed the serialized bytes and the
    /// manager's context, and what it loaded is registered.
    pub open spec fn registers_serialized(&self, after: &Self, asset_path: Seq<u8>, serialized: SerializedAsset, r: Result<AssetId, AssetError>) -> bool {
        if !self.types_view().contains_key(serialized.asset_type@) {
            is_type_not_found(r, serialized.asset_type@) && after.assets_view() == self.assets_view()
        } else {
            exists|loaded: Result<Box<D>, AssetLoadError>|
                #[trigger] self.types_view()[serialized.asset_type@].0.spec_type_loads(
                    serialized.data@,
                    self.spec_context(),
                    loaded,
                ) && self.registers_made(
                    after,
                    asset_path,
                    Asset::<D, C>::spec_from_loaded(
                        serialized.id,
                        self.types_view()[serialized.asset_type@],
                        loaded,
                    ),
                    r,
                )
        }
    }

    /// Whether `after` and `r` are an outcome of `register_decoded` on
    /// `self`: a decoded asset is registered as by `register_serialized`; a
    /// decoding error comes back as `Serialization` and nothing changes.
    pub open spec fn registers_decoded(&self, after: &Self, asset_path: Seq<u8>, decoded: Result<SerializedAsset, String>, r: Result<AssetId, AssetError>) -> bool {
        match decoded {
            Ok(serialized) => self.registers_serialized(after, asset_path, serialized, r),
            Err(msg) => r == Err::<AssetId, AssetError>(AssetError::Serialization(msg))
                && after.assets_view() == self.assets_view(),
        }
    }

    /// Whether `decoded` is an answer the manager's serialization backend
    /// may give for `bytes` (the null backend's error while none is set).
    pub open spec fn backend_decodes(&self, bytes: Seq<u8>, decoded: Result<SerializedAsset, String>) -> bool {
        match self.spec_serialization() {
            Some(backend) => backend.0.spec_deserializes(bytes, decoded),
            None => is_null_backend_answer(decoded),
        }
    }

    /// Whether `after` and `r` are an outcome of `register_read` on `self`:
    /// a read error comes back as `Filesystem` and nothing changes; read
    /// bytes are decoded by the manager's backend and the answer is
    /// registered as by `register_decoded`.
    pub open spec fn registers_read(&self, after: &Self, asset_path: Seq<u8>, read: Result<Vec<u8>, FilesystemError>, r: Result<AssetId, AssetError>) -> bool {
        match read {
            Err(e) => r == Err::<AssetId, AssetError>(AssetError::Filesystem(e))
                && after.assets_view() == self.assets_view(),
            Ok(bytes) => exists|decoded: Result<SerializedAsset, String>|
                #[trigger] self.backend_decodes(bytes@, decoded)
                    && self.registers_decoded(after, asset_path, decoded, r),
        }
    }

    /// Creates a new asset manager with the provided filesystem: no asset
    /// types, no assets, no context, and the null serialization backend.
    pub fn new(filesystem: Arc<dyn Filesystem>) -> (r: Self)
        ensures
            r.types_view() == Map::<Seq<char>, (Arc<dyn AssetType<D, C>>,)>::empty(),
            r.assets_view() == Map::<u64, Arc<Asset<D, C>>>::empty(),
            r.spec_filesystem().0 == filesystem,
            r.spec_context() == None::<Arc<C>>,
            r.spec_serialization() is None,
    {
        let held_fs = (filesystem,);
        AssetManager {
            asset_types: TypeRegistry::new(),
            assets: HashMap::new(),
            filesystem: held_fs,
            context: None,
            serialization: None,
        }
    }

    /// Retrieves the current asset manager context.
    pub fn context(&self) -> (r: Option<Arc<C>>)
        ensures
            r == self.spec_context(),
    {
        match &self.context {
            Some(c) => {
                let c2 = Arc::clone(c);
                let r = Some(c2);
                r
            },
            None => None,
        }
    }

    /// Sets the asset manager context.
    pub fn set_context(&mut self, context: Arc<C>)
        ensures
            final(self).spec_context() == Some(context),
            final(self).types_view() == old(self).types_view(),
            final(self).assets_view() == old(self).assets_view(),
            final(self).spec_filesystem() == old(self).spec_filesystem(),
            final(self).spec_serialization() == old(self).spec_serialization(),
    {
        let held = Some(context);
        self.context = held;
    }

    /// Sets the serialization backend for the asset manager.
    pub fn set_serialization_backend(&mut self, serialization: Box<dyn AssetSerializationBackend>)
        ensures
            final(self).spec_serialization() matches Some(held) && held.0 == serialization,
            final(self).types_view() == old(self).types_view(),
            final(self).assets_view() == old(self).assets_view(),
            final(self).spec_filesystem() == old(self).spec_filesystem(),
            final(self).spec_context() == old(self).spec_context(),
    {
        let held = Some((serialization,));
        self.serialization = held;
    }

    /// Retrieves an asset type by its name; `None` if no asset type with that
    /// name is registered.
    pub fn asset_type_by_name(&self, name: &str) -> (r: Option<Arc<dyn AssetType<D, C>>>)
        ensures
            self.types_view().contains_key(name@) ==> is_held_type(r, self.types_view()[name@]),
            !self.types_view().contains_key(name@) ==> r is None,
    {
        self.asset_types.get(name)
    }

    /// Registers a new asset type with the manager, under the name that the
    /// type's `name()` returns.
    ///
    /// If an asset type with the same name already exists, it will be replaced.
    pub fn register_asset_type(&mut self, asset_type: Arc<dyn AssetType<D, C>>)
        ensures
            final(self).types_view() == old(self).types_view().insert(
                asset_type.spec_name(),
                final(self).types_view()[asset_type.spec_name()],
            ),
            final(self).types_view()[asset_type.spec_name()].0 == asset_type,
            final(self).assets_view() == old(self).assets_view(),
            final(self).spec_filesystem() == old(self).spec_filesystem(),
            final(self).spec_context() == old(self).spec_context(),
            final(self).spec_serialization() == old(self).spec_serialization(),
    {
        let name = String::from_str(asset_type.name());
        let ghost key = name@;
        let held = (asset_type,);
        self.asset_types.insert(name, held);
        assert(self.types_view()[key] == held);
        assert(self.types_view() == old(self).types_view().insert(key, self.types_view()[key]));
    }

    /// Retrieves an asset by its unique ID; `None` if no asset with that ID
    /// is registered.
    pub fn asset_by_id(&self, id: AssetId) -> (r: Option<Arc<Asset<D, C>>>)
        ensures
            r == lookup_asset(self.assets_view(), id),
    {
        match self.assets.get(&id.0) {
            Some(a) => Some(Arc::clone(a)),
            None => None,
        }
    }

    /// Registers an asset with the manager and returns its id.
    ///
    /// If the asset's ID is zero, the ID is generated from the asset path using
    /// hash-based generation, ensuring the same path always produces the same ID;
    /// otherwise the asset keeps its ID. An asset registered earlier under the
    /// same ID is replaced.
    pub fn register_asset(&mut self, asset_path: &str, asset: Asset<D, C>) -> (r: AssetId)
        ensures
            r == registered_id(asset_path.spec_bytes(), asset.spec_id()),
            stores_one(old(self).assets_view(), final(self).assets_view(), r),
            *final(self).assets_view()[r.0] == asset.spec_with_id(r),
            final(self).types_view() == old(self).types_view(),
            final(self).spec_filesystem() == old(self).spec_filesystem(),
            final(self).spec_context() == old(self).spec_context(),
            final(self).spec_serialization() == old(self).spec_serialization(),
    {
        let mut asset = asset;
        proof {
            asset.lemma_with_id(asset.spec_id());
        }
        let id = if asset.id().0 == 0 {
            let new_id = AssetId::from_path(asset_path);
            asset.set_id(new_id);
            new_id
        } else {
            asset.id()
        };
        let stored = Arc::new(asset);
        self.assets.insert(id.0, stored);
        assert(self.assets@ =~= old(self).assets@.insert(id.0, self.assets@[id.0]));
        id
    }

    /// Unregisters an asset from the manager.
    ///
    /// Returns `true` if the asset was found and removed, `false` if no asset
    /// with that ID existed.
    pub fn unregister_asset(&mut self, id: AssetId) -> (r: bool)
        ensures
            r == old(self).assets_view().contains_key(id.0),
            final(self).assets_view() == old(self).assets_view().remove(id.0),
            final(self).types_view() == old(self).types_view(),
            final(self).spec_filesystem() == old(self).spec_filesystem(),
            final(self).spec_context() == old(self).spec_context(),
            final(self).spec_serialization() == old(self).spec_serialization(),
    {
        let removed = self.assets.remove(&id.0);
        removed.is_some()
    }

    /// Reads the raw bytes of a file from the manager's filesystem: the result
    /// is an answer that filesystem may give for `asset_path`.
    pub fn fs_read_bytes(&self, asset_path: &str) -> (r: Result<Vec<u8>, FilesystemError>)
        ensures
            self.spec_filesystem().0.spec_reads(asset_path@, r),
    {
        self.filesystem.0.read_bytes(asset_path)
    }

    /// Creates an asset from its serialized form and registers it under
    /// `asset_path`: an asset without an id gets the id generated from the path.
    pub fn register_serialized(&mut self, asset_path: &str, serialized: SerializedAsset) -> (r:
        Result<AssetId, AssetError>)
        ensures
            old(self).registers_serialized(&*final(self), asset_path.spec_bytes(), serialized, r),
            !old(self).types_view().contains_key(serialized.asset_type@) ==> is_type_not_found(
                r,
                serialized.asset_type@,
            ),
            r is Err ==> final(self).assets_view() == old(self).assets_view(),
            old(self).types_view().contains_key(serialized.asset_type@) ==> match r {
                Ok(id) => {
                    &&& id == registered_id(asset_path.spec_bytes(), serialized.id)
                    &&& stores_one(old(self).assets_view(), final(self).assets_view(), id)
                    &&& final(self).assets_view()[id.0].spec_id() == id
                    &&& final(self).assets_view()[id.0].spec_asset_type().0 == old(self).types_view()[serialized.asset_type@].0
                },
                Err(e) => e is Loader,
            },
            final(self).types_view() == old(self).types_view(),
            final(self).spec_filesystem() == old(self).spec_filesystem(),
            final(self).spec_context() == old(self).spec_context(),
            final(self).spec_serialization() == old(self).spec_serialization(),
    {
        let ghost before = *self;
        let ghost s = serialized;
        let asset = Asset::from_serialized(self, serialized);
        let ghost made = asset;
        let r = match asset {
            Ok(asset) => {
                proof {
                    asset.lemma_with_id(registered_id(asset_path.spec_bytes(), asset.spec_id()));
                }
                Ok(self.register_asset(asset_path, asset))
            },
            Err(e) => Err(e),
        };
        proof {
            if before.types_view().contains_key(s.asset_type@) {
                let loaded = choose|loaded: Result<Box<D>, AssetLoadError>|
                    #[trigger] before.types_view()[s.asset_type@].0.spec_type_loads(
                        s.data@,
                        before.spec_context(),
                        loaded,
                    ) && made
                        == Asset::<D, C>::spec_from_loaded(
                        s.id,
                        before.types_view()[s.asset_type@],
                        loaded,
                    );
                assert(before.registers_made(&*self, asset_path.spec_bytes(), made, r));
            }
        }
        r
    }

    /// Reads an asset file, deserializes it with the serialization backend,
    /// creates the asset with its type's loader and registers it.
    /// If the asset has no ID (ID is 0), it gets one generated from the path.
    pub fn fs_read_and_register_asset(&mut self, asset_path: &str) -> (r: Result<
        AssetId,
        AssetError,
    >)
        ensures
            exists|read: Result<Vec<u8>, FilesystemError>|
                #[trigger] old(self).spec_filesystem().0.spec_reads(asset_path@, read)
                    && old(self).registers_read(&*final(self), asset_path.spec_bytes(), read, r),
            r is Err ==> final(self).assets_view() == old(self).assets_view(),
            old(self).spec_serialization() is None ==> (r matches Err(AssetError::Filesystem(_))
                || is_null_backend_error(r)),
            r matches Ok(id) ==> {
                &&& stores_one(old(self).assets_view(), final(self).assets_view(), id)
                &&& final(self).assets_view()[id.0].spec_id() == id
            },
            final(self).types_view() == old(self).types_view(),
            final(self).spec_filesystem() == old(self).spec_filesystem(),
            final(self).spec_context() == old(self).spec_context(),
            final(self).spec_serialization() == old(self).spec_serialization(),
    {
        let read = self.fs_read_bytes(asset_path);
        assert(self.spec_filesystem().0.spec_reads(asset_path@, read));
        self.register_read(asset_path, read)
    }

    /// What `fs_read_and_register_asset` does with what the filesystem
    /// returned for the asset file: a read error comes back as `Filesystem`;
    /// read bytes are decoded by the serialization backend and handed to
    /// `register_decoded` (with the null backend, that is the null backend's
    /// error).
    pub fn register_read(&mut self, asset_path: &str, read: Result<Vec<u8>, FilesystemError>) -> (r:
        Result<AssetId, AssetError>)
        ensures
            old(self).registers_read(&*final(self), asset_path.spec_bytes(), read, r),
            read matches Err(e) ==> r matches Err(AssetError::Filesystem(f)) && f == e,
            read is Ok && old(self).spec_serialization() is None ==> is_null_backend_error(r),
            r is Err ==> final(self).assets_view() == old(self).assets_view(),
            r matches Ok(id) ==> {
                &&& stores_one(old(self).assets_view(), final(self).assets_view(), id)
                &&& final(self).assets_view()[id.0].spec_id() == id
            },
            final(self).types_view() == old(self).types_view(),
            final(self).spec_filesystem() == old(self).spec_filesystem(),
            final(self).spec_context() == old(self).spec_context(),
            final(self).spec_serialization() == old(self).spec_serialization(),
    {
        let bytes = match read {
            Ok(b) => b,
            Err(e) => {
                return Err(AssetError::Filesystem(e));
            },
        };
        let decoded = match &self.serialization {
            Some(backend) => backend.0.deserialize(bytes.as_slice()),
            None => NullSerializationBackend.deserialize(bytes.as_slice()),
        };
        assert(self.backend_decodes(bytes@, decoded));
        self.register_decoded(asset_path, decoded)
    }

    /// What `fs_read_and_register_asset` does with what the serialization
    /// backend decoded from the file: registers the decoded asset as
    /// `register_serialized` does, or returns the backend's error as
    /// `Serialization` and leaves the assets unchanged.
    pub fn register_decoded(&mut self, asset_path: &str, decoded: Result<SerializedAsset, String>) -> (r:
        Result<AssetId, AssetError>)
        ensures
            old(self).registers_decoded(&*final(self), asset_path.spec_bytes(), decoded, r),
            decoded matches Err(msg) ==> r matches Err(AssetError::Serialization(m)) && m == msg,
            r is Err ==> final(self).assets_view() == old(self).assets_view(),
            decoded matches Ok(serialized) ==> {
                &&& !old(self).types_view().contains_key(serialized.asset_type@) ==> is_type_not_found(
                    r,
                    serialized.asset_type@,
                )
                &&& old(self).types_view().contains_key(serialized.asset_type@) ==> match r {
                    Ok(id) => {
                        &&& id == registered_id(asset_path.spec_bytes(), serialized.id)
                        &&& stores_one(old(self).assets_view(), final(self).assets_view(), id)
                        &&& final(self).assets_view()[id.0].spec_id() == id
                        &&& final(self).assets_view()[id.0].spec_asset_type().0 == old(self).types_view()[serialized.asset_type@].0
                    },
                    Err(e) => e is Loader,
                }
            },
            final(self).types_view() == old(self).types_view(),
            final(self).spec_filesystem() == old(self).spec_filesystem(),
            final(self).spec_context() == old(self).spec_context(),
            final(self).spec_serialization() == old(self).spec_serialization(),
    {
        match decoded {
            Ok(serialized) => self.register_serialized(asset_path, serialized),
            Err(msg) => Err(AssetError::Serialization(msg)),
        }
    }
}

/// Law: after `register_asset` stored an asset under `id`, `asset_by_id(id)`
/// finds that asset, carrying the id `id`, and the lookup of every other id
/// is what it was before.
pub proof fn law_register_then_lookup<D: ?Sized, C: ?Sized>(
    before: Map<u64, Arc<Asset<D, C>>>,
    after: Map<u64, Arc<Asset<D, C>>>,
    id: AssetId,
    asset: Asset<D, C>,
)
    requires
        stores_one(before, after, id),
        *after[id.0] == asset.spec_with_id(id),
    ensures
        lookup_asset(after, id) matches Some(found) && *found == asset.spec_with_id(id)
            && found.spec_id() == id,
        forall|other: AssetId|
            other.0 != id.0 ==> #[trigger] lookup_asset(after, other) == lookup_asset(before, other),
{
    asset.lemma_with_id(id);
}

/// Law: unregistering the id that `register_asset` returned removes that
/// asset (the call returns `true`, and `asset_by_id` no longer finds it),
/// and leaves every other id as it was before the registration.
pub proof fn law_unregister_after_register<D: ?Sized, C: ?Sized>(
    before: Map<u64, Arc<Asset<D, C>>>,
    registered: Map<u64, Arc<Asset<D, C>>>,
    removed: Map<u64, Arc<Asset<D, C>>>,
    id: AssetId,
)
    requires
        stores_one(before, registered, id),
        removed == registered.remove(id.0),
    ensures
        registered.contains_key(id.0),
        lookup_asset(removed, id) is None,
        forall|other: AssetId|
            other.0 != id.0 ==> #[trigger] lookup_asset(removed, other) == lookup_asset(before, other),
{
    assert(registered.contains_key(id.0));
}

/// Law: unregistering an id that is not registered returns `false`
/// (`asset_by_id` did not find it) and changes no lookup.
pub proof fn law_unregister_absent<D: ?Sized, C: ?Sized>(before: Map<u64, Arc<Asset<D, C>>>, id: AssetId)
    requires
        !before.contains_key(id.0),
    ensures
        lookup_asset(before, id) is None,
        before.remove(id.0) == before,
        forall|other: AssetId| #[trigger] lookup_asset(before.remove(id.0), other) == lookup_asset(before, other),
{
    assert(before.remove(id.0) =~= before);
}

/// Law: after `register_asset_type(t)`, looking up the name that `t.name()`
/// returns finds `t` (replacing any type registered under that name
/// before), and every other name finds what it found before.
pub proof fn law_register_type_then_lookup<D: ?Sized, C: ?Sized>(
    before: Map<Seq<char>, (Arc<dyn AssetType<D, C>>,)>,
    after: Map<Seq<char>, (Arc<dyn AssetType<D, C>>,)>,
    held: (Arc<dyn AssetType<D, C>>,),
)
    requires
        after == before.insert(held.0.spec_name(), after[held.0.spec_name()]),
        after[held.0.spec_name()].0 == held.0,
    ensures
        after.contains_key(held.0.spec_name()),
        after[held.0.spec_name()] == held,
        forall|other: Seq<char>|
            other != held.0.spec_name() ==> (#[trigger] after.contains_key(other) == before.contains_key(other) && (
            before.contains_key(other) ==> after[other] == before[other])),
{
}

/// Law: a new manager has no context; once `set_context(c)` has run,
/// `context()` returns `Some(c)` through any later calls of the other
/// methods, all of which keep the context, until the next `set_context`.
pub proof fn law_context_after_set<D: ?Sized, C: ?Sized>(
    created: AssetManager<D, C>,
    set: AssetManager<D, C>,
    later: AssetManager<D, C>,
    c: Arc<C>,
)
    requires
        created.spec_context() == None::<Arc<C>>,
        set.spec_context() == Some(c),
        later.spec_context() == set.spec_context(),
    ensures
        created.spec_context() is None,
        later.spec_context() matches Some(x) && x == c,
{
}

/// Law: assets without an id registered under the same path get the same
/// id, the one `AssetId::from(path)` generates; an asset with an id keeps
/// it whatever the path.
pub proof fn law_registered_id_from_path(path: Seq<u8>, other_path: Seq<u8>, a: AssetId, b: AssetId, kept: AssetId)
    requires
        a.0 == 0,
        b.0 == 0,
        kept.0 != 0,
    ensures
        registered_id(path, a) == registered_id(path, b),
        registered_id(path, a) == AssetId(asset_id_for_path(path)),
        registered_id(path, kept) == kept && registered_id(other_path, kept) == kept,
{
}

} // verus!
