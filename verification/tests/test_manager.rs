use std::any::Any;
use std::sync::Arc;

use extendable_assets::{
    Asset, AssetError, AssetId, AssetLoadError, AssetLoader, AssetManager, AssetSaveError,
    AssetSaver, AssetType, FallbackFilesystem, Filesystem, FilesystemError, LoaderHandle,
    SaverHandle,
};

type Data = dyn Any + Send + Sync;
type Ctx = dyn Any + Send + Sync;

#[derive(Clone, Debug, PartialEq)]
struct TestAssetData {
    value_a: u32,
    value_b: f32,
    value_c: (u8, u8, u8),
}

fn random_data() -> TestAssetData {
    TestAssetData {
        value_a: rand::random::<u32>(),
        value_b: rand::random::<f32>(),
        value_c: (rand::random::<u8>(), rand::random::<u8>(), rand::random::<u8>()),
    }
}

fn encode(d: &TestAssetData) -> Vec<u8> {
    let mut v = Vec::new();
    v.extend_from_slice(&d.value_a.to_le_bytes());
    v.extend_from_slice(&d.value_b.to_le_bytes());
    v.push(d.value_c.0);
    v.push(d.value_c.1);
    v.push(d.value_c.2);
    v
}

fn decode(b: &[u8]) -> Option<TestAssetData> {
    if b.len() != 11 {
        return None;
    }
    Some(TestAssetData {
        value_a: u32::from_le_bytes([b[0], b[1], b[2], b[3]]),
        value_b: f32::from_le_bytes([b[4], b[5], b[6], b[7]]),
        value_c: (b[8], b[9], b[10]),
    })
}

struct Loader;
impl AssetLoader<Data, Ctx> for Loader {
    fn asset_from_bytes(
        &self,
        bytes: &[u8],
        _context: Option<Arc<Ctx>>,
    ) -> Result<Box<Data>, AssetLoadError> {
        match decode(bytes) {
            Some(d) => Ok(Box::new(d)),
            None => Err(AssetLoadError::Deserialization("bad length".to_string())),
        }
    }
}

struct Saver;
impl AssetSaver<Data, Ctx> for Saver {
    fn asset_to_bytes(
        &self,
        asset: &Data,
        _context: Option<Arc<Ctx>>,
    ) -> Result<Vec<u8>, AssetSaveError> {
        let data = asset.downcast_ref::<TestAssetData>().ok_or(AssetSaveError::UnsupportedType)?;
        Ok(encode(data))
    }
}

struct TestAssetType;
impl AssetType<Data, Ctx> for TestAssetType {
    fn name(&self) -> &str {
        "TestAsset"
    }
    fn loader(&self) -> LoaderHandle<Data, Ctx> {
        LoaderHandle(Box::new(Loader))
    }
    fn saver(&self) -> SaverHandle<Data, Ctx> {
        SaverHandle(Box::new(Saver))
    }
}

fn init_mgr() -> AssetManager<Data, Ctx> {
    let fs: Arc<dyn Filesystem> = Arc::new(FallbackFilesystem::new(Vec::new()));
    AssetManager::new(fs)
}

struct TestContext {
    value: String,
}

#[derive(Clone, Debug, PartialEq)]
struct TestContextAssetData {
    value: u32,
    ctx: Option<String>,
}

struct ContextLoader;
impl AssetLoader<Data, Ctx> for ContextLoader {
    fn asset_from_bytes(
        &self,
        bytes: &[u8],
        context: Option<Arc<Ctx>>,
    ) -> Result<Box<Data>, AssetLoadError> {
        if bytes.len() != 4 {
            return Err(AssetLoadError::Deserialization("bad length".to_string()));
        }
        let value = u32::from_le_bytes([bytes[0], bytes[1], bytes[2], bytes[3]]);
        let context = context.ok_or(AssetLoadError::Other("no context".to_string()))?;
        let context = context
            .downcast::<TestContext>()
            .map_err(|_| AssetLoadError::Other("Invalid downcast".to_string()))?;
        Ok(Box::new(TestContextAssetData { value, ctx: Some(context.value.clone()) }))
    }
}

struct ContextSaver;
impl AssetSaver<Data, Ctx> for ContextSaver {
    fn asset_to_bytes(
        &self,
        asset: &Data,
        _context: Option<Arc<Ctx>>,
    ) -> Result<Vec<u8>, AssetSaveError> {
        let data =
            asset.downcast_ref::<TestContextAssetData>().ok_or(AssetSaveError::UnsupportedType)?;
        Ok(data.value.to_le_bytes().to_vec())
    }
}

struct TestContextAssetType;
impl AssetType<Data, Ctx> for TestContextAssetType {
    fn name(&self) -> &str {
        "TestContextAsset"
    }
    fn loader(&self) -> LoaderHandle<Data, Ctx> {
        LoaderHandle(Box::new(ContextLoader))
    }
    fn saver(&self) -> SaverHandle<Data, Ctx> {
        SaverHandle(Box::new(ContextSaver))
    }
}

fn register_types(mgr: &mut AssetManager<Data, Ctx>) {
    mgr.register_asset_type(Arc::new(TestAssetType));
    mgr.register_asset_type(Arc::new(TestContextAssetType));
}

fn register_assets(mgr: &mut AssetManager<Data, Ctx>) -> AssetId {
    let asset_type = mgr.asset_type_by_name("TestAsset").expect("Asset type not found");
    let data: Box<Data> = Box::new(TestAssetData { value_a: 42, value_b: 3.25, value_c: (1, 2, 3) });
    mgr.register_asset("test/asset.bin", Asset::new(asset_type, data))
}

fn assert_asset_type_name(asset_type: Arc<dyn AssetType<Data, Ctx>>, expected_name: &str) {
    assert_eq!(asset_type.name(), expected_name);
}

/// A filesystem that serves files from memory; writing is unsupported.
struct MemoryFilesystem {
    files: Vec<(String, Vec<u8>)>,
}
impl Filesystem for MemoryFilesystem {
    fn read_bytes(&self, asset_path: &str) -> Result<Vec<u8>, FilesystemError> {
        for (p, b) in &self.files {
            if p == asset_path {
                return Ok(b.clone());
            }
        }
        Err(FilesystemError::NotFound(asset_path.to_string()))
    }
    fn write_bytes(&self, _asset_path: &str, _data: &[u8]) -> Result<(), FilesystemError> {
        Err(FilesystemError::WriteUnsupported)
    }
}

/// Serialization backend with a simple framing: 8 bytes id (LE), 1 byte name
/// length, the name, then the data.
struct FramedBackend;
impl extendable_assets::AssetSerializationBackend for FramedBackend {
    fn serialize(&self, asset: &extendable_assets::SerializedAsset) -> Result<Vec<u8>, String> {
        let mut v = u64::from(asset.id).to_le_bytes().to_vec();
        v.push(asset.asset_type.len() as u8);
        v.extend_from_slice(asset.asset_type.as_bytes());
        v.extend_from_slice(&asset.data);
        Ok(v)
    }
    fn deserialize(&self, bytes: &[u8]) -> Result<extendable_assets::SerializedAsset, String> {
        if bytes.len() < 9 {
            return Err("too short".to_string());
        }
        let mut idb = [0u8; 8];
        idb.copy_from_slice(&bytes[..8]);
        let n = bytes[8] as usize;
        if bytes.len() < 9 + n {
            return Err("too short".to_string());
        }
        Ok(extendable_assets::SerializedAsset {
            id: AssetId::from(u64::from_le_bytes(idb)),
            asset_type: String::from_utf8(bytes[9..9 + n].to_vec()).map_err(|e| e.to_string())?,
            data: bytes[9 + n..].to_vec(),
        })
    }
}


#[test]
fn test_manager_register_get_asset_type() {
    let mut mgr = init_mgr();
    register_types(&mut mgr);

    let asset_type_0 = mgr.asset_type_by_name("TestAsset").unwrap();
    let asset_type_1 = mgr.asset_type_by_name("TestContextAsset").unwrap();

    assert_asset_type_name(asset_type_0, "TestAsset");
    assert_asset_type_name(asset_type_1, "TestContextAsset");
}

#[test]
fn test_manager_register_get_asset() {
    let mut mgr = init_mgr();
    register_types(&mut mgr);
    let asset_id = register_assets(&mut mgr);

    let asset = mgr.asset_by_id(asset_id).unwrap();
    assert_eq!(asset.id(), asset_id);
}

#[test]
fn test_register_get_asset_type() {
    let mut mgr = init_mgr();
    register_types(&mut mgr);
    let asset_type = mgr.asset_type_by_name("TestAsset");
    assert!(asset_type.is_some());
    let asset_type = asset_type.unwrap();
    let name = asset_type.name();
    assert_eq!(name, "TestAsset");
}

#[test]
fn test_register_get_asset() {
    let mut mgr = init_mgr();
    register_types(&mut mgr);
    let asset_id = register_assets(&mut mgr);
    let asset = mgr.asset_by_id(asset_id);
    assert!(asset.is_some());
    let asset = asset.unwrap();
    assert_eq!(asset.id(), asset_id);
}

#[test]
fn unknown_type_name_is_none() {
    let mut mgr = init_mgr();
    assert!(mgr.asset_type_by_name("TestAsset").is_none());
    register_types(&mut mgr);
    assert!(mgr.asset_type_by_name("Nope").is_none());
}

#[test]
fn register_asset_id_from_path() {
    let mut mgr = init_mgr();
    register_types(&mut mgr);
    let id = register_assets(&mut mgr);
    assert_eq!(id, AssetId::from("test/asset.bin"));
    assert_ne!(id, AssetId::from(0u64));
}

#[test]
fn register_asset_keeps_nonzero_id() {
    let mut mgr = init_mgr();
    register_types(&mut mgr);
    let asset_type = mgr.asset_type_by_name("TestAsset").unwrap();
    let data: Box<Data> = Box::new(TestAssetData { value_a: 1, value_b: 0.5, value_c: (0, 0, 0) });
    let serialized_like = Asset::from_serialized(
        &mgr,
        extendable_assets::SerializedAsset {
            id: AssetId::from(99u64),
            asset_type: "TestAsset".to_string(),
            data: encode(&TestAssetData { value_a: 1, value_b: 0.5, value_c: (0, 0, 0) }),
        },
    )
    .unwrap();
    let id = mgr.register_asset("whatever", serialized_like);
    assert_eq!(id, AssetId::from(99u64));
    let zero = mgr.register_asset("whatever", Asset::new(asset_type, data));
    assert_eq!(zero, AssetId::from("whatever"));
}

#[test]
fn register_asset_replaces_same_id() {
    let mut mgr = init_mgr();
    register_types(&mut mgr);
    let asset_type = mgr.asset_type_by_name("TestAsset").unwrap();
    let a: Box<Data> = Box::new(TestAssetData { value_a: 1, value_b: 0.0, value_c: (0, 0, 0) });
    let b: Box<Data> = Box::new(TestAssetData { value_a: 2, value_b: 0.0, value_c: (0, 0, 0) });
    let id1 = mgr.register_asset("same", Asset::new(asset_type.clone(), a));
    let id2 = mgr.register_asset("same", Asset::new(asset_type, b));
    assert_eq!(id1, id2);
    let found = mgr.asset_by_id(id1).unwrap();
    assert_eq!(found.data().downcast_ref::<TestAssetData>().unwrap().value_a, 2);
}

#[test]
fn unregister_asset_removes_it() {
    let mut mgr = init_mgr();
    register_types(&mut mgr);
    let id = register_assets(&mut mgr);
    assert!(mgr.unregister_asset(id));
    assert!(mgr.asset_by_id(id).is_none());
    assert!(!mgr.unregister_asset(id));
}

#[test]
fn register_asset_type_replaces_same_name() {
    let mut mgr = init_mgr();
    mgr.register_asset_type(Arc::new(TestAssetType));
    let first = mgr.asset_type_by_name("TestAsset").unwrap();
    mgr.register_asset_type(Arc::new(TestAssetType));
    let second = mgr.asset_type_by_name("TestAsset").unwrap();
    assert!(!Arc::ptr_eq(&first, &second));
    assert_eq!(second.name(), "TestAsset");
}

#[test]
fn context_is_handed_to_loaders() {
    let mut mgr = init_mgr();
    register_types(&mut mgr);
    assert!(mgr.context().is_none());
    let ctx: Arc<Ctx> = Arc::new(TestContext { value: "ctx value".to_string() });
    mgr.set_context(ctx.clone());
    assert!(Arc::ptr_eq(&mgr.context().unwrap(), &ctx));
    // Other methods keep the context.
    mgr.unregister_asset(AssetId::from(1u64));
    assert!(Arc::ptr_eq(&mgr.context().unwrap(), &ctx));
    let loaded = Asset::from_serialized(
        &mgr,
        extendable_assets::SerializedAsset {
            id: AssetId::from(5u64),
            asset_type: "TestContextAsset".to_string(),
            data: 17u32.to_le_bytes().to_vec(),
        },
    )
    .unwrap();
    let data = loaded.data().downcast_ref::<TestContextAssetData>().unwrap();
    assert_eq!(data.value, 17);
    assert_eq!(data.ctx.as_deref(), Some("ctx value"));
}

#[test]
fn fs_read_and_register_asset_with_backend() {
    let payload = encode(&TestAssetData { value_a: 7, value_b: 1.5, value_c: (4, 5, 6) });
    let serialized = extendable_assets::SerializedAsset {
        id: AssetId::from(0u64),
        asset_type: "TestAsset".to_string(),
        data: payload,
    };
    let file = extendable_assets::AssetSerializationBackend::serialize(&FramedBackend, &serialized).unwrap();
    let fs: Arc<dyn Filesystem> =
        Arc::new(MemoryFilesystem { files: vec![("dir/a.asset".to_string(), file)] });
    let mut mgr: AssetManager<Data, Ctx> = AssetManager::new(fs);
    register_types(&mut mgr);

    // The null backend refuses to deserialize.
    match mgr.fs_read_and_register_asset("dir/a.asset") {
        Err(AssetError::Serialization(msg)) => {
            assert_eq!(msg, "Unimplemented for NullSerializationBackend")
        },
        _ => panic!("expected a serialization error"),
    }

    mgr.set_serialization_backend(Box::new(FramedBackend));
    let id = mgr.fs_read_and_register_asset("dir/a.asset").unwrap();
    assert_eq!(id, AssetId::from("dir/a.asset"));
    let asset = mgr.asset_by_id(id).unwrap();
    assert_eq!(asset.data().downcast_ref::<TestAssetData>().unwrap().value_a, 7);

    match mgr.fs_read_and_register_asset("dir/missing.asset") {
        Err(AssetError::Filesystem(FilesystemError::NotFound(p))) => {
            assert_eq!(p, "dir/missing.asset")
        },
        _ => panic!("expected NotFound"),
    }
}

#[test]
fn register_decoded_maps_backend_answer() {
    let mut mgr = init_mgr();
    register_types(&mut mgr);

    match mgr.register_decoded("x.asset", Err("bad frame".to_string())) {
        Err(AssetError::Serialization(msg)) => assert_eq!(msg, "bad frame"),
        _ => panic!("expected a serialization error"),
    }
    assert!(mgr.asset_by_id(AssetId::from("x.asset")).is_none());

    let serialized = extendable_assets::SerializedAsset {
        id: AssetId::from(0u64),
        asset_type: "TestAsset".to_string(),
        data: encode(&TestAssetData { value_a: 9, value_b: 0.5, value_c: (1, 2, 3) }),
    };
    let id = mgr.register_decoded("x.asset", Ok(serialized)).unwrap();
    assert_eq!(id, AssetId::from("x.asset"));
    assert_eq!(mgr.asset_by_id(id).unwrap().id(), id);

    let unknown = extendable_assets::SerializedAsset {
        id: AssetId::from(5u64),
        asset_type: "Nope".to_string(),
        data: Vec::new(),
    };
    match mgr.register_decoded("y.asset", Ok(unknown)) {
        Err(AssetError::TypeNotFound(n)) => assert_eq!(n, "Nope"),
        _ => panic!("expected TypeNotFound"),
    }
}

#[test]
fn register_read_maps_filesystem_answer() {
    let mut mgr = init_mgr();
    register_types(&mut mgr);

    match mgr.register_read("a.asset", Err(FilesystemError::NotFound("a.asset".to_string()))) {
        Err(AssetError::Filesystem(FilesystemError::NotFound(p))) => assert_eq!(p, "a.asset"),
        _ => panic!("expected the filesystem error"),
    }
    // With the null backend, read bytes give the null backend's error.
    match mgr.register_read("a.asset", Ok(vec![1, 2, 3])) {
        Err(AssetError::Serialization(msg)) => {
            assert_eq!(msg, "Unimplemented for NullSerializationBackend")
        },
        _ => panic!("expected a serialization error"),
    }
    assert!(mgr.asset_by_id(AssetId::from("a.asset")).is_none());

    mgr.set_serialization_backend(Box::new(FramedBackend));
    let serialized = extendable_assets::SerializedAsset {
        id: AssetId::from(0u64),
        asset_type: "TestAsset".to_string(),
        data: encode(&TestAssetData { value_a: 3, value_b: 2.0, value_c: (7, 8, 9) }),
    };
    let file =
        extendable_assets::AssetSerializationBackend::serialize(&FramedBackend, &serialized).unwrap();
    let id = mgr.register_read("a.asset", Ok(file)).unwrap();
    assert_eq!(id, AssetId::from("a.asset"));
    assert_eq!(mgr.asset_by_id(id).unwrap().id(), id);
}
