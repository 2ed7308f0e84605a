use std::any::Any;
use std::sync::Arc;

use extendable_assets::{
    Asset, AssetError, AssetId, AssetLoadError, AssetLoader, AssetManager, AssetSaveError,
    AssetSaver, AssetType, FallbackFilesystem, Filesystem, LoaderHandle, SaverHandle,
    SerializedAsset,
};

type Data = dyn Any + Send + Sync;
type Ctx = dyn Any + Send + Sync;

#[derive(Clone, Debug, PartialEq)]
struct TestAssetData {
    value_a: u32,
    value_b: f32,
    value_c: (u8, u8, u8),
}

fn random_data() -> TestAssetData {
    TestAssetData {
        value_a: rand::random::<u32>(),
        value_b: rand::random::<f32>(),
        value_c: (rand::random::<u8>(), rand::random::<u8>(), rand::random::<u8>()),
    }
}

fn encode(d: &TestAssetData) -> Vec<u8> {
    let mut v = Vec::new();
    v.extend_from_slice(&d.value_a.to_le_bytes());
    v.extend_from_slice(&d.value_b.to_le_bytes());
    v.push(d.value_c.0);
    v.push(d.value_c.1);
    v.push(d.value_c.2);
    v
}

fn decode(b: &[u8]) -> Option<TestAssetData> {
    if b.len() != 11 {
        return None;
    }
    Some(TestAssetData {
        value_a: u32::from_le_bytes([b[0], b[1], b[2], b[3]]),
        value_b: f32::from_le_bytes([b[4], b[5], b[6], b[7]]),
        value_c: (b[8], b[9], b[10]),
    })
}

struct Loader;
impl AssetLoader<Data, Ctx> for Loader {
    fn asset_from_bytes(
        &self,
        bytes: &[u8],
        _context: Option<Arc<Ctx>>,
    ) -> Result<Box<Data>, AssetLoadError> {
        match decode(bytes) {
            Some(d) => Ok(Box::new(d)),
            None => Err(AssetLoadError::Deserialization("bad length".to_string())),
        }
    }
}

struct Saver;
impl AssetSaver<Data, Ctx> for Saver {
    fn asset_to_bytes(
        &self,
        asset: &Data,
        _context: Option<Arc<Ctx>>,
    ) -> Result<Vec<u8>, AssetSaveError> {
        let data = asset.downcast_ref::<TestAssetData>().ok_or(AssetSaveError::UnsupportedType)?;
        Ok(encode(data))
    }
}

struct TestAssetType;
impl AssetType<Data, Ctx> for TestAssetType {
    fn name(&self) -> &str {
        "TestAsset"
    }
    fn loader(&self) -> LoaderHandle<Data, Ctx> {
        LoaderHandle(Box::new(Loader))
    }
    fn saver(&self) -> SaverHandle<Data, Ctx> {
        SaverHandle(Box::new(Saver))
    }
}

fn init_mgr() -> AssetManager<Data, Ctx> {
    let fs: Arc<dyn Filesystem> = Arc::new(FallbackFilesystem::new(Vec::new()));
    AssetManager::new(fs)
}

fn register_types(mgr: &mut AssetManager<Data, Ctx>) {
    mgr.register_asset_type(Arc::new(TestAssetType));
}

#[test]
fn from_serialized() {
    let mut mgr = init_mgr();
    register_types(&mut mgr);

    let asset_type = mgr.asset_type_by_name("TestAsset").expect("Asset type not found");
    let asset_data = random_data();
    let asset_data_bytes = asset_type.saver().0.asset_to_bytes(&asset_data, None).unwrap();

    let serialized = SerializedAsset {
        asset_type: "TestAsset".into(),
        id: AssetId::from(rand::random::<u64>()),
        data: asset_data_bytes,
    };

    let id = serialized.id;
    let loaded_asset = Asset::from_serialized(&mgr, serialized).unwrap();
    let loaded_data = loaded_asset.data().downcast_ref::<TestAssetData>().unwrap();
    assert_eq!(*loaded_data, asset_data);
    assert_eq!(loaded_asset.id(), id);
    assert_eq!(loaded_asset.asset_type().name(), "TestAsset");
}

#[test]
fn from_serialized_unknown_type() {
    let mgr = init_mgr();
    let serialized = SerializedAsset {
        asset_type: "Missing".into(),
        id: AssetId::from(7u64),
        data: vec![1, 2, 3],
    };
    match Asset::from_serialized(&mgr, serialized) {
        Err(AssetError::TypeNotFound(name)) => assert_eq!(name, "Missing"),
        _ => panic!("expected TypeNotFound"),
    }
}

#[test]
fn from_serialized_loader_error() {
    let mut mgr = init_mgr();
    register_types(&mut mgr);
    let serialized = SerializedAsset {
        asset_type: "TestAsset".into(),
        id: AssetId::from(7u64),
        data: vec![1, 2, 3],
    };
    match Asset::from_serialized(&mgr, serialized) {
        Err(AssetError::Loader(AssetLoadError::Deserialization(msg))) => {
            assert_eq!(msg, "bad length")
        },
        _ => panic!("expected a loader error"),
    }
}

#[test]
fn new_asset_has_zero_id() {
    let asset_type: Arc<dyn AssetType<Data, Ctx>> = Arc::new(TestAssetType);
    let asset = Asset::new(asset_type, Box::new(random_data()) as Box<Data>);
    assert_eq!(asset.id(), AssetId::from(0u64));
    assert_eq!(asset.asset_type().name(), "TestAsset");
}

#[test]
fn asset_error_messages() {
    let e: AssetError = AssetError::TypeNotFound("Foo".to_string());
    assert_eq!(e.message(), "Asset type was not found: Foo");
    let e = AssetError::Loader(AssetLoadError::Deserialization("oops".to_string()));
    assert_eq!(e.message(), "Error loading asset data from bytes: Deserialization error: oops");
    let e = AssetError::TypeDropped;
    assert_eq!(e.message(), "A weak pointer to an AssetType could not be upgraded");
    let e = AssetError::Other("plain".to_string());
    assert_eq!(e.message(), "plain");
    let e = AssetSaveError::UnsupportedType;
    assert_eq!(e.message(), "Unsupported asset type");
    let e = AssetSaveError::Serialization("x".to_string());
    assert_eq!(e.message(), "Serialization error: x");
}

#[test]
fn from_loaded_keeps_id_type_and_data() {
    let asset_type: Arc<dyn AssetType<Data, Ctx>> = Arc::new(TestAssetType);
    let data = random_data();
    let boxed: Box<Data> = Box::new(data.clone());
    let asset = Asset::from_loaded(AssetId::from(12u64), (asset_type.clone(),), Ok(boxed)).unwrap();
    assert_eq!(asset.id(), AssetId::from(12u64));
    assert!(Arc::ptr_eq(asset.asset_type(), &asset_type));
    assert_eq!(asset.data().downcast_ref::<TestAssetData>().unwrap(), &data);

    let failed = Asset::from_loaded(
        AssetId::from(12u64),
        (asset_type.clone(),),
        Err(AssetLoadError::Other("nope".to_string())),
    );
    match failed {
        Err(AssetError::Loader(AssetLoadError::Other(m))) => assert_eq!(m, "nope"),
        _ => panic!("expected the loader's error"),
    }
}
