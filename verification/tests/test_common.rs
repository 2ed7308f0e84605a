#[derive(Clone, Debug, PartialEq)]
struct TestAssetData {
    value_a: u32,
    value_b: f32,
    value_c: (u8, u8, u8),
}

fn random_data() -> TestAssetData {
    TestAssetData {
        value_a: rand::random::<u32>(),
        value_b: rand::random::<f32>(),
        value_c: (rand::random::<u8>(), rand::random::<u8>(), rand::random::<u8>()),
    }
}

#[test]
fn asset_data_eq() {
    let a = random_data();
    let b = a.clone();
    assert_eq!(a, b);
}

#[test]
fn asset_data_ne() {
    let a = random_data();
    let b = random_data();
    assert_ne!(a, b);
}
