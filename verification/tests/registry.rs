use enrs::registry::Registry;

#[test]
fn create_static_components() {
    let _registry = Registry::<u32>::new();
}
