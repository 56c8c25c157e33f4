use rjvm_core::loader::{ClassLoaders, LoaderError};
use rjvm_core::string::JvmString;

fn name(s: &str) -> JvmString {
    JvmString::from_str(s)
}

#[test]
fn loaders_define_each_name_once() {
    let mut loaders = ClassLoaders::bootstrap();
    assert_eq!(loaders.len(), 1);
    assert_eq!(loaders.parent(0), None);
    assert_eq!(loaders.define_class(0, name("java/lang/Object"), 0), Ok(()));
    assert_eq!(loaders.define_class(0, name("java/lang/Object"), 7), Err(LoaderError::DuplicateClass));
    assert_eq!(loaders.find_loaded_class(0, &name("java/lang/Object")), Some(0));
    let app = loaders.with_parent(0);
    assert_eq!(app, 1);
    assert_eq!(loaders.define_class(app, name("java/lang/Object"), 3), Ok(()));
    assert_eq!(loaders.find_loaded_class(app, &name("java/lang/Object")), Some(3));
}

#[test]
fn lookups_go_up_the_chain() {
    let mut loaders = ClassLoaders::bootstrap();
    loaders.define_class(0, name("java/lang/Object"), 0).unwrap();
    let app = loaders.with_parent(0);
    loaders.define_class(app, name("Main"), 5).unwrap();
    let plugin = loaders.with_parent(app);
    assert_eq!(loaders.parent(plugin), Some(app));
    assert_eq!(loaders.find_loaded_class(plugin, &name("Main")), None);
    assert_eq!(loaders.find_in_chain(plugin, &name("Main")), Some(5));
    assert_eq!(loaders.find_in_chain(plugin, &name("java/lang/Object")), Some(0));
    assert_eq!(loaders.find_in_chain(0, &name("Main")), None);
    assert_eq!(loaders.ancestry(plugin), vec![2, 1, 0]);
    assert_eq!(loaders.ancestry(0), vec![0]);
}
