//! Unit tests of the per-component access tracker.

use dxe_core::access::Access;
use dxe_core::component::FunctionComponent;
use dxe_core::params::{Callable, ParamDecl};
use dxe_core::storage::Storage;

#[test]
fn new_access_declares_nothing() {
    let a = Access::new();
    assert!(!a.has_config_write(0));
    assert!(!a.has_config_read(0));
    assert!(!a.is_exclusive());
}

#[test]
fn write_marks_both_sets() {
    let mut a = Access::new();
    a.add_config_write(3);
    assert!(a.has_config_write(3));
    assert!(a.has_config_read(3));
    assert!(!a.has_config_write(2));
    assert!(!a.has_config_read(2));
}

#[test]
fn read_marks_only_the_read_set() {
    let mut a = Access::new();
    a.add_config_read(7);
    assert!(!a.has_config_write(7));
    assert!(a.has_config_read(7));
}

#[test]
fn exclusive_flag_is_set_once() {
    let mut a = Access::new();
    a.set_exclusive();
    assert!(a.is_exclusive());
    assert!(!a.has_config_read(0));
}

#[test]
fn component_metadata_records_name_and_access() {
    let mut st = Storage::new();
    let mut c = FunctionComponent::new(
        String::from("meta"),
        vec![
            ParamDecl::ConfigMut { type_key: 21, default_payload: 0 },
            ParamDecl::Config { type_key: 22, default_payload: 0 },
        ],
        Callable::Noop,
    )
    .unwrap();
    assert!(c.initialize(&mut st).is_ok());
    let meta = c.metadata();
    assert_eq!(meta.name().as_str(), "meta");
    let id21 = st.register_config(21);
    let id22 = st.register_config(22);
    assert!(meta.access().has_config_write(id21));
    assert!(meta.access().has_config_read(id22));
    assert!(!meta.access().has_config_write(id22));
}
