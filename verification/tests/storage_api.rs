//! Unit tests of the store: sparse vector, dense id registry, type-erased
//! slots, protocol database and services.

use dxe_core::storage::{ErasedValue, SparseVec, Storage};

#[test]
fn sparse_vec_starts_empty() {
    let v: SparseVec<u32> = SparseVec::new();
    assert!(!v.contains(0));
    assert!(v.get(0).is_none());
    assert!(!v.contains(100));
}

#[test]
fn sparse_vec_insert_pads_with_empty_slots() {
    let mut v: SparseVec<u32> = SparseVec::new();
    v.insert(3, 30);
    assert!(v.contains(3));
    assert_eq!(v.get(3), Some(&30));
    assert!(!v.contains(0));
    assert!(!v.contains(1));
    assert!(!v.contains(2));
    assert!(!v.contains(4));
}

#[test]
fn sparse_vec_insert_overwrites() {
    let mut v: SparseVec<u32> = SparseVec::new();
    v.insert(1, 10);
    v.insert(1, 20);
    assert_eq!(v.get(1), Some(&20));
}

#[test]
fn erased_value_downcast_returns_payload() {
    let v = ErasedValue { type_key: 4, payload: 1234 };
    assert_eq!(v.downcast(4), 1234);
}

#[test]
fn ids_are_dense_and_stable() {
    let mut s = Storage::new();
    let a = s.get_or_register_resource(500);
    let b = s.get_or_register_resource(600);
    let a2 = s.get_or_register_resource(500);
    let c = s.register_config(700);
    assert_eq!(a, 0);
    assert_eq!(b, 1);
    assert_eq!(a2, 0);
    assert_eq!(c, 2);
}

#[test]
fn try_add_config_installs_at_most_once() {
    let mut s = Storage::new();
    let id = s.register_config(5);
    s.try_add_config(id, ErasedValue { type_key: 5, payload: 1 });
    s.try_add_config(id, ErasedValue { type_key: 5, payload: 2 });
    assert_eq!(s.get_config_untyped(id).payload, 1);
}

#[test]
fn add_config_overwrites() {
    let mut s = Storage::new();
    s.add_config(5, 1);
    s.add_config(5, 2);
    let id = s.register_config(5);
    assert_eq!(s.get_config_untyped(id).payload, 2);
    assert_eq!(s.get_config_untyped(id).type_key, 5);
}

#[test]
fn set_config_untyped_replaces_payload() {
    let mut s = Storage::new();
    s.add_config(8, 10);
    let id = s.register_config(8);
    s.set_config_untyped(id, ErasedValue { type_key: 8, payload: 11 });
    assert_eq!(s.get_config_untyped(id).payload, 11);
}

#[test]
fn lookup_config_reports_absence_and_value() {
    let mut s = Storage::new();
    assert!(s.lookup_config(9).is_none());
    let _ = s.register_config(9);
    assert!(s.lookup_config(9).is_none());
    s.add_config(9, 77);
    let v = s.lookup_config(9).unwrap();
    assert_eq!(v.type_key, 9);
    assert_eq!(v.payload, 77);
}

#[test]
fn protocols_are_presence_gated_and_overwritable() {
    let mut s = Storage::new();
    let g: u128 = 42;
    assert!(!s.contains_protocol(g));
    s.add_protocol(g, ErasedValue { type_key: 1, payload: 2 });
    assert!(s.contains_protocol(g));
    assert_eq!(s.get_protocol_untyped(g).payload, 2);
    s.add_protocol(g, ErasedValue { type_key: 1, payload: 3 });
    assert_eq!(s.get_protocol_untyped(g).payload, 3);
    assert!(!s.contains_protocol(43));
}

#[test]
fn services_are_presence_gated() {
    let mut s = Storage::new();
    let id = s.register_config(12);
    assert!(!s.contains_service(id));
    s.add_service(12, 5);
    assert!(s.contains_service(id));
    assert_eq!(s.get_service_untyped(id), 5);
}
