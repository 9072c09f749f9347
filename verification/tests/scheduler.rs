//! Scenario tests for the component manager: dispatch to fixpoint, protocol
//! gating, conflict detection, defaults and explicit configuration.

use dxe_core::component::FunctionComponent;
use dxe_core::params::{Callable, ConflictKind, ParamDecl};
use dxe_core::ComponentManager;

const KEY_COUNT: u64 = 1;
const KEY_OBSERVED: u64 = 2;
const KEY_USIZE: u64 = 3;
const GUID_X: u128 = 0x1111_2222_3333_4444_5555_6666_7777_8888;
const GUID_Y: u128 = 0x9999_aaaa_bbbb_cccc_dddd_eeee_ffff_0001;
const KEY_PROTO_VALUE: u64 = 77;

fn comp(name: &str, params: Vec<ParamDecl>, callable: Callable) -> FunctionComponent {
    FunctionComponent::new(String::from(name), params, callable).unwrap()
}

fn lookup(m: &ComponentManager, key: u64) -> Option<u64> {
    m.storage().lookup_config(key).map(|v| v.payload)
}

#[test]
fn increment_then_observe_single_pass() {
    // Component A writes `count` (incrementing it), component B reads
    // `count` and records what it observed; registered A before B, one pass
    // suffices: A runs first, B observes the incremented value.
    let mut m = ComponentManager::new();
    let a = comp(
        "a",
        vec![ParamDecl::ConfigMut { type_key: KEY_COUNT, default_payload: 0 }],
        Callable::AddToConfig { index: 0, amount: 1 },
    );
    let b = comp(
        "b",
        vec![
            ParamDecl::Config { type_key: KEY_COUNT, default_payload: 0 },
            ParamDecl::ConfigMut { type_key: KEY_OBSERVED, default_payload: 0 },
        ],
        Callable::CopyConfig { src: 0, dst: 1 },
    );
    assert!(m.add_component(a).is_ok());
    assert!(m.add_component(b).is_ok());
    let passes = m.run_passes();
    assert_eq!(passes, 1);
    assert_eq!(m.component_count(), 0);
    assert_eq!(lookup(&m, KEY_COUNT), Some(1));
    assert_eq!(lookup(&m, KEY_OBSERVED), Some(1));
}

#[test]
fn publisher_before_dependent_one_pass() {
    // D publishes X and is registered before C, which depends on X: both
    // complete in the first pass, because D's side effect is visible to C
    // later in the same pass.
    let mut m = ComponentManager::new();
    let d = comp(
        "d",
        vec![ParamDecl::StoreRef { mutable: true }],
        Callable::PublishProtocol { guid: GUID_X, type_key: KEY_PROTO_VALUE, payload: 5 },
    );
    let c = comp("c", vec![ParamDecl::Protocol { guid: GUID_X }], Callable::Noop);
    assert!(m.add_component(d).is_ok());
    assert!(m.add_component(c).is_ok());
    let passes = m.run_passes();
    assert_eq!(passes, 1);
    assert_eq!(m.component_count(), 0);
    assert!(m.storage().contains_protocol(GUID_X));
}

#[test]
fn dependent_before_publisher_two_passes() {
    // C depends on X but is registered before the publisher D: in the first
    // pass C is skipped (X absent) and D publishes; C completes only in the
    // second pass.
    let mut m = ComponentManager::new();
    let c = comp("c", vec![ParamDecl::Protocol { guid: GUID_X }], Callable::Noop);
    let d = comp(
        "d",
        vec![ParamDecl::StoreRef { mutable: true }],
        Callable::PublishProtocol { guid: GUID_X, type_key: KEY_PROTO_VALUE, payload: 5 },
    );
    assert!(m.add_component(c).is_ok());
    assert!(m.add_component(d).is_ok());
    let passes = m.run_passes();
    assert_eq!(passes, 2);
    assert_eq!(m.component_count(), 0);
}

#[test]
fn unpublished_protocol_leaves_component_queued() {
    // A component waiting on a protocol nobody publishes is not an error:
    // it simply stays queued, observable through the count.
    let mut m = ComponentManager::new();
    let c = comp("c", vec![ParamDecl::Protocol { guid: GUID_Y }], Callable::Noop);
    assert!(m.add_component(c).is_ok());
    m.run();
    assert_eq!(m.component_count(), 1);
}

#[test]
fn zero_parameter_component_completes_first_pass() {
    let mut m = ComponentManager::new();
    let c = comp("nop", vec![], Callable::Noop);
    assert!(m.add_component(c).is_ok());
    let passes = m.run_passes();
    assert_eq!(passes, 1);
    assert_eq!(m.component_count(), 0);
}

#[test]
fn conflict_write_after_write() {
    let mut m = ComponentManager::new();
    let c = comp(
        "ww",
        vec![
            ParamDecl::ConfigMut { type_key: KEY_COUNT, default_payload: 0 },
            ParamDecl::ConfigMut { type_key: KEY_COUNT, default_payload: 0 },
        ],
        Callable::Noop,
    );
    let e = m.add_component(c).unwrap_err();
    assert_eq!(e.kind, ConflictKind::WriteThenWrite);
    assert_eq!(e.type_key, KEY_COUNT);
    assert_eq!(e.name, "ww");
    assert_eq!(m.component_count(), 0);
}

#[test]
fn conflict_read_after_write() {
    let mut m = ComponentManager::new();
    let c = comp(
        "wr",
        vec![
            ParamDecl::ConfigMut { type_key: KEY_COUNT, default_payload: 0 },
            ParamDecl::Config { type_key: KEY_COUNT, default_payload: 0 },
        ],
        Callable::Noop,
    );
    let e = m.add_component(c).unwrap_err();
    assert_eq!(e.kind, ConflictKind::WriteThenRead);
    assert_eq!(e.type_key, KEY_COUNT);
    assert_eq!(m.component_count(), 0);
}

#[test]
fn conflict_write_after_read() {
    let mut m = ComponentManager::new();
    let c = comp(
        "rw",
        vec![
            ParamDecl::Config { type_key: KEY_COUNT, default_payload: 0 },
            ParamDecl::ConfigMut { type_key: KEY_COUNT, default_payload: 0 },
        ],
        Callable::Noop,
    );
    let e = m.add_component(c).unwrap_err();
    assert_eq!(e.kind, ConflictKind::ReadThenWrite);
    assert_eq!(e.type_key, KEY_COUNT);
    assert_eq!(m.component_count(), 0);
}

#[test]
fn two_readers_of_same_resource_never_conflict() {
    // Two different components each declaring only read access to the same
    // resource: no conflict, and both run.
    let mut m = ComponentManager::new();
    let r1 = comp(
        "r1",
        vec![ParamDecl::Config { type_key: KEY_COUNT, default_payload: 0 }],
        Callable::Noop,
    );
    let r2 = comp(
        "r2",
        vec![ParamDecl::Config { type_key: KEY_COUNT, default_payload: 0 }],
        Callable::Noop,
    );
    assert!(m.add_component(r1).is_ok());
    assert!(m.add_component(r2).is_ok());
    let passes = m.run_passes();
    assert_eq!(passes, 1);
    assert_eq!(m.component_count(), 0);
}

#[test]
fn same_component_may_read_twice() {
    // Two read-only views of the same configuration within one component:
    // read plus read never conflicts.
    let mut m = ComponentManager::new();
    let c = comp(
        "rr",
        vec![
            ParamDecl::Config { type_key: KEY_COUNT, default_payload: 0 },
            ParamDecl::Config { type_key: KEY_COUNT, default_payload: 0 },
        ],
        Callable::Noop,
    );
    assert!(m.add_component(c).is_ok());
    m.run();
    assert_eq!(m.component_count(), 0);
}

#[test]
fn declared_dependency_materializes_default() {
    // Access to a configuration value that was never supplied yields the
    // type's default.
    let mut m = ComponentManager::new();
    let c = comp(
        "defaulted",
        vec![ParamDecl::Config { type_key: KEY_USIZE, default_payload: 7 }],
        Callable::Noop,
    );
    assert!(m.add_component(c).is_ok());
    assert_eq!(lookup(&m, KEY_USIZE), Some(7));
    m.run();
    assert_eq!(lookup(&m, KEY_USIZE), Some(7));
}

#[test]
fn explicit_config_wins_over_default() {
    // An explicit configuration supplied before registration is kept; the
    // default is not installed over it.
    let mut m = ComponentManager::new();
    m.add_config(KEY_COUNT, 42);
    let c = comp(
        "reader",
        vec![ParamDecl::Config { type_key: KEY_COUNT, default_payload: 0 }],
        Callable::Noop,
    );
    assert!(m.add_component(c).is_ok());
    assert_eq!(lookup(&m, KEY_COUNT), Some(42));
}

#[test]
fn write_dependency_also_materializes_default() {
    let mut m = ComponentManager::new();
    let c = comp(
        "writer",
        vec![ParamDecl::ConfigMut { type_key: KEY_COUNT, default_payload: 9 }],
        Callable::Noop,
    );
    assert!(m.add_component(c).is_ok());
    assert_eq!(lookup(&m, KEY_COUNT), Some(9));
}

#[test]
fn chain_of_publishers_takes_one_pass_each() {
    // A chain of n protocol dependencies registered in reverse order needs
    // exactly n productive passes: dispatch always terminates within the
    // number of components.
    let g1: u128 = 101;
    let g2: u128 = 102;
    let g3: u128 = 103;
    let mut m = ComponentManager::new();
    let needs_g2_pub_g3 = FunctionComponent::new(
        String::from("c3"),
        vec![ParamDecl::Protocol { guid: g2 }, ParamDecl::StoreRef { mutable: true }],
        Callable::PublishProtocol { guid: g3, type_key: 0, payload: 0 },
    )
    .unwrap();
    let needs_g1_pub_g2 = FunctionComponent::new(
        String::from("c2"),
        vec![ParamDecl::Protocol { guid: g1 }, ParamDecl::StoreRef { mutable: true }],
        Callable::PublishProtocol { guid: g2, type_key: 0, payload: 0 },
    )
    .unwrap();
    let pub_g1 = FunctionComponent::new(
        String::from("c1"),
        vec![ParamDecl::StoreRef { mutable: true }],
        Callable::PublishProtocol { guid: g1, type_key: 0, payload: 0 },
    )
    .unwrap();
    assert!(m.add_component(needs_g2_pub_g3).is_ok());
    assert!(m.add_component(needs_g1_pub_g2).is_ok());
    assert!(m.add_component(pub_g1).is_ok());
    let passes = m.run_passes();
    assert_eq!(passes, 3);
    assert_eq!(m.component_count(), 0);
    assert!(m.storage().contains_protocol(g3));
}

#[test]
fn service_gates_component_until_supplied() {
    let mut m = ComponentManager::new();
    let c = comp(
        "svc",
        vec![ParamDecl::Service { type_key: KEY_USIZE }],
        Callable::Noop,
    );
    assert!(m.add_component(c).is_ok());
    m.run();
    assert_eq!(m.component_count(), 1);
    m.add_service(KEY_USIZE, 11);
    m.run();
    assert_eq!(m.component_count(), 0);
}

#[test]
fn set_config_directive_overwrites_value() {
    let mut m = ComponentManager::new();
    m.add_config(KEY_COUNT, 3);
    let c = comp(
        "setter",
        vec![ParamDecl::ConfigMut { type_key: KEY_COUNT, default_payload: 0 }],
        Callable::SetConfig { index: 0, payload: 99 },
    );
    assert!(m.add_component(c).is_ok());
    m.run();
    assert_eq!(lookup(&m, KEY_COUNT), Some(99));
}

#[test]
fn increment_wraps_at_the_top() {
    let mut m = ComponentManager::new();
    m.add_config(KEY_COUNT, u64::MAX);
    let c = comp(
        "wrapper",
        vec![ParamDecl::ConfigMut { type_key: KEY_COUNT, default_payload: 0 }],
        Callable::AddToConfig { index: 0, amount: 2 },
    );
    assert!(m.add_component(c).is_ok());
    m.run();
    assert_eq!(lookup(&m, KEY_COUNT), Some(1));
}

#[test]
fn ill_fitting_callable_is_rejected() {
    // A directive naming a parameter position of the wrong kind cannot be
    // adapted into a component.
    assert!(FunctionComponent::new(
        String::from("bad"),
        vec![ParamDecl::Config { type_key: KEY_COUNT, default_payload: 0 }],
        Callable::AddToConfig { index: 0, amount: 1 },
    )
    .is_none());
    assert!(FunctionComponent::new(
        String::from("bad2"),
        vec![],
        Callable::PublishProtocol { guid: GUID_X, type_key: 0, payload: 0 },
    )
    .is_none());
}

#[test]
fn whole_store_component_runs_unconditionally() {
    let mut m = ComponentManager::new();
    let c = comp("store", vec![ParamDecl::StoreRef { mutable: false }], Callable::Noop);
    assert!(m.add_component(c).is_ok());
    let passes = m.run_passes();
    assert_eq!(passes, 1);
    assert_eq!(m.component_count(), 0);
}
