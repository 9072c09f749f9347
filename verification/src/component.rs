//! The component adapter: a callable together with its parameter list, its
//! resolved parameter state and its metadata, exposed as a uniform runnable
//! unit with one-time initialization and a boolean-returning run step.

use vstd::prelude::*;

use crate::access::{Access, AccessView};
use crate::params::{
    callable_params_check, callable_params_ok, config_mut_key, init_params_from,
    initialize_params, lemma_slot_has_declared_key, params_ready, retrieve_all, retrieve_one,
    retrieve_params, states_consistent, validate_params, Callable, ConflictKind, ParamDecl,
    ParamState, ParamValue,
};
use crate::storage::{store_extends, ErasedValue, Storage, StoreView};

verus! {

/// Metadata of a component: its display name and the access set built during
/// its one-time initialization.
pub struct MetaData {
    name: String,
    access: Access,
}

impl MetaData {
    pub closed spec fn spec_name(self) -> Seq<char> {
        self.name@
    }

    pub closed spec fn spec_access(self) -> AccessView {
        self.access@
    }

    /// Creates metadata for a component of the given display name, with no
    /// access declared yet.
    pub fn new(name: String) -> (r: Self)
        ensures
            r.spec_name() == name@,
            r.spec_access() == AccessView::empty(),
    {
        MetaData { name, access: Access::new() }
    }

    /// The display name of the component.
    pub fn name(&self) -> (r: &String)
        ensures
            r@ == self.spec_name(),
    {
        &self.name
    }

    /// The access set of the component.
    pub fn access(&self) -> (r: &Access)
        ensures
            r@ == self.spec_access(),
    {
        &self.access
    }
}

/// The fatal registration-time failure: one component declared incompatible
/// access to the same resource twice.
pub struct ConflictError {
    pub name: String,
    pub type_key: u64,
    pub kind: ConflictKind,
}

/// The abstract state of a [FunctionComponent].
pub struct CompView {
    pub name: Seq<char>,
    pub params: Seq<ParamDecl>,
    pub states: Option<Seq<ParamState>>,
    pub access: AccessView,
    pub callable: Callable,
}

/// A component is well formed when its callable fits its parameter list.
pub open spec fn comp_wf(c: CompView) -> bool {
    callable_params_ok(c.callable, c.params)
}

/// A component is initialized against a store when its resolved states exist
/// and match its declarations there.
pub open spec fn comp_initialized(c: CompView, s: StoreView) -> bool {
    &&& c.states matches Some(sts) && states_consistent(c.params, sts, s)
    &&& comp_wf(c)
}

/// The resolved states of an initialized component.
pub open spec fn comp_states(c: CompView) -> Seq<ParamState> {
    c.states.unwrap()
}

/// An initialized component is ready when every parameter validates.
pub open spec fn comp_ready(c: CompView, s: StoreView) -> bool {
    params_ready(comp_states(c), s)
}

/// The store after a successful invocation of the component.
pub open spec fn comp_apply(c: CompView, s: StoreView) -> StoreView {
    apply_callable_spec(c.callable, c.params, comp_states(c), s)
}

/// The slot `id` with its payload replaced and its type key kept.
pub open spec fn set_slot_payload(s: StoreView, id: int, payload: u64) -> StoreView {
    s.with_slots(
        s.slots.update(id, Some(ErasedValue { type_key: s.slot_value(id).type_key, payload })),
    )
}

/// The id cached in a resolved parameter state.
pub open spec fn state_id(st: ParamState) -> usize {
    match st {
        ParamState::ConfigId { id } => id,
        ParamState::ServiceId { id } => id,
        _ => 0,
    }
}

/// What invoking a callable does to the store, given the component's
/// parameter declarations and resolved states.
pub open spec fn apply_callable_spec(
    c: Callable,
    ps: Seq<ParamDecl>,
    sts: Seq<ParamState>,
    s: StoreView,
) -> StoreView {
    match c {
        Callable::Noop => s,
        Callable::SetConfig { index, payload } => set_slot_payload(
            s,
            state_id(sts[index as int]) as int,
            payload,
        ),
        Callable::AddToConfig { index, amount } => {
            let id = state_id(sts[index as int]) as int;
            set_slot_payload(
                s,
                id,
                vstd::wrapping::u64_specs::wrapping_add(s.slot_value(id).payload, amount),
            )
        },
        Callable::CopyConfig { src, dst } => {
            let sid = state_id(sts[src as int]) as int;
            let did = state_id(sts[dst as int]) as int;
            set_slot_payload(s, did, s.slot_value(sid).payload)
        },
        Callable::PublishProtocol { guid, type_key, payload } => s.with_protocols(
            s.protocols.insert(guid, (type_key, payload)),
        ),
    }
}

/// A [Component] implementation for a callable whose parameters all follow
/// the parameter capability protocol. Holds the callable, the parameter
/// state resolved once at initialization, and the component's metadata.
pub struct FunctionComponent {
    params: Vec<ParamDecl>,
    param_state: Option<Vec<ParamState>>,
    metadata: MetaData,
    callable: Callable,
}

impl View for FunctionComponent {
    type V = CompView;

    closed spec fn view(&self) -> CompView {
        CompView {
            name: self.metadata.spec_name(),
            params: self.params@,
            states: match self.param_state {
                Option::Some(v) => Option::Some(v@),
                Option::None => Option::None,
            },
            access: self.metadata.spec_access(),
            callable: self.callable,
        }
    }
}

impl FunctionComponent {
    /// Adapts a callable with its parameter list into a runnable component.
    /// Succeeds exactly when the callable fits the declared parameters.
    pub fn new(name: String, params: Vec<ParamDecl>, callable: Callable) -> (r: Option<
        FunctionComponent,
    >)
        ensures
            r is Some <==> callable_params_ok(callable, params@),
            r matches Some(c) ==> c@ == (CompView {
                name: name@,
                params: params@,
                states: None,
                access: AccessView::empty(),
                callable,
            }),
    {
        if !callable_params_check(&callable, &params) {
            return None;
        }
        Some(
            FunctionComponent {
                params,
                param_state: None,
                metadata: MetaData::new(name),
                callable,
            },
        )
    }

    /// Returns the metadata of the component.
    pub fn metadata(&self) -> (r: &MetaData)
        ensures
            r.spec_name() == self@.name,
            r.spec_access() == self@.access,
    {
        &self.metadata
    }

    /// One-time initialization of the component: resolves the parameter
    /// state, records the access set, and reports the fatal registration
    /// conflict if the parameter list conflicts with itself.
    pub fn initialize(&mut self, storage: &mut Storage) -> (r: Result<(), ConflictError>)
        requires
            old(storage).wf(),
            comp_wf(old(self)@),
        ensures
            final(storage).wf(),
            final(self)@.params == old(self)@.params,
            final(self)@.callable == old(self)@.callable,
            final(self)@.name == old(self)@.name,
            ({
                let (outcome, s_end) = init_params_from(
                    old(self)@.params,
                    0,
                    old(storage)@,
                    old(self)@.access,
                    Seq::empty(),
                );
                final(storage)@ == s_end && match r {
                    Ok(_) => outcome matches Ok(oa) && final(self)@.states == Some(oa.0)
                        && final(self)@.access == oa.1 && comp_initialized(
                        final(self)@,
                        final(storage)@,
                    ),
                    Err(e) => outcome matches Err(er) && er.0 == e.kind && er.1 == e.type_key
                        && e.name@ == old(self)@.name,
                }
            }),
    {
        let r = initialize_params(&self.params, storage, &mut self.metadata.access);
        match r {
            Ok(states) => {
                self.param_state = Some(states);
                Ok(())
            },
            Err((kind, type_key)) => Err(
                ConflictError { name: self.metadata.name.clone(), type_key, kind },
            ),
        }
    }

    /// Attempts to run the component: validates every parameter against the
    /// current store and, if all are retrievable, retrieves them and invokes
    /// the callable exactly once. Returns false, with no side effect at all,
    /// if some dependency is not yet available. The invocation holds the
    /// store exclusively for its whole duration: no other component's views
    /// are live at the same time.
    pub fn run(&mut self, storage: &mut Storage) -> (r: bool)
        requires
            old(storage).wf(),
            comp_initialized(old(self)@, old(storage)@),
        ensures
            final(storage).wf(),
            *final(self) == *old(self),
            r == comp_ready(old(self)@, old(storage)@),
            r ==> final(storage)@ == comp_apply(old(self)@, old(storage)@),
            !r ==> final(storage)@ == old(storage)@,
            store_extends(final(storage)@, old(storage)@),
    {
        proof {
            crate::storage::lemma_extends_refl(storage@);
        }
        let states = self.param_state.as_ref().unwrap();
        if !validate_params(states, storage) {
            return false;
        }
        let values = retrieve_params(&self.params, states, storage);
        let ghost s0 = storage@;
        let ghost sts = comp_states(self@);
        proof {
            assert(values@ == retrieve_all(self@.params, sts, s0));
        }
        match self.callable {
            Callable::Noop => {},
            Callable::SetConfig { index, payload } => {
                let cm = match values[index] {
                    ParamValue::ConfigMut(cm) => cm,
                    _ => {
                        proof {
                            assert(values@[index as int] == retrieve_one(
                                self@.params[index as int],
                                sts[index as int],
                                s0,
                            ));
                            assert(false);
                        }
                        crate::params::ConfigMut { id: 0, type_key: 0, payload: 0 }
                    },
                };
                proof {
                    lemma_write_back_ok(self@, s0, index as int);
                }
                storage.set_config_untyped(
                    cm.id,
                    ErasedValue { type_key: cm.type_key, payload },
                );
            },
            Callable::AddToConfig { index, amount } => {
                let cm = match values[index] {
                    ParamValue::ConfigMut(cm) => cm,
                    _ => {
                        proof {
                            assert(values@[index as int] == retrieve_one(
                                self@.params[index as int],
                                sts[index as int],
                                s0,
                            ));
                            assert(false);
                        }
                        crate::params::ConfigMut { id: 0, type_key: 0, payload: 0 }
                    },
                };
                proof {
                    lemma_write_back_ok(self@, s0, index as int);
                }
                storage.set_config_untyped(
                    cm.id,
                    ErasedValue { type_key: cm.type_key, payload: cm.payload.wrapping_add(amount) },
                );
            },
            Callable::CopyConfig { src, dst } => {
                let sv = match values[src] {
                    ParamValue::Config(cv) => cv,
                    _ => {
                        proof {
                            assert(values@[src as int] == retrieve_one(
                                self@.params[src as int],
                                sts[src as int],
                                s0,
                            ));
                            assert(false);
                        }
                        crate::params::Config { type_key: 0, payload: 0 }
                    },
                };
                let cm = match values[dst] {
                    ParamValue::ConfigMut(cm) => cm,
                    _ => {
                        proof {
                            assert(values@[dst as int] == retrieve_one(
                                self@.params[dst as int],
                                sts[dst as int],
                                s0,
                            ));
                            assert(false);
                        }
                        crate::params::ConfigMut { id: 0, type_key: 0, payload: 0 }
                    },
                };
                proof {
                    assert(values@[src as int] == retrieve_one(
                        self@.params[src as int],
                        sts[src as int],
                        s0,
                    ));
                    lemma_write_back_ok(self@, s0, dst as int);
                }
                storage.set_config_untyped(
                    cm.id,
                    ErasedValue { type_key: cm.type_key, payload: sv.payload },
                );
            },
            Callable::PublishProtocol { guid, type_key, payload } => {
                storage.add_protocol(guid, ErasedValue { type_key, payload });
            },
        }
        proof {
            lemma_apply_extends(self@.callable, self@.params, sts, s0);
        }
        true
    }
}

/// Replacing the payload of a populated slot keeps the store well formed:
/// the slot keeps its type key and its owner.
proof fn lemma_set_slot_payload_wf(s: StoreView, id: int, payload: u64)
    requires
        crate::storage::store_wf(s),
        s.slot_present(id),
    ensures
        crate::storage::store_wf(set_slot_payload(s, id, payload)),
{
    let s2 = set_slot_payload(s, id, payload);
    assert forall|i: int| #[trigger] crate::storage::sparse_present(s2.slots, i)
        implies crate::storage::slot_owned(s2, i) by {
        assert(crate::storage::sparse_present(s.slots, i));
        assert(crate::storage::slot_owned(s, i));
        if i == id {
            assert(s2.slots[i].unwrap().type_key == s.slots[i].unwrap().type_key);
        }
    }
}

/// A successful invocation only grows the store and keeps it well formed.
pub proof fn lemma_comp_apply_extends(c: CompView, s: StoreView)
    requires
        crate::storage::store_wf(s),
        comp_initialized(c, s),
    ensures
        store_extends(comp_apply(c, s), s),
        crate::storage::store_wf(comp_apply(c, s)),
{
    let sts = comp_states(c);
    lemma_apply_extends(c.callable, c.params, sts, s);
    match c.callable {
        Callable::Noop => {},
        Callable::PublishProtocol { .. } => {
            let s2 = comp_apply(c, s);
            assert forall|i: int| #[trigger] crate::storage::sparse_present(s2.slots, i)
                implies crate::storage::slot_owned(s2, i) by {
                assert(crate::storage::sparse_present(s.slots, i));
            }
        },
        Callable::SetConfig { index, .. } => {
            lemma_write_back_ok(c, s, index as int);
            assert forall|payload: u64|
                crate::storage::store_wf(
                    #[trigger] set_slot_payload(s, state_id(sts[index as int]) as int, payload),
                ) by {
                lemma_set_slot_payload_wf(s, state_id(sts[index as int]) as int, payload);
            }
        },
        Callable::AddToConfig { index, .. } => {
            lemma_write_back_ok(c, s, index as int);
            assert forall|payload: u64|
                crate::storage::store_wf(
                    #[trigger] set_slot_payload(s, state_id(sts[index as int]) as int, payload),
                ) by {
                lemma_set_slot_payload_wf(s, state_id(sts[index as int]) as int, payload);
            }
        },
        Callable::CopyConfig { src: _, dst } => {
            lemma_write_back_ok(c, s, dst as int);
            assert forall|payload: u64|
                crate::storage::store_wf(
                    #[trigger] set_slot_payload(s, state_id(sts[dst as int]) as int, payload),
                ) by {
                lemma_set_slot_payload_wf(s, state_id(sts[dst as int]) as int, payload);
            }
        },
    }
}

/// A `ConfigMut` parameter of an initialized component points at a populated
/// slot whose stored type key is the declared one, so writing the slot back
/// with the declared key preserves well-formedness and is exactly a payload
/// replacement.
proof fn lemma_write_back_ok(c: CompView, s: StoreView, index: int)
    requires
        crate::storage::store_wf(s),
        comp_initialized(c, s),
        0 <= index < c.params.len(),
        c.params[index] is ConfigMut,
    ensures
        ({
            let st = comp_states(c)[index];
            let id = state_id(st) as int;
            st == (ParamState::ConfigId { id: state_id(st) }) && s.slot_present(id)
                && s.slot_value(id).type_key == config_mut_key(c.params[index])
        }),
{
    let sts = comp_states(c);
    assert(states_consistent(c.params, sts, s));
    assert(crate::params::state_consistent(c.params[index], sts[index], s));
    let type_key = config_mut_key(c.params[index]);
    let st = sts[index];
    let id = state_id(st);
    lemma_slot_has_declared_key(s, type_key, id);
}

/// Every callable effect only grows the store: slot payloads change but
/// presence and type keys are kept, and protocols are only added.
proof fn lemma_apply_extends(c: Callable, ps: Seq<ParamDecl>, sts: Seq<ParamState>, s: StoreView)
    requires
        crate::storage::store_wf(s),
        states_consistent(ps, sts, s),
        callable_params_ok(c, ps),
    ensures
        store_extends(apply_callable_spec(c, ps, sts, s), s),
{
    let s2 = apply_callable_spec(c, ps, sts, s);
    match c {
        Callable::Noop => {},
        Callable::PublishProtocol { .. } => {},
        Callable::SetConfig { index, .. } => {
            lemma_payload_update_extends(ps, sts, s, index as int);
        },
        Callable::AddToConfig { index, .. } => {
            lemma_payload_update_extends(ps, sts, s, index as int);
        },
        Callable::CopyConfig { src: _, dst } => {
            lemma_payload_update_extends(ps, sts, s, dst as int);
        },
    }
}

/// Replacing the payload of the slot a writable config parameter points at
/// keeps every slot present and tagged as before.
proof fn lemma_payload_update_extends(
    ps: Seq<ParamDecl>,
    sts: Seq<ParamState>,
    s: StoreView,
    index: int,
)
    requires
        states_consistent(ps, sts, s),
        0 <= index < ps.len(),
        ps[index] is ConfigMut,
    ensures
        forall|payload: u64|
            store_extends(
                #[trigger] set_slot_payload(s, state_id(sts[index]) as int, payload),
                s,
            ),
{
    assert(crate::params::state_consistent(ps[index], sts[index], s));
    let id = state_id(sts[index]) as int;
    assert(s.slot_present(id));
    assert forall|payload: u64|
        store_extends(
            #[trigger] set_slot_payload(s, id, payload),
            s,
        ) by {
        let s2 = set_slot_payload(s, id, payload);
        assert forall|i: int| #[trigger] crate::storage::sparse_present(s.slots, i)
            implies crate::storage::sparse_present(s2.slots, i) && s2.slots[i].unwrap().type_key
            == s.slots[i].unwrap().type_key by {
            if i == id {
                assert(s2.slots[i] == Some(
                    ErasedValue { type_key: s.slot_value(id).type_key, payload },
                ));
            }
        }
    }
}

} // verus!
