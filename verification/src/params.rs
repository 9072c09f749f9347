//! The parameter capability protocol: every parameter kind a component can
//! declare supports three operations, invoked in strict order over the
//! parameter's life: `initialize` once at registration, then `validate`
//! followed conditionally by `retrieve` on every scheduling attempt.

use vstd::prelude::*;

use crate::access::{Access, AccessView};
use crate::storage::{
    lemma_extends_refl, lemma_extends_trans, lemma_materialize_extends, lemma_register_extends,
    materialize_spec, register_spec, slot_owned, sparse_present, store_extends, store_wf,
    ErasedValue, Storage, StoreView,
};

verus! {

/// What one parameter of a component declares.
#[derive(Clone, Copy, PartialEq, Eq, Structural, Debug)]
pub enum ParamDecl {
    /// The whole store, read-only or mutable; claims exclusive access.
    StoreRef { mutable: bool },
    /// Read access to the configuration value of a type, identified by its
    /// type key; carries the type's default for auto-materialization.
    Config { type_key: u64, default_payload: u64 },
    /// Write access to the configuration value of a type.
    ConfigMut { type_key: u64, default_payload: u64 },
    /// A protocol published under a fixed 128-bit identity; presence-gated.
    Protocol { guid: u128 },
    /// A service value registered under a type key; presence-gated, no
    /// default.
    Service { type_key: u64 },
}

/// The persistent state a parameter resolves once, at registration, and
/// reuses on every later attempt.
#[derive(Clone, Copy, PartialEq, Eq, Structural, Debug)]
pub enum ParamState {
    /// Whole-store parameters need no resolved id.
    Exclusive,
    /// The dense resource id of a configuration type.
    ConfigId { id: usize },
    /// The fixed identity of a protocol.
    ProtocolGuid { guid: u128 },
    /// The dense id of a service type.
    ServiceId { id: usize },
}

/// A read-only view of a configuration value, as handed to a component.
#[derive(Clone, Copy, PartialEq, Eq, Structural, Debug)]
pub struct Config {
    pub type_key: u64,
    pub payload: u64,
}

/// A mutable view of a configuration value: the component updates `payload`
/// and the scheduler writes it back to the slot `id` after the invocation.
#[derive(Clone, Copy, PartialEq, Eq, Structural, Debug)]
pub struct ConfigMut {
    pub id: usize,
    pub type_key: u64,
    pub payload: u64,
}

/// A view of a published protocol value.
#[derive(Clone, Copy, PartialEq, Eq, Structural, Debug)]
pub struct Protocol {
    pub guid: u128,
    pub value: ErasedValue,
}

/// A view of a service value.
#[derive(Clone, Copy, PartialEq, Eq, Structural, Debug)]
pub struct Service {
    pub type_key: u64,
    pub payload: u64,
}

/// A retrieved parameter value, one per declared parameter.
#[derive(Clone, Copy, PartialEq, Eq, Structural, Debug)]
pub enum ParamValue {
    /// Whole-store access: the invocation itself holds the store exclusively.
    Store,
    Config(Config),
    ConfigMut(ConfigMut),
    Protocol(Protocol),
    Service(Service),
}

/// What a component's callable does with its retrieved parameter values when
/// it is invoked. A component's business logic is outside the scheduling
/// core; these directives cover the store effects a callable can have
/// through its declared parameters.
#[derive(Clone, Copy, PartialEq, Eq, Structural, Debug)]
pub enum Callable {
    /// Consumes its parameters without touching the store.
    Noop,
    /// Sets the writable config parameter at `index` to `payload`.
    SetConfig { index: usize, payload: u64 },
    /// Adds `amount` (wrapping) to the writable config parameter at `index`.
    AddToConfig { index: usize, amount: u64 },
    /// Copies the read-only config parameter at `src` into the writable
    /// config parameter at `dst`.
    CopyConfig { src: usize, dst: usize },
    /// Publishes a protocol value; needs a mutable whole-store parameter.
    PublishProtocol { guid: u128, type_key: u64, payload: u64 },
}

/// True if the parameter list claims the whole store mutably somewhere.
pub open spec fn has_store_mut(ps: Seq<ParamDecl>) -> bool {
    exists|i: int| 0 <= i < ps.len() && (#[trigger] ps[i]) == (ParamDecl::StoreRef { mutable: true })
}

/// A callable fits a parameter list when every position it names exists and
/// has the parameter kind the directive needs.
pub open spec fn callable_params_ok(c: Callable, ps: Seq<ParamDecl>) -> bool {
    match c {
        Callable::Noop => true,
        Callable::SetConfig { index, .. } => index < ps.len() && ps[index as int] is ConfigMut,
        Callable::AddToConfig { index, .. } => index < ps.len() && ps[index as int] is ConfigMut,
        Callable::CopyConfig { src, dst } => src < ps.len() && ps[src as int] is Config && dst
            < ps.len() && ps[dst as int] is ConfigMut,
        Callable::PublishProtocol { .. } => has_store_mut(ps),
    }
}

/// Runtime check that a callable fits a parameter list.
pub fn callable_params_check(c: &Callable, params: &Vec<ParamDecl>) -> (r: bool)
    ensures
        r == callable_params_ok(*c, params@),
{
    let c0 = *c;
    match c0 {
        Callable::Noop => true,
        Callable::SetConfig { index, payload: _ } => index < params.len() && matches!(
            params[index],
            ParamDecl::ConfigMut { .. },
        ),
        Callable::AddToConfig { index, amount: _ } => index < params.len() && matches!(
            params[index],
            ParamDecl::ConfigMut { .. },
        ),
        Callable::CopyConfig { src, dst } => src < params.len() && matches!(
            params[src],
            ParamDecl::Config { .. },
        ) && dst < params.len() && matches!(params[dst], ParamDecl::ConfigMut { .. }),
        Callable::PublishProtocol { guid: _, type_key: _, payload: _ } => {
            let mut i: usize = 0;
            while i < params.len()
                invariant
                    c0 == *c,
                    c0 is PublishProtocol,
                    i <= params.len(),
                    forall|j: int|
                        0 <= j < i ==> #[trigger] params@[j] != (ParamDecl::StoreRef {
                            mutable: true,
                        }),
                decreases params.len() - i,
            {
                match params[i] {
                    ParamDecl::StoreRef { mutable } => {
                        if mutable {
                            proof {
                                assert(has_store_mut(params@)) by {
                                    assert(params@[i as int] == (ParamDecl::StoreRef {
                                        mutable: true,
                                    }));
                                }
                                assert(callable_params_ok(*c, params@));
                            }
                            return true;
                        }
                    },
                    _ => {},
                }
                i = i + 1;
            }
            false
        },
    }
}

/// The type key a writable config parameter declares.
pub open spec fn config_mut_key(p: ParamDecl) -> u64 {
    match p {
        ParamDecl::ConfigMut { type_key, .. } => type_key,
        _ => 0,
    }
}

/// The type key a parameter declares, for the kinds that carry one.
pub open spec fn config_key(p: ParamDecl) -> u64 {
    match p {
        ParamDecl::Config { type_key, .. } => type_key,
        ParamDecl::ConfigMut { type_key, .. } => type_key,
        ParamDecl::Service { type_key } => type_key,
        _ => 0,
    }
}

/// The default payload a configuration parameter declares.
pub open spec fn config_default(p: ParamDecl) -> u64 {
    match p {
        ParamDecl::Config { default_payload, .. } => default_payload,
        ParamDecl::ConfigMut { default_payload, .. } => default_payload,
        _ => 0,
    }
}

/// The ways two parameters of one component can conflict on a resource.
#[derive(Clone, Copy, PartialEq, Eq, Structural, Debug)]
pub enum ConflictKind {
    /// A write declared earlier, a read declared now.
    WriteThenRead,
    /// A write declared earlier, another write declared now.
    WriteThenWrite,
    /// A read declared earlier, a write declared now.
    ReadThenWrite,
}

/// Materializing the default of a registered configuration type under its
/// own id. Registration always precedes this; the guard only states that.
pub open spec fn materialize_registered(
    s: StoreView,
    type_key: u64,
    id: usize,
    default_payload: u64,
) -> StoreView {
    if s.ids.dom().contains(type_key) && s.ids[type_key] == id {
        materialize_spec(s, id as int, ErasedValue { type_key, payload: default_payload })
    } else {
        s
    }
}

/// How initializing one parameter changes the store and the access record:
/// the outcome (resolved state and new access record, or a conflict) together
/// with the store after the step. Registration and default materialization
/// happen before the conflict check, mirroring the execution order.
pub open spec fn init_param_spec(p: ParamDecl, s: StoreView, a: AccessView) -> (Result<
    (ParamState, AccessView),
    (ConflictKind, u64),
>, StoreView) {
    match p {
        ParamDecl::StoreRef { .. } => (Ok((ParamState::Exclusive, a.with_exclusive())), s),
        ParamDecl::Config { type_key, default_payload } => {
            let (s1, id) = register_spec(s, type_key);
            let s2 = materialize_registered(s1, type_key, id, default_payload);
            if a.writes.contains(id) {
                (Err((ConflictKind::WriteThenRead, type_key)), s2)
            } else {
                (Ok((ParamState::ConfigId { id }, a.with_read(id))), s2)
            }
        },
        ParamDecl::ConfigMut { type_key, default_payload } => {
            let (s1, id) = register_spec(s, type_key);
            let s2 = materialize_registered(s1, type_key, id, default_payload);
            if a.writes.contains(id) {
                (Err((ConflictKind::WriteThenWrite, type_key)), s2)
            } else if a.reads_writes.contains(id) {
                (Err((ConflictKind::ReadThenWrite, type_key)), s2)
            } else {
                (Ok((ParamState::ConfigId { id }, a.with_write(id))), s2)
            }
        },
        ParamDecl::Protocol { guid } => (Ok((ParamState::ProtocolGuid { guid }, a)), s),
        ParamDecl::Service { type_key } => {
            let (s1, id) = register_spec(s, type_key);
            (Ok((ParamState::ServiceId { id }, a)), s1)
        },
    }
}

/// Folds `init_param_spec` over the parameters from position `i` on, in
/// declaration order; the first conflict stops the fold.
pub open spec fn init_params_from(
    ps: Seq<ParamDecl>,
    i: int,
    s: StoreView,
    a: AccessView,
    states: Seq<ParamState>,
) -> (Result<(Seq<ParamState>, AccessView), (ConflictKind, u64)>, StoreView)
    decreases ps.len() - i,
{
    if i < 0 || i >= ps.len() {
        (Ok((states, a)), s)
    } else {
        let (step, s1) = init_param_spec(ps[i], s, a);
        match step {
            Ok((st, a1)) => init_params_from(ps, i + 1, s1, a1, states.push(st)),
            Err(e) => (Err(e), s1),
        }
    }
}

/// The outcome of initializing a whole parameter list against a store,
/// starting from an empty access record.
pub open spec fn init_params_spec(ps: Seq<ParamDecl>, s: StoreView) -> (Result<
    (Seq<ParamState>, AccessView),
    (ConflictKind, u64),
>, StoreView) {
    init_params_from(ps, 0, s, AccessView::empty(), Seq::empty())
}

/// A resolved parameter state is valid exactly when its retrieval is
/// guaranteed to succeed: protocols and services must be present, everything
/// else is always retrievable.
pub open spec fn param_ready(st: ParamState, s: StoreView) -> bool {
    match st {
        ParamState::ProtocolGuid { guid } => s.protocols.dom().contains(guid),
        ParamState::ServiceId { id } => sparse_present(s.services, id as int),
        _ => true,
    }
}

/// A component is ready exactly when every one of its parameters is.
pub open spec fn params_ready(sts: Seq<ParamState>, s: StoreView) -> bool {
    forall|i: int| 0 <= i < sts.len() ==> param_ready(#[trigger] sts[i], s)
}

/// A resolved state matches its declaration against a store: the cached id is
/// the one the registry assigns to the declared type key, and a configuration
/// slot that was declared is populated.
pub open spec fn state_consistent(p: ParamDecl, st: ParamState, s: StoreView) -> bool {
    match p {
        ParamDecl::StoreRef { .. } => st is Exclusive,
        ParamDecl::Config { type_key, .. } => match st {
            ParamState::ConfigId { id } => s.ids.dom().contains(type_key) && s.ids[type_key] == id
                && s.slot_present(id as int),
            _ => false,
        },
        ParamDecl::ConfigMut { type_key, .. } => match st {
            ParamState::ConfigId { id } => s.ids.dom().contains(type_key) && s.ids[type_key] == id
                && s.slot_present(id as int),
            _ => false,
        },
        ParamDecl::Protocol { guid } => st == ParamState::ProtocolGuid { guid },
        ParamDecl::Service { type_key } => match st {
            ParamState::ServiceId { id } => s.ids.dom().contains(type_key) && s.ids[type_key]
                == id,
            _ => false,
        },
    }
}

/// All resolved states of a component match their declarations.
pub open spec fn states_consistent(ps: Seq<ParamDecl>, sts: Seq<ParamState>, s: StoreView) -> bool {
    sts.len() == ps.len() && forall|i: int|
        0 <= i < ps.len() ==> state_consistent(ps[i], #[trigger] sts[i], s)
}

/// Consistency of resolved states is preserved as the store grows.
pub proof fn lemma_consistent_under_extends(
    ps: Seq<ParamDecl>,
    sts: Seq<ParamState>,
    s1: StoreView,
    s2: StoreView,
)
    requires
        states_consistent(ps, sts, s1),
        store_extends(s2, s1),
    ensures
        states_consistent(ps, sts, s2),
{
    assert forall|i: int| 0 <= i < ps.len() implies state_consistent(
        ps[i],
        #[trigger] sts[i],
        s2,
    ) by {
        assert(state_consistent(ps[i], sts[i], s1));
    }
}

/// Initializing one parameter only grows the store.
pub proof fn lemma_init_param_extends(p: ParamDecl, s: StoreView, a: AccessView)
    ensures
        store_extends(init_param_spec(p, s, a).1, s),
{
    lemma_extends_refl(s);
    match p {
        ParamDecl::Config { type_key, default_payload } => {
            let (s1, id) = register_spec(s, type_key);
            lemma_register_extends(s, type_key);
            lemma_materialize_extends(
                s1,
                id as int,
                ErasedValue { type_key, payload: default_payload },
            );
            lemma_extends_trans(
                materialize_spec(s1, id as int, ErasedValue { type_key, payload: default_payload }),
                s1,
                s,
            );
        },
        ParamDecl::ConfigMut { type_key, default_payload } => {
            let (s1, id) = register_spec(s, type_key);
            lemma_register_extends(s, type_key);
            lemma_materialize_extends(
                s1,
                id as int,
                ErasedValue { type_key, payload: default_payload },
            );
            lemma_extends_trans(
                materialize_spec(s1, id as int, ErasedValue { type_key, payload: default_payload }),
                s1,
                s,
            );
        },
        ParamDecl::Service { type_key } => {
            lemma_register_extends(s, type_key);
        },
        _ => {},
    }
}

/// Initializing one parameter keeps the store well formed.
pub proof fn lemma_init_param_wf(p: ParamDecl, s: StoreView, a: AccessView)
    requires
        store_wf(s),
    ensures
        store_wf(init_param_spec(p, s, a).1),
        init_param_spec(p, s, a).1.ids.dom().len() <= s.ids.dom().len() + 1,
{
    match p {
        ParamDecl::Config { type_key, default_payload } => {
            let (s1, id) = register_spec(s, type_key);
            crate::storage::lemma_register_wf(s, type_key);
            if s1.ids.dom().contains(type_key) && s1.ids[type_key] == id {
                crate::storage::lemma_materialize_wf(
                    s1,
                    id,
                    ErasedValue { type_key, payload: default_payload },
                );
            }
        },
        ParamDecl::ConfigMut { type_key, default_payload } => {
            let (s1, id) = register_spec(s, type_key);
            crate::storage::lemma_register_wf(s, type_key);
            if s1.ids.dom().contains(type_key) && s1.ids[type_key] == id {
                crate::storage::lemma_materialize_wf(
                    s1,
                    id,
                    ErasedValue { type_key, payload: default_payload },
                );
            }
        },
        ParamDecl::Service { type_key } => {
            crate::storage::lemma_register_wf(s, type_key);
        },
        _ => {},
    }
}

/// Initializing a parameter list only grows the store, whether or not a
/// conflict stops it.
pub proof fn lemma_init_fold_extends(
    ps: Seq<ParamDecl>,
    i: int,
    s: StoreView,
    a: AccessView,
    states: Seq<ParamState>,
)
    ensures
        store_extends(init_params_from(ps, i, s, a, states).1, s),
    decreases ps.len() - i,
{
    lemma_extends_refl(s);
    if 0 <= i < ps.len() {
        let (step, s1) = init_param_spec(ps[i], s, a);
        lemma_init_param_extends(ps[i], s, a);
        match step {
            Ok(oa) => {
                lemma_init_fold_extends(ps, i + 1, s1, oa.1, states.push(oa.0));
                lemma_extends_trans(
                    init_params_from(ps, i + 1, s1, oa.1, states.push(oa.0)).1,
                    s1,
                    s,
                );
            },
            Err(_) => {},
        }
    }
}

/// One-time initialization of a component's parameter list: registers ids,
/// materializes defaults, records accesses in the component's access record,
/// and reports the first conflicting declaration, if any.
pub fn initialize_params(
    params: &Vec<ParamDecl>,
    storage: &mut Storage,
    access: &mut Access,
) -> (r: Result<Vec<ParamState>, (ConflictKind, u64)>)
    requires
        old(storage).wf(),
    ensures
        final(storage).wf(),
        ({
            let (outcome, s_end) = init_params_from(
                params@,
                0,
                old(storage)@,
                old(access)@,
                Seq::empty(),
            );
            final(storage)@ == s_end && match r {
                Ok(states) => outcome matches Ok(oa) && states@ == oa.0 && final(access)@ == oa.1
                    && states_consistent(params@, states@, final(storage)@),
                Err(e) => outcome == Result::<(Seq<ParamState>, AccessView), (ConflictKind, u64)>::Err(e),
            }
        }),
{
    let mut states: Vec<ParamState> = Vec::new();
    let mut i: usize = 0;
    while i < params.len()
        invariant
            storage.wf(),
            i <= params.len(),
            states@.len() == i,
            init_params_from(params@, 0, old(storage)@, old(access)@, Seq::empty())
                == init_params_from(params@, i as int, storage@, access@, states@),
            states_consistent(params@.take(i as int), states@, storage@),
        decreases params.len() - i,
    {
        let ghost s_i = storage@;
        let ghost a_i = access@;
        let ghost states_i = states@;
        let p = params[i];
        match p {
            ParamDecl::StoreRef { mutable: _ } => {
                access.set_exclusive();
                states.push(ParamState::Exclusive);
            },
            ParamDecl::Config { type_key, default_payload } => {
                let id = storage.register_config(type_key);
                let ghost s1 = storage@;
                storage.try_add_config(id, ErasedValue { type_key, payload: default_payload });
                if access.has_config_write(id) {
                    proof {
                        lemma_unfold_error(params@, i as int, s_i, a_i, states_i, storage@);
                    }
                    return Err((ConflictKind::WriteThenRead, type_key));
                }
                access.add_config_read(id);
                states.push(ParamState::ConfigId { id });
                proof {
                    lemma_register_extends(s_i, type_key);
                    lemma_materialize_extends(s1, id as int, ErasedValue { type_key, payload: default_payload });
                    lemma_extends_trans(storage@, s1, s_i);
                }
            },
            ParamDecl::ConfigMut { type_key, default_payload } => {
                let id = storage.register_config(type_key);
                let ghost s1 = storage@;
                storage.try_add_config(id, ErasedValue { type_key, payload: default_payload });
                if access.has_config_write(id) {
                    proof {
                        lemma_unfold_error(params@, i as int, s_i, a_i, states_i, storage@);
                    }
                    return Err((ConflictKind::WriteThenWrite, type_key));
                }
                if access.has_config_read(id) {
                    proof {
                        lemma_unfold_error(params@, i as int, s_i, a_i, states_i, storage@);
                    }
                    return Err((ConflictKind::ReadThenWrite, type_key));
                }
                access.add_config_write(id);
                states.push(ParamState::ConfigId { id });
                proof {
                    lemma_register_extends(s_i, type_key);
                    lemma_materialize_extends(s1, id as int, ErasedValue { type_key, payload: default_payload });
                    lemma_extends_trans(storage@, s1, s_i);
                }
            },
            ParamDecl::Protocol { guid } => {
                states.push(ParamState::ProtocolGuid { guid });
            },
            ParamDecl::Service { type_key } => {
                let id = storage.register_config(type_key);
                proof {
                    lemma_register_extends(s_i, type_key);
                }
                states.push(ParamState::ServiceId { id });
            },
        }
        proof {
            lemma_extends_refl(storage@);
            lemma_consistent_under_extends(
                params@.take(i as int),
                states_i,
                s_i,
                storage@,
            );
            assert(states@ == states_i.push(states@[i as int]));
            assert(params@.take(i as int + 1) == params@.take(i as int).push(params@[i as int]));
            assert forall|j: int| 0 <= j < i as int + 1 implies state_consistent(
                params@.take(i as int + 1)[j],
                #[trigger] states@[j],
                storage@,
            ) by {
                if j < i as int {
                    assert(state_consistent(params@.take(i as int)[j], states_i[j], storage@));
                    assert(states@[j] == states_i[j]);
                }
            }
        }
        i = i + 1;
    }
    proof {
        assert(params@.take(params@.len() as int) == params@);
    }
    Ok(states)
}

/// Helper for the early error returns of `initialize_params`: unfolding the
/// fold once at an erroring parameter.
proof fn lemma_unfold_error(
    ps: Seq<ParamDecl>,
    i: int,
    s: StoreView,
    a: AccessView,
    states: Seq<ParamState>,
    s2: StoreView,
)
    requires
        0 <= i < ps.len(),
        init_param_spec(ps[i], s, a).0 is Err,
        init_param_spec(ps[i], s, a).1 == s2,
    ensures
        init_params_from(ps, i, s, a, states) == (
            Result::<(Seq<ParamState>, AccessView), (ConflictKind, u64)>::Err(
                init_param_spec(ps[i], s, a).0->Err_0,
            ),
            s2,
        ),
{
}

/// A pure check that every resolved parameter is retrievable right now:
/// protocols must be published and services supplied; everything else is
/// always available.
pub fn validate_params(states: &Vec<ParamState>, storage: &Storage) -> (r: bool)
    ensures
        r == params_ready(states@, storage@),
{
    let mut i: usize = 0;
    while i < states.len()
        invariant
            i <= states.len(),
            forall|j: int| 0 <= j < i ==> param_ready(#[trigger] states@[j], storage@),
        decreases states.len() - i,
    {
        let ok = match states[i] {
            ParamState::ProtocolGuid { guid } => storage.contains_protocol(guid),
            ParamState::ServiceId { id } => storage.contains_service(id),
            _ => true,
        };
        if !ok {
            proof {
                assert(!param_ready(states@[i as int], storage@));
            }
            return false;
        }
        i = i + 1;
    }
    true
}

/// The value retrieved for one parameter from a store it is consistent with
/// and ready against.
pub open spec fn retrieve_one(p: ParamDecl, st: ParamState, s: StoreView) -> ParamValue {
    match p {
        ParamDecl::StoreRef { .. } => ParamValue::Store,
        ParamDecl::Config { type_key, .. } => match st {
            ParamState::ConfigId { id } => ParamValue::Config(
                Config { type_key, payload: s.slot_value(id as int).payload },
            ),
            _ => ParamValue::Store,
        },
        ParamDecl::ConfigMut { type_key, .. } => match st {
            ParamState::ConfigId { id } => ParamValue::ConfigMut(
                ConfigMut { id, type_key, payload: s.slot_value(id as int).payload },
            ),
            _ => ParamValue::Store,
        },
        ParamDecl::Protocol { guid } => ParamValue::Protocol(
            Protocol {
                guid,
                value: ErasedValue {
                    type_key: s.protocols[guid].0,
                    payload: s.protocols[guid].1,
                },
            },
        ),
        ParamDecl::Service { type_key } => match st {
            ParamState::ServiceId { id } => ParamValue::Service(
                Service { type_key, payload: s.services[id as int].unwrap() },
            ),
            _ => ParamValue::Store,
        },
    }
}

/// The values retrieved for a whole parameter list.
pub open spec fn retrieve_all(ps: Seq<ParamDecl>, sts: Seq<ParamState>, s: StoreView) -> Seq<
    ParamValue,
> {
    Seq::new(ps.len(), |i: int| retrieve_one(ps[i], sts[i], s))
}

/// Fetches every parameter value from the store. Validation must have
/// succeeded, so every fetch and every downcast is proven to succeed.
pub fn retrieve_params(
    params: &Vec<ParamDecl>,
    states: &Vec<ParamState>,
    storage: &Storage,
) -> (values: Vec<ParamValue>)
    requires
        storage.wf(),
        states_consistent(params@, states@, storage@),
        params_ready(states@, storage@),
    ensures
        values@ == retrieve_all(params@, states@, storage@),
{
    let mut values: Vec<ParamValue> = Vec::new();
    let mut i: usize = 0;
    while i < params.len()
        invariant
            storage.wf(),
            states_consistent(params@, states@, storage@),
            params_ready(states@, storage@),
            i <= params.len(),
            values@ == retrieve_all(params@, states@, storage@).take(i as int),
        decreases params.len() - i,
    {
        proof {
            assert(state_consistent(params@[i as int], states@[i as int], storage@));
            assert(param_ready(states@[i as int], storage@));
        }
        let p = params[i];
        let st = states[i];
        let value = match p {
            ParamDecl::StoreRef { mutable: _ } => ParamValue::Store,
            ParamDecl::Config { type_key, default_payload: _ } => {
                let id = match st {
                    ParamState::ConfigId { id } => id,
                    _ => {
                        proof {
                            assert(false);
                        }
                        0
                    },
                };
                proof {
                    lemma_slot_has_declared_key(storage@, type_key, id);
                }
                let slot = storage.get_config_untyped(id);
                ParamValue::Config(Config { type_key, payload: slot.downcast(type_key) })
            },
            ParamDecl::ConfigMut { type_key, default_payload: _ } => {
                let id = match st {
                    ParamState::ConfigId { id } => id,
                    _ => {
                        proof {
                            assert(false);
                        }
                        0
                    },
                };
                proof {
                    lemma_slot_has_declared_key(storage@, type_key, id);
                }
                let slot = storage.get_config_untyped(id);
                ParamValue::ConfigMut(ConfigMut { id, type_key, payload: slot.downcast(type_key) })
            },
            ParamDecl::Protocol { guid } => {
                let value = storage.get_protocol_untyped(guid);
                ParamValue::Protocol(Protocol { guid, value })
            },
            ParamDecl::Service { type_key } => {
                let id = match st {
                    ParamState::ServiceId { id } => id,
                    _ => {
                        proof {
                            assert(false);
                        }
                        0
                    },
                };
                ParamValue::Service(Service { type_key, payload: storage.get_service_untyped(id) })
            },
        };
        values.push(value);
        proof {
            assert(values@ == retrieve_all(params@, states@, storage@).take(i as int + 1));
        }
        i = i + 1;
    }
    proof {
        assert(retrieve_all(params@, states@, storage@).take(params@.len() as int)
            == retrieve_all(params@, states@, storage@));
    }
    values
}

/// A populated slot whose id the registry assigns to `type_key` is tagged
/// with `type_key` itself: the registry is injective and every populated slot
/// records its owner.
pub proof fn lemma_slot_has_declared_key(s: StoreView, type_key: u64, id: usize)
    requires
        store_wf(s),
        s.ids.dom().contains(type_key),
        s.ids[type_key] == id,
        s.slot_present(id as int),
    ensures
        s.slot_value(id as int).type_key == type_key,
{
    assert(sparse_present(s.slots, id as int));
    assert(slot_owned(s, id as int));
    let k = s.slots[id as int].unwrap().type_key;
    assert(s.ids.dom().contains(k) && s.ids[k] == id);
}

} // verus!
