//! Laws of the scheduler, proved once and for all: which components always
//! complete, what a declared dependency guarantees about the store, and that
//! conflicting declarations are always rejected.

use vstd::prelude::*;

use crate::access::AccessView;
use crate::component::{comp_ready, comp_states, CompView};
use crate::params::{
    config_default, config_key, init_param_spec, init_params_from, init_params_spec,
    lemma_init_param_extends, lemma_init_param_wf, param_ready, params_ready, ParamDecl,
    ParamState,
};
use crate::storage::{
    register_spec, sparse_present, store_wf, ErasedValue, StoreView,
};

verus! {

/// True if no resolved parameter state is presence-gated: no protocol and no
/// service dependency.
pub open spec fn states_unconditional(sts: Seq<ParamState>) -> bool {
    forall|i: int|
        0 <= i < sts.len() ==> !((#[trigger] sts[i]) is ProtocolGuid) && !(sts[i] is ServiceId)
}

/// A component without presence-gated parameters validates against every
/// store; in particular a component with no parameters at all does.
pub proof fn lemma_unconditional_ready(sts: Seq<ParamState>, s: StoreView)
    requires
        states_unconditional(sts),
    ensures
        params_ready(sts, s),
{
    assert forall|i: int| 0 <= i < sts.len() implies param_ready(#[trigger] sts[i], s) by {
        assert(!(sts[i] is ProtocolGuid) && !(sts[i] is ServiceId));
    }
}

/// A parameter list of whole-store and configuration parameters only — no
/// protocol, no service — resolves to unconditional states.
pub proof fn lemma_config_only_states_unconditional(
    ps: Seq<ParamDecl>,
    sts: Seq<ParamState>,
    s: StoreView,
)
    requires
        crate::params::states_consistent(ps, sts, s),
        forall|i: int|
            0 <= i < ps.len() ==> !((#[trigger] ps[i]) is Protocol) && !(ps[i] is Service),
    ensures
        states_unconditional(sts),
{
    assert forall|i: int|
        0 <= i < sts.len() implies !((#[trigger] sts[i]) is ProtocolGuid) && !(sts[i]
        is ServiceId) by {
        assert(crate::params::state_consistent(ps[i], sts[i], s));
    }
}

/// In one pass, every attempted component whose states are unconditional
/// completes: the pass can only keep components that wait on a protocol or a
/// service, beyond those it started with.
pub proof fn lemma_pass_completes_unconditional(
    cs: Seq<CompView>,
    s: StoreView,
    kept: Seq<CompView>,
)
    requires
        forall|i: int|
            0 <= i < kept.len() ==> !states_unconditional(comp_states(#[trigger] kept[i])),
    ensures
        forall|i: int|
            0 <= i < crate::pass_spec(cs, s, kept).0.len() ==> !states_unconditional(
                comp_states(#[trigger] crate::pass_spec(cs, s, kept).0[i]),
            ),
    decreases cs.len(),
{
    if cs.len() == 0 {
    } else if comp_ready(cs[0], s) {
        lemma_pass_completes_unconditional(
            cs.drop_first(),
            crate::component::comp_apply(cs[0], s),
            kept,
        );
        assert(crate::pass_spec(cs, s, kept) == crate::pass_spec(
            cs.drop_first(),
            crate::component::comp_apply(cs[0], s),
            kept,
        ));
    } else {
        if states_unconditional(comp_states(cs[0])) {
            lemma_unconditional_ready(comp_states(cs[0]), s);
            assert(false);
        }
        assert forall|i: int|
            0 <= i < kept.push(cs[0]).len() implies !states_unconditional(
            comp_states(#[trigger] kept.push(cs[0])[i]),
        ) by {
            if i < kept.len() {
                assert(!states_unconditional(comp_states(kept[i])));
            }
        }
        lemma_pass_completes_unconditional(cs.drop_first(), s, kept.push(cs[0]));
        assert(crate::pass_spec(cs, s, kept) == crate::pass_spec(
            cs.drop_first(),
            s,
            kept.push(cs[0]),
        ));
    }
}

/// After the dispatch reaches its fixpoint — every remaining component not
/// ready against the final store — every remaining component waits on a
/// protocol or a service. Zero-parameter components, and components whose
/// parameters are all configuration or whole-store views, never remain.
pub proof fn lemma_residue_is_gated(cs_end: Seq<CompView>, s_end: StoreView, i: int)
    requires
        forall|j: int| 0 <= j < cs_end.len() ==> !comp_ready(#[trigger] cs_end[j], s_end),
        0 <= i < cs_end.len(),
    ensures
        !states_unconditional(comp_states(cs_end[i])),
{
    if states_unconditional(comp_states(cs_end[i])) {
        lemma_unconditional_ready(comp_states(cs_end[i]), s_end);
        assert(comp_ready(cs_end[i], s_end));
    }
}

/// Readiness is monotone as the store grows: nothing a component waits for
/// is ever removed.
pub proof fn lemma_ready_under_extends(sts: Seq<ParamState>, s1: StoreView, s2: StoreView)
    requires
        params_ready(sts, s1),
        crate::storage::store_extends(s2, s1),
    ensures
        params_ready(sts, s2),
{
    assert forall|i: int| 0 <= i < sts.len() implies param_ready(#[trigger] sts[i], s2) by {
        assert(param_ready(sts[i], s1));
    }
}

/// A component that is ready when a pass begins always completes in that
/// pass: its protocol may have been published in an earlier pass, or by a
/// component positioned before it in this one — side effects within a pass
/// only add to the store, so readiness cannot be lost before its turn.
pub proof fn lemma_pass_completes_ready(
    cs: Seq<CompView>,
    scur: StoreView,
    kept: Seq<CompView>,
    s0: StoreView,
)
    requires
        crate::storage::store_wf(scur),
        crate::comps_initialized(cs, scur),
        crate::storage::store_extends(scur, s0),
        forall|i: int| 0 <= i < kept.len() ==> !comp_ready(#[trigger] kept[i], s0),
    ensures
        forall|i: int|
            0 <= i < crate::pass_spec(cs, scur, kept).0.len() ==> !comp_ready(
                #[trigger] crate::pass_spec(cs, scur, kept).0[i],
                s0,
            ),
    decreases cs.len(),
{
    if cs.len() == 0 {
    } else if comp_ready(cs[0], scur) {
        let s2 = crate::component::comp_apply(cs[0], scur);
        assert(crate::component::comp_initialized(cs[0], scur));
        crate::component::lemma_comp_apply_extends(cs[0], scur);
        crate::storage::lemma_extends_trans(s2, scur, s0);
        assert forall|i: int|
            0 <= i < cs.drop_first().len() implies crate::component::comp_initialized(
            #[trigger] cs.drop_first()[i],
            scur,
        ) by {
            assert(cs.drop_first()[i] == cs[i + 1]);
            assert(crate::component::comp_initialized(cs[i + 1], scur));
        }
        crate::lemma_comps_initialized_under_extends(cs.drop_first(), scur, s2);
        lemma_pass_completes_ready(cs.drop_first(), s2, kept, s0);
        assert(crate::pass_spec(cs, scur, kept) == crate::pass_spec(cs.drop_first(), s2, kept));
    } else {
        assert forall|i: int|
            0 <= i < cs.drop_first().len() implies crate::component::comp_initialized(
            #[trigger] cs.drop_first()[i],
            scur,
        ) by {
            assert(cs.drop_first()[i] == cs[i + 1]);
            assert(crate::component::comp_initialized(cs[i + 1], scur));
        }
        if comp_ready(cs[0], s0) {
            lemma_ready_under_extends(comp_states(cs[0]), s0, scur);
            assert(false);
        }
        assert forall|i: int|
            0 <= i < kept.push(cs[0]).len() implies !comp_ready(
            #[trigger] kept.push(cs[0])[i],
            s0,
        ) by {
            if i < kept.len() {
                assert(!comp_ready(kept[i], s0));
            }
        }
        lemma_pass_completes_ready(cs.drop_first(), scur, kept.push(cs[0]), s0);
        assert(crate::pass_spec(cs, scur, kept) == crate::pass_spec(
            cs.drop_first(),
            scur,
            kept.push(cs[0]),
        ));
    }
}

/// The access record built by initialization satisfies the tracker's
/// invariant: every declared write is also a declared read-or-write.
pub proof fn lemma_init_access_invariant(
    ps: Seq<ParamDecl>,
    t: int,
    s: StoreView,
    a: AccessView,
    sts: Seq<ParamState>,
)
    requires
        a.wf(),
    ensures
        ({
            let outcome = init_params_from(ps, t, s, a, sts).0;
            outcome matches Ok(oa) ==> oa.1.wf()
        }),
    decreases ps.len() - t,
{
    if 0 <= t < ps.len() {
        let (step, s1) = init_param_spec(ps[t], s, a);
        match step {
            Ok(oa) => {
                assert(oa.1.wf());
                lemma_init_access_invariant(ps, t + 1, s1, oa.1, sts.push(oa.0));
            },
            Err(_) => {},
        }
    }
}

/// Declaring a read or write dependency on a configuration type populates
/// its slot: with the value that was already present — an explicit
/// configuration supplied earlier stays — and otherwise with the type's
/// declared default.
pub proof fn lemma_config_default_or_explicit(p: ParamDecl, s: StoreView, a: AccessView)
    requires
        store_wf(s),
        s.ids.dom().len() < usize::MAX,
        p is Config || p is ConfigMut,
    ensures
        ({
            let s2 = init_param_spec(p, s, a).1;
            let key = config_key(p);
            s2.ids.dom().contains(key) && s2.slot_present(s2.ids[key] as int) && s2.slot_value(
                s2.ids[key] as int,
            ) == if s.ids.dom().contains(key) && s.slot_present(s.ids[key] as int) {
                s.slot_value(s.ids[key] as int)
            } else {
                ErasedValue { type_key: key, payload: config_default(p) }
            }
        }),
{
    let key = config_key(p);
    let (s1, id) = register_spec(s, key);
    crate::storage::lemma_register_wf(s, key);
    let value = ErasedValue { type_key: key, payload: config_default(p) };
    crate::storage::lemma_sparse_set(s1.slots, id as int, value);
    if !s.ids.dom().contains(key) {
        // A fresh id was never populated: every populated slot is owned by a
        // registered key, whose id lies below the fresh one.
        if sparse_present(s.slots, id as int) {
            assert(crate::storage::slot_owned(s, id as int));
            let k2 = s.slots[id as int].unwrap().type_key;
            assert(s.ids[k2] < s.ids.dom().len());
            assert(false);
        }
    }
}

/// Write accesses already recorded stay recorded through every later
/// initialization step, and a later read or write of the same resource is
/// then rejected.
proof fn lemma_write_pending_errs(
    ps: Seq<ParamDecl>,
    t: int,
    s: StoreView,
    a: AccessView,
    sts: Seq<ParamState>,
    j: int,
    k: u64,
)
    requires
        store_wf(s),
        0 <= t <= j < ps.len(),
        s.ids.dom().contains(k),
        a.writes.contains(s.ids[k]),
        (ps[j] is Config || ps[j] is ConfigMut) && config_key(ps[j]) == k,
    ensures
        init_params_from(ps, t, s, a, sts).0 is Err,
    decreases j - t,
{
    let (step, s1) = init_param_spec(ps[t], s, a);
    if t == j {
    } else {
        lemma_init_param_wf(ps[t], s, a);
        lemma_init_param_extends(ps[t], s, a);
        match step {
            Ok(oa) => {
                assert(s1.ids.dom().contains(k) && s1.ids[k] == s.ids[k]);
                assert(oa.1.writes.contains(s1.ids[k]));
                lemma_write_pending_errs(ps, t + 1, s1, oa.1, sts.push(oa.0), j, k);
            },
            Err(_) => {},
        }
    }
}

/// Read-or-write accesses already recorded stay recorded through every
/// later initialization step, and a later write of the same resource is
/// then rejected.
proof fn lemma_read_pending_errs(
    ps: Seq<ParamDecl>,
    t: int,
    s: StoreView,
    a: AccessView,
    sts: Seq<ParamState>,
    j: int,
    k: u64,
)
    requires
        store_wf(s),
        0 <= t <= j < ps.len(),
        s.ids.dom().contains(k),
        a.reads_writes.contains(s.ids[k]),
        ps[j] is ConfigMut && config_key(ps[j]) == k,
    ensures
        init_params_from(ps, t, s, a, sts).0 is Err,
    decreases j - t,
{
    let (step, s1) = init_param_spec(ps[t], s, a);
    if t == j {
    } else {
        lemma_init_param_wf(ps[t], s, a);
        lemma_init_param_extends(ps[t], s, a);
        match step {
            Ok(oa) => {
                assert(s1.ids.dom().contains(k) && s1.ids[k] == s.ids[k]);
                assert(oa.1.reads_writes.contains(s1.ids[k]));
                lemma_read_pending_errs(ps, t + 1, s1, oa.1, sts.push(oa.0), j, k);
            },
            Err(_) => {},
        }
    }
}

/// Two parameters of one component with conflicting access to the same
/// configuration type — write then write, write then read, or read then
/// write — always make initialization fail, whichever conflicting pair
/// appears and in whichever order.
pub proof fn lemma_conflict_always_detected(ps: Seq<ParamDecl>, s: StoreView, i: int, j: int)
    requires
        store_wf(s),
        s.ids.dom().len() + ps.len() <= usize::MAX,
        0 <= i < j < ps.len(),
        config_key(ps[i]) == config_key(ps[j]),
        (ps[i] is ConfigMut && (ps[j] is ConfigMut || ps[j] is Config)) || (ps[i] is Config
            && ps[j] is ConfigMut),
    ensures
        init_params_spec(ps, s).0 is Err,
{
    lemma_conflict_from(ps, 0, s, AccessView::empty(), Seq::empty(), i, j);
}

/// The induction behind `lemma_conflict_always_detected`: walking the fold
/// up to the first parameter of the conflicting pair.
proof fn lemma_conflict_from(
    ps: Seq<ParamDecl>,
    t: int,
    s: StoreView,
    a: AccessView,
    sts: Seq<ParamState>,
    i: int,
    j: int,
)
    requires
        store_wf(s),
        s.ids.dom().len() + (i - t) < usize::MAX,
        0 <= t <= i < j < ps.len(),
        config_key(ps[i]) == config_key(ps[j]),
        (ps[i] is ConfigMut && (ps[j] is ConfigMut || ps[j] is Config)) || (ps[i] is Config
            && ps[j] is ConfigMut),
    ensures
        init_params_from(ps, t, s, a, sts).0 is Err,
    decreases i - t,
{
    let (step, s1) = init_param_spec(ps[t], s, a);
    lemma_init_param_wf(ps[t], s, a);
    match step {
        Err(_) => {},
        Ok(oa) => {
            if t == i {
                let k = config_key(ps[i]);
                crate::storage::lemma_register_wf(s, k);
                let (sreg, id) = register_spec(s, k);
                assert(s1.ids.dom().contains(k) && s1.ids[k] == id);
                if ps[i] is ConfigMut {
                    assert(oa.1.writes.contains(id));
                    lemma_write_pending_errs(ps, t + 1, s1, oa.1, sts.push(oa.0), j, k);
                } else {
                    assert(oa.1.reads_writes.contains(id));
                    lemma_read_pending_errs(ps, t + 1, s1, oa.1, sts.push(oa.0), j, k);
                }
            } else {
                lemma_conflict_from(ps, t + 1, s1, oa.1, sts.push(oa.0), i, j);
            }
        },
    }
}

/// A component that declares only read access — every parameter a read-only
/// configuration view — never raises the registration conflict, against any
/// well-formed store. Several such components may therefore share the same
/// resource, and all of them initialize and run.
pub proof fn lemma_read_only_never_conflicts(ps: Seq<ParamDecl>, s: StoreView)
    requires
        store_wf(s),
        forall|i: int| 0 <= i < ps.len() ==> (#[trigger] ps[i]) is Config,
    ensures
        init_params_spec(ps, s).0 is Ok,
{
    lemma_read_only_from(ps, 0, s, AccessView::empty(), Seq::empty());
}

/// The induction behind `lemma_read_only_never_conflicts`: read-only
/// declarations never enter the write set, so the write check never fires.
proof fn lemma_read_only_from(
    ps: Seq<ParamDecl>,
    t: int,
    s: StoreView,
    a: AccessView,
    sts: Seq<ParamState>,
)
    requires
        store_wf(s),
        0 <= t,
        a.writes == Set::<usize>::empty(),
        forall|i: int| 0 <= i < ps.len() ==> (#[trigger] ps[i]) is Config,
    ensures
        init_params_from(ps, t, s, a, sts).0 is Ok,
    decreases ps.len() - t,
{
    if t < ps.len() {
        let (step, s1) = init_param_spec(ps[t], s, a);
        lemma_init_param_wf(ps[t], s, a);
        assert(ps[t] is Config);
        match step {
            Ok(oa) => {
                assert(oa.1.writes == a.writes);
                lemma_read_only_from(ps, t + 1, s1, oa.1, sts.push(oa.0));
            },
            Err(e) => {
                let (sreg, id) = register_spec(s, config_key(ps[t]));
                assert(a.writes.contains(id));
                assert(false);
            },
        }
    }
}

} // verus!
