//! A dependency-injection component scheduler: components declare, through
//! parameter descriptions, which shared configuration values and platform
//! protocols they need, and the manager repeatedly attempts to run each
//! component until its declared dependencies become satisfiable, to fixpoint.

use vstd::prelude::*;

pub mod access;
pub mod component;
pub mod laws;
pub mod params;
pub mod storage;

use crate::access::AccessView;
use crate::component::{
    comp_apply, comp_initialized, comp_ready, CompView, ConflictError, FunctionComponent,
};
use crate::params::{init_params_spec, lemma_consistent_under_extends, lemma_init_fold_extends};
use crate::storage::{
    register_spec, sparse_set, store_extends, ErasedValue, Storage, StoreView,
};

verus! {

/// The abstract states of a sequence of components.
pub open spec fn views_of(cs: Seq<FunctionComponent>) -> Seq<CompView> {
    cs.map_values(|c: FunctionComponent| c@)
}

/// Every component of the sequence is initialized against the store.
pub open spec fn comps_initialized(cs: Seq<CompView>, s: StoreView) -> bool {
    forall|i: int| 0 <= i < cs.len() ==> comp_initialized(#[trigger] cs[i], s)
}

/// Initialization of a set of components is preserved as the store grows.
pub proof fn lemma_comps_initialized_under_extends(
    cs: Seq<CompView>,
    s1: StoreView,
    s2: StoreView,
)
    requires
        comps_initialized(cs, s1),
        store_extends(s2, s1),
    ensures
        comps_initialized(cs, s2),
{
    assert forall|i: int| 0 <= i < cs.len() implies comp_initialized(#[trigger] cs[i], s2) by {
        assert(comp_initialized(cs[i], s1));
        let c = cs[i];
        lemma_consistent_under_extends(c.params, c.states.unwrap(), s1, s2);
    }
}

/// One scheduling pass: attempt every component in queue order against the
/// evolving store; a ready component runs and leaves the queue, the others
/// are kept in order. A side effect of an earlier component is visible to
/// every later component of the same pass.
pub open spec fn pass_spec(cs: Seq<CompView>, s: StoreView, kept: Seq<CompView>) -> (Seq<
    CompView,
>, StoreView)
    decreases cs.len(),
{
    if cs.len() == 0 {
        (kept, s)
    } else if comp_ready(cs[0], s) {
        pass_spec(cs.drop_first(), comp_apply(cs[0], s), kept)
    } else {
        pass_spec(cs.drop_first(), s, kept.push(cs[0]))
    }
}

/// A pass keeps at least the components it started with and completes at
/// most the components it attempts.
pub proof fn lemma_pass_len(cs: Seq<CompView>, s: StoreView, kept: Seq<CompView>)
    ensures
        kept.len() <= pass_spec(cs, s, kept).0.len() <= cs.len() + kept.len(),
    decreases cs.len(),
{
    if cs.len() == 0 {
    } else if comp_ready(cs[0], s) {
        lemma_pass_len(cs.drop_first(), comp_apply(cs[0], s), kept);
    } else {
        lemma_pass_len(cs.drop_first(), s, kept.push(cs[0]));
    }
}

/// A pass that completes nothing is a fixpoint: the queue and the store come
/// out unchanged, and every attempted component was not ready against the
/// store as it stood.
pub proof fn lemma_pass_fixpoint(cs: Seq<CompView>, s: StoreView, kept: Seq<CompView>)
    requires
        pass_spec(cs, s, kept).0.len() == cs.len() + kept.len(),
    ensures
        pass_spec(cs, s, kept).0 == kept + cs,
        pass_spec(cs, s, kept).1 == s,
        forall|i: int| 0 <= i < cs.len() ==> !comp_ready(#[trigger] cs[i], s),
    decreases cs.len(),
{
    if cs.len() == 0 {
        assert(kept + cs =~= kept);
    } else if comp_ready(cs[0], s) {
        lemma_pass_len(cs.drop_first(), comp_apply(cs[0], s), kept);
        assert(false);
    } else {
        lemma_pass_fixpoint(cs.drop_first(), s, kept.push(cs[0]));
        assert(kept.push(cs[0]) + cs.drop_first() =~= kept + cs);
        assert forall|i: int| 0 <= i < cs.len() implies !comp_ready(#[trigger] cs[i], s) by {
            if i > 0 {
                assert(cs.drop_first()[i - 1] == cs[i]);
                assert(!comp_ready(cs.drop_first()[i - 1], s));
            }
        }
    }
}

/// The fixpoint dispatch: run passes until one completes no component. The
/// fuel bounds the number of passes; one more than the number of components
/// always suffices, because every earlier pass removes at least one.
pub open spec fn run_spec(cs: Seq<CompView>, s: StoreView, fuel: nat) -> (Seq<CompView>, StoreView)
    decreases fuel,
{
    if fuel == 0 {
        (cs, s)
    } else {
        let (kept, s2) = pass_spec(cs, s, Seq::empty());
        if kept.len() == cs.len() {
            (cs, s)
        } else {
            run_spec(kept, s2, (fuel - 1) as nat)
        }
    }
}

/// A manager for components: owns the store and the ordered queue of
/// initialized component records, and runs passes to fixpoint.
pub struct ComponentManager {
    components: Vec<FunctionComponent>,
    storage: Storage,
}

impl ComponentManager {
    /// The abstract states of the still-queued components, in queue order.
    pub closed spec fn comps(self) -> Seq<CompView> {
        views_of(self.components@)
    }

    /// The abstract state of the store.
    pub closed spec fn store(self) -> StoreView {
        self.storage@
    }

    /// The store is well formed and every queued component is initialized
    /// against it.
    pub closed spec fn wf(self) -> bool {
        self.storage.wf() && comps_initialized(self.comps(), self.store())
    }

    /// Creates a new ComponentManager with an empty store and no components.
    pub fn new() -> (r: Self)
        ensures
            r.wf(),
            r.comps() == Seq::<CompView>::empty(),
            r.store().ids == Map::<u64, usize>::empty(),
            r.store().slots == Seq::<Option<ErasedValue>>::empty(),
            r.store().services == Seq::<Option<u64>>::empty(),
            r.store().protocols == Map::<u128, (u64, u64)>::empty(),
    {
        let r = ComponentManager { components: Vec::new(), storage: Storage::new() };
        proof {
            assert(r.comps() =~= Seq::<CompView>::empty());
        }
        r
    }

    /// Returns the number of still-queued components: those not yet run
    /// successfully. After `run`, this is the dispatch residue.
    pub fn component_count(&self) -> (r: usize)
        ensures
            r == self.comps().len(),
    {
        self.components.len()
    }

    /// Read access to the store, for inspecting configuration values and
    /// published protocols.
    pub fn storage(&self) -> (r: &Storage)
        ensures
            r@ == self.store(),
    {
        &self.storage
    }

    /// Adds a configuration value, overwriting any present value of the same
    /// type. Host configuration supplied this way takes the place of the
    /// type's default.
    pub fn add_config(&mut self, type_key: u64, payload: u64)
        requires
            old(self).wf(),
        ensures
            final(self).wf(),
            final(self).comps() == old(self).comps(),
            ({
                let (s1, id) = register_spec(old(self).store(), type_key);
                final(self).store() == s1.with_slots(
                    sparse_set(s1.slots, id as int, ErasedValue { type_key, payload }),
                )
            }),
    {
        self.storage.add_config(type_key, payload);
        proof {
            lemma_comps_initialized_under_extends(self.comps(), old(self).store(), self.store());
        }
    }

    /// Registers a service value under its type key. A component depending
    /// on the service only becomes ready once this was called.
    pub fn add_service(&mut self, type_key: u64, payload: u64)
        requires
            old(self).wf(),
        ensures
            final(self).wf(),
            final(self).comps() == old(self).comps(),
            ({
                let (s1, id) = register_spec(old(self).store(), type_key);
                final(self).store() == s1.with_services(
                    sparse_set(s1.services, id as int, payload),
                )
            }),
    {
        self.storage.add_service(type_key, payload);
        proof {
            lemma_comps_initialized_under_extends(self.comps(), old(self).store(), self.store());
        }
    }

    /// Adds a component to the manager: runs its one-time initialization
    /// against the live store and appends it to the tail of the queue. The
    /// registration conflict is fatal and synchronous: the component is not
    /// queued, and the error says which access pair on which type clashed.
    pub fn add_component(&mut self, component: FunctionComponent) -> (r: Result<
        (),
        ConflictError,
    >)
        requires
            old(self).wf(),
            crate::component::comp_wf(component@),
            component@.access == AccessView::empty(),
        ensures
            final(self).wf(),
            ({
                let (outcome, s_end) = init_params_spec(component@.params, old(self).store());
                final(self).store() == s_end && match r {
                    Ok(_) => outcome matches Ok(oa) && final(self).comps() == old(
                        self,
                    ).comps().push(
                        CompView {
                            name: component@.name,
                            params: component@.params,
                            states: Some(oa.0),
                            access: oa.1,
                            callable: component@.callable,
                        },
                    ),
                    Err(e) => outcome matches Err(er) && er.0 == e.kind && er.1 == e.type_key
                        && e.name@ == component@.name && final(self).comps() == old(self).comps(),
                }
            }),
    {
        let mut component = component;
        let ghost s0 = self.storage@;
        let r = component.initialize(&mut self.storage);
        proof {
            lemma_init_fold_extends(
                component@.params,
                0,
                s0,
                AccessView::empty(),
                Seq::empty(),
            );
            lemma_comps_initialized_under_extends(old(self).comps(), s0, self.storage@);
        }
        match r {
            Ok(_) => {
                let ghost pre = self.components@;
                self.components.push(component);
                proof {
                    assert(self.comps() =~= views_of(pre).push(component@));
                }
                Ok(())
            },
            Err(e) => Err(e),
        }
    }

    /// One pass: attempts every still-queued component in queue order,
    /// removing each whose attempt succeeds and keeping the rest in order.
    fn run_pass(&mut self)
        requires
            old(self).wf(),
        ensures
            final(self).wf(),
            (final(self).comps(), final(self).store()) == pass_spec(
                old(self).comps(),
                old(self).store(),
                Seq::empty(),
            ),
            final(self).comps().len() <= old(self).comps().len(),
            store_extends(final(self).store(), old(self).store()),
    {
        let mut kept: Vec<FunctionComponent> = Vec::new();
        let ghost cs0 = self.comps();
        let ghost s0 = self.store();
        proof {
            crate::storage::lemma_extends_refl(s0);
            assert(views_of(kept@) =~= Seq::<CompView>::empty());
        }
        while self.components.len() > 0
            invariant
                self.storage.wf(),
                comps_initialized(views_of(self.components@), self.storage@),
                comps_initialized(views_of(kept@), self.storage@),
                pass_spec(cs0, s0, Seq::empty()) == pass_spec(
                    views_of(self.components@),
                    self.storage@,
                    views_of(kept@),
                ),
                kept@.len() + self.components@.len() <= cs0.len(),
                store_extends(self.storage@, s0),
            decreases self.components@.len(),
        {
            let ghost pre = self.components@;
            let ghost spre = self.storage@;
            let ghost keptpre = kept@;
            let mut c = self.components.remove(0);
            proof {
                assert(views_of(pre)[0] == c@);
                assert(comp_initialized(c@, spre));
                assert(views_of(self.components@) =~= views_of(pre).drop_first());
            }
            let done = c.run(&mut self.storage);
            proof {
                lemma_comps_initialized_under_extends(
                    views_of(pre).drop_first(),
                    spre,
                    self.storage@,
                );
                lemma_comps_initialized_under_extends(views_of(keptpre), spre, self.storage@);
                crate::storage::lemma_extends_trans(self.storage@, spre, s0);
            }
            if !done {
                kept.push(c);
                proof {
                    assert(views_of(kept@) =~= views_of(keptpre).push(c@));
                    assert(comps_initialized(views_of(kept@), self.storage@));
                }
            }
        }
        proof {
            assert(views_of(self.components@) =~= Seq::<CompView>::empty());
        }
        self.components = kept;
    }

    /// Runs all components to fixpoint: passes are executed until one
    /// completes no component. Returns the number of productive passes,
    /// which is at most the number of components, since every productive
    /// pass removes at least one; the one unproductive pass that follows
    /// ends the dispatch. Components still queued at the end are exactly
    /// those whose dependencies never became satisfiable: they stay queued,
    /// observable through `component_count`, and are not errors.
    pub fn run_passes(&mut self) -> (passes: usize)
        requires
            old(self).wf(),
        ensures
            final(self).wf(),
            passes <= old(self).comps().len(),
            final(self).comps().len() <= old(self).comps().len(),
            (final(self).comps(), final(self).store()) == run_spec(
                old(self).comps(),
                old(self).store(),
                old(self).comps().len() + 1,
            ),
            forall|i: int|
                0 <= i < final(self).comps().len() ==> !comp_ready(
                    #[trigger] final(self).comps()[i],
                    final(self).store(),
                ),
    {
        let mut passes: usize = 0;
        let n_start = self.components.len();
        let ghost n0 = old(self).comps().len();
        proof {
            assert(n0 == n_start);
        }
        loop
            invariant
                self.wf(),
                n0 <= usize::MAX,
                self.comps().len() <= n0,
                passes <= n0 - self.comps().len(),
                run_spec(old(self).comps(), old(self).store(), (n0 + 1) as nat) == run_spec(
                    self.comps(),
                    self.store(),
                    (n0 + 1 - passes) as nat,
                ),
                n0 == old(self).comps().len(),
            ensures
                self.wf(),
                self.comps().len() <= n0,
                passes <= n0 - self.comps().len(),
                (self.comps(), self.store()) == run_spec(
                    old(self).comps(),
                    old(self).store(),
                    (n0 + 1) as nat,
                ),
                forall|i: int|
                    0 <= i < self.comps().len() ==> !comp_ready(
                        #[trigger] self.comps()[i],
                        self.store(),
                    ),
            decreases self.components@.len(),
        {
            let ghost cs_pre = self.comps();
            let ghost s_pre = self.store();
            let before = self.components.len();
            self.run_pass();
            if self.components.len() == before {
                proof {
                    lemma_pass_fixpoint(cs_pre, s_pre, Seq::empty());
                    assert(Seq::<CompView>::empty() + cs_pre =~= cs_pre);
                    assert((self.comps(), self.store()) == (cs_pre, s_pre));
                    // A pass of the remaining components changes nothing, so
                    // the dispatch spec stops here.
                    assert(run_spec(cs_pre, s_pre, (n0 + 1 - passes) as nat) == (cs_pre, s_pre));
                }
                break ;
            }
            proof {
                lemma_pass_len(cs_pre, s_pre, Seq::empty());
                assert(self.comps().len() < cs_pre.len());
            }
            passes = passes + 1;
        }
        passes
    }

    /// Runs all components in the manager, repeating passes to fixpoint.
    ///
    /// An invocation holds the store through the manager's own exclusive
    /// borrow, and invocations are strictly one at a time, so no two
    /// components' parameter views are ever live together.
    pub fn run(&mut self)
        requires
            old(self).wf(),
        ensures
            final(self).wf(),
            final(self).comps().len() <= old(self).comps().len(),
            (final(self).comps(), final(self).store()) == run_spec(
                old(self).comps(),
                old(self).store(),
                old(self).comps().len() + 1,
            ),
            forall|i: int|
                0 <= i < final(self).comps().len() ==> !comp_ready(
                    #[trigger] final(self).comps()[i],
                    final(self).store(),
                ),
    {
        let _ = self.run_passes();
    }
}

impl Default for ComponentManager {
    /// An empty manager, like `new`.
    fn default() -> (r: Self)
        ensures
            r.wf(),
            r.comps() == Seq::<CompView>::empty(),
            r.store().ids == Map::<u64, usize>::empty(),
            r.store().slots == Seq::<Option<ErasedValue>>::empty(),
            r.store().services == Seq::<Option<u64>>::empty(),
            r.store().protocols == Map::<u128, (u64, u64)>::empty(),
    {
        ComponentManager::new()
    }
}

} // verus!
