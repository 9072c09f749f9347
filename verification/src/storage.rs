//! Type-erased slot storage for configuration values, GUID-keyed storage for
//! protocols, and the dense-id registry that ties a type key to its slot.

use vstd::prelude::*;

verus! {

/// A type-erased configuration or protocol value: the identity of the value's
/// original type, reduced to a small key, together with its payload word.
#[derive(Clone, Copy, PartialEq, Eq, Structural, Debug)]
pub struct ErasedValue {
    pub type_key: u64,
    pub payload: u64,
}

impl ErasedValue {
    /// Checked downcast back to the concrete type: the declared key must match
    /// the stored key. Callers discharge the check statically from the
    /// registration discipline, so the fatal mismatch is unreachable.
    pub fn downcast(&self, expected_key: u64) -> (r: u64)
        requires
            self.type_key == expected_key,
        ensures
            r == self.payload,
    {
        self.payload
    }
}

/// True if index `i` holds a value in the sparse sequence `s`.
pub open spec fn sparse_present<V>(s: Seq<Option<V>>, i: int) -> bool {
    0 <= i < s.len() && s[i] is Some
}

/// The sparse sequence `s` with `v` stored at index `i`, padding with empty
/// slots if `i` lies beyond the current length.
pub open spec fn sparse_set<V>(s: Seq<Option<V>>, i: int, v: V) -> Seq<Option<V>> {
    if i < s.len() {
        s.update(i, Some(v))
    } else {
        s + Seq::new((i - s.len()) as nat, |j: int| None::<V>) + seq![Some(v)]
    }
}

/// How `sparse_set` changes each index of the sequence.
pub proof fn lemma_sparse_set<V>(s: Seq<Option<V>>, i: int, v: V)
    requires
        0 <= i,
    ensures
        sparse_set(s, i, v).len() == if i < s.len() { s.len() as int } else { i + 1 },
        sparse_set(s, i, v)[i] == Some(v),
        forall|j: int|
            0 <= j < sparse_set(s, i, v).len() && j != i ==> sparse_set(s, i, v)[j] == (if j
                < s.len() {
                s[j]
            } else {
                None::<V>
            }),
{
}

/// A sparse vector that can store values at arbitrary indices.
pub struct SparseVec<V> {
    values: Vec<Option<V>>,
}

impl<V> View for SparseVec<V> {
    type V = Seq<Option<V>>;

    closed spec fn view(&self) -> Seq<Option<V>> {
        self.values@
    }
}

impl<V> SparseVec<V> {
    /// Creates a new empty [SparseVec].
    pub fn new() -> (r: Self)
        ensures
            r@ == Seq::<Option<V>>::empty(),
    {
        SparseVec { values: Vec::new() }
    }

    /// Returns true if the [SparseVec] contains a value at the given index.
    pub fn contains(&self, index: usize) -> (r: bool)
        ensures
            r == sparse_present(self@, index as int),
    {
        if index < self.values.len() {
            self.values[index].is_some()
        } else {
            false
        }
    }

    /// Returns the value at the given index, if it exists.
    pub fn get(&self, index: usize) -> (r: Option<&V>)
        ensures
            r is Some <==> sparse_present(self@, index as int),
            r matches Some(v) ==> self@[index as int] == Some(*v),
    {
        if index < self.values.len() {
            self.values[index].as_ref()
        } else {
            None
        }
    }

    /// Inserts a value at the given index, growing the vector as needed.
    pub fn insert(&mut self, index: usize, value: V)
        ensures
            final(self)@ == sparse_set(old(self)@, index as int, value),
    {
        if index < self.values.len() {
            self.values.set(index, Some(value));
        } else {
            while self.values.len() < index
                invariant
                    old(self)@.len() <= self.values@.len() <= index,
                    self.values@ == old(self)@ + Seq::new(
                        (self.values@.len() - old(self)@.len()) as nat,
                        |j: int| None::<V>,
                    ),
                decreases index - self.values.len(),
            {
                self.values.push(None);
                proof {
                    assert(self.values@ == old(self)@ + Seq::new(
                        (self.values@.len() - old(self)@.len()) as nat,
                        |j: int| None::<V>,
                    ));
                }
            }
            self.values.push(Some(value));
            proof {
                assert(self.values@ == sparse_set(old(self)@, index as int, value));
            }
        }
    }
}

/// Registry from a type key to the dense resource id assigned to it, backed by
/// a hash map of an outside crate.
#[verifier::external_body]
pub struct KeyIndexMap {
    inner: hashbrown::HashMap<u64, usize>,
}

/// The entries of a [KeyIndexMap], as a mathematical map.
pub uninterp spec fn key_index_entries(m: KeyIndexMap) -> Map<u64, usize>;

impl KeyIndexMap {
    /// Relies on hashbrown::HashMap::new: the new map holds no entries.
    #[verifier::external_body]
    pub fn new() -> (r: Self)
        ensures
            key_index_entries(r).is_empty() && key_index_entries(r).dom() == Set::<u64>::empty(),
    {
        KeyIndexMap { inner: hashbrown::HashMap::new() }
    }

    /// Relies on hashbrown::HashMap::get: returns the value stored under the
    /// key, or nothing if the key is absent.
    #[verifier::external_body]
    pub fn get(&self, key: u64) -> (r: Option<usize>)
        ensures
            r is Some <==> key_index_entries(*self).dom().contains(key),
            r matches Some(v) ==> key_index_entries(*self)[key] == v,
    {
        self.inner.get(&key).copied()
    }

    /// Relies on hashbrown::HashMap::insert: the entry for the key is set to
    /// the given value, replacing any previous entry for the same key.
    #[verifier::external_body]
    pub fn insert(&mut self, key: u64, value: usize)
        ensures
            key_index_entries(*final(self)) == key_index_entries(*old(self)).insert(key, value),
    {
        self.inner.insert(key, value);
    }

    /// Relies on hashbrown::HashMap::len: the number of entries in the map.
    /// Every entry occupies at least one byte of memory, so the count is
    /// strictly below the size of the address space.
    #[verifier::external_body]
    pub fn len(&self) -> (r: usize)
        ensures
            r == key_index_entries(*self).dom().len() && r < usize::MAX,
    {
        self.inner.len()
    }
}

/// GUID-keyed storage for published protocol values, backed by a hash map of
/// an outside crate. A protocol value is stored as its (type key, payload)
/// pair.
#[verifier::external_body]
pub struct ProtocolMap {
    inner: hashbrown::HashMap<u128, (u64, u64)>,
}

/// The entries of a [ProtocolMap], as a mathematical map.
pub uninterp spec fn protocol_entries(m: ProtocolMap) -> Map<u128, (u64, u64)>;

impl ProtocolMap {
    /// Relies on hashbrown::HashMap::new: the new map holds no entries.
    #[verifier::external_body]
    pub fn new() -> (r: Self)
        ensures
            protocol_entries(r).is_empty() && protocol_entries(r).dom() == Set::<u128>::empty(),
    {
        ProtocolMap { inner: hashbrown::HashMap::new() }
    }

    /// Relies on hashbrown::HashMap::contains_key: true exactly when the key
    /// has an entry.
    #[verifier::external_body]
    pub fn contains(&self, guid: u128) -> (r: bool)
        ensures
            r == protocol_entries(*self).dom().contains(guid),
    {
        self.inner.contains_key(&guid)
    }

    /// Relies on hashbrown::HashMap::get: returns the value stored under the
    /// key, or nothing if the key is absent.
    #[verifier::external_body]
    pub fn get(&self, guid: u128) -> (r: Option<(u64, u64)>)
        ensures
            r is Some <==> protocol_entries(*self).dom().contains(guid),
            r matches Some(v) ==> protocol_entries(*self)[guid] == v,
    {
        self.inner.get(&guid).copied()
    }

    /// Relies on hashbrown::HashMap::insert: the entry for the key is set to
    /// the given value, replacing any previous entry for the same key.
    #[verifier::external_body]
    pub fn insert(&mut self, guid: u128, value: (u64, u64))
        ensures
            protocol_entries(*final(self)) == protocol_entries(*old(self)).insert(guid, value),
    {
        self.inner.insert(guid, value);
    }
}

/// The abstract state of a [Storage]: the id registry, the configuration
/// slots, the service slots, and the protocol database.
pub struct StoreView {
    pub ids: Map<u64, usize>,
    pub slots: Seq<Option<ErasedValue>>,
    pub services: Seq<Option<u64>>,
    pub protocols: Map<u128, (u64, u64)>,
}

impl StoreView {
    pub open spec fn slot_present(self, id: int) -> bool {
        sparse_present(self.slots, id)
    }

    pub open spec fn slot_value(self, id: int) -> ErasedValue {
        self.slots[id].unwrap()
    }

    pub open spec fn with_slots(self, slots: Seq<Option<ErasedValue>>) -> StoreView {
        StoreView { ids: self.ids, slots, services: self.services, protocols: self.protocols }
    }

    pub open spec fn with_services(self, services: Seq<Option<u64>>) -> StoreView {
        StoreView { ids: self.ids, slots: self.slots, services, protocols: self.protocols }
    }

    pub open spec fn with_protocols(self, protocols: Map<u128, (u64, u64)>) -> StoreView {
        StoreView { ids: self.ids, slots: self.slots, services: self.services, protocols }
    }
}

/// A present configuration slot records the type key it was registered under.
pub open spec fn slot_owned(s: StoreView, i: int) -> bool {
    let k = s.slots[i].unwrap().type_key;
    s.ids.dom().contains(k) && s.ids[k] == i
}

/// Well-formedness of a store: the id registry is finite, dense and
/// injective, and every populated slot is tagged with the type key that the
/// registry maps to that slot.
pub open spec fn store_wf(s: StoreView) -> bool {
    &&& s.ids.dom().finite()
    &&& forall|k: u64| s.ids.dom().contains(k) ==> #[trigger] s.ids[k] < s.ids.dom().len()
    &&& forall|k1: u64, k2: u64|
        #![trigger s.ids[k1], s.ids[k2]]
        s.ids.dom().contains(k1) && s.ids.dom().contains(k2) && s.ids[k1] == s.ids[k2] ==> k1
            == k2
    &&& forall|i: int| #[trigger] sparse_present(s.slots, i) ==> slot_owned(s, i)
}

/// How registering a type key changes the store: an already known key leaves
/// the store unchanged and yields its existing id; a fresh key is assigned the
/// next unused dense id. A registry whose entry count has reached the
/// address-space size could not assign a fresh id; a real registry lives in
/// memory and never comes near that, so registration never fails.
pub open spec fn register_spec(s: StoreView, type_key: u64) -> (StoreView, usize) {
    if s.ids.dom().contains(type_key) {
        (s, s.ids[type_key])
    } else if s.ids.dom().len() < usize::MAX {
        let id = s.ids.dom().len() as usize;
        (
            StoreView {
                ids: s.ids.insert(type_key, id),
                slots: s.slots,
                services: s.services,
                protocols: s.protocols,
            },
            id,
        )
    } else {
        (s, 0)
    }
}

/// How materializing a default changes the store: an occupied slot is left
/// alone; an empty slot receives the value.
pub open spec fn materialize_spec(s: StoreView, id: int, value: ErasedValue) -> StoreView {
    if s.slot_present(id) {
        s
    } else {
        s.with_slots(sparse_set(s.slots, id, value))
    }
}

/// The store `s2` extends `s1`: registered ids are stable, populated
/// configuration slots stay populated with their type key, services stay
/// present, protocols stay published. Storage operations only grow the store
/// in this sense; nothing is ever removed.
pub open spec fn store_extends(s2: StoreView, s1: StoreView) -> bool {
    &&& forall|k: u64|
        #[trigger] s1.ids.dom().contains(k) ==> s2.ids.dom().contains(k) && s2.ids[k] == s1.ids[k]
    &&& forall|i: int|
        #[trigger] sparse_present(s1.slots, i) ==> sparse_present(s2.slots, i)
            && s2.slots[i].unwrap().type_key == s1.slots[i].unwrap().type_key
    &&& forall|i: int| #[trigger] sparse_present(s1.services, i) ==> sparse_present(s2.services, i)
    &&& forall|g: u128|
        #[trigger] s1.protocols.dom().contains(g) ==> s2.protocols.dom().contains(g)
}

pub proof fn lemma_extends_refl(s: StoreView)
    ensures
        store_extends(s, s),
{
}

pub proof fn lemma_extends_trans(s3: StoreView, s2: StoreView, s1: StoreView)
    requires
        store_extends(s3, s2),
        store_extends(s2, s1),
    ensures
        store_extends(s3, s1),
{
    assert forall|k: u64| s1.ids.dom().contains(k) implies s3.ids.dom().contains(k) && s3.ids[k]
        == s1.ids[k] by {
        assert(s2.ids.dom().contains(k) && s2.ids[k] == s1.ids[k]);
    }
    assert forall|i: int| #[trigger] sparse_present(s1.slots, i) implies sparse_present(
        s3.slots,
        i,
    ) && s3.slots[i].unwrap().type_key == s1.slots[i].unwrap().type_key by {
        assert(sparse_present(s2.slots, i));
    }
    assert forall|i: int| #[trigger] sparse_present(s1.services, i) implies sparse_present(
        s3.services,
        i,
    ) by {
        assert(sparse_present(s2.services, i));
    }
    assert forall|g: u128| s1.protocols.dom().contains(g) implies s3.protocols.dom().contains(
        g,
    ) by {
        assert(s2.protocols.dom().contains(g));
    }
}

/// Registering a type key only grows the store.
pub proof fn lemma_register_extends(s: StoreView, type_key: u64)
    ensures
        store_extends(register_spec(s, type_key).0, s),
{
}

/// Registering a type key keeps the store well formed; where the registry
/// has room, the key ends up registered under the returned id. It also grows
/// by at most one entry.
pub proof fn lemma_register_wf(s: StoreView, type_key: u64)
    requires
        store_wf(s),
    ensures
        store_wf(register_spec(s, type_key).0),
        s.ids.dom().contains(type_key) || s.ids.dom().len() < usize::MAX
            ==> register_spec(s, type_key).0.ids.dom().contains(type_key) && register_spec(
            s,
            type_key,
        ).0.ids[type_key] == register_spec(s, type_key).1,
        register_spec(s, type_key).0.ids.dom().len() <= s.ids.dom().len() + 1,
{
    if !s.ids.dom().contains(type_key) && s.ids.dom().len() < usize::MAX {
        let s1 = register_spec(s, type_key).0;
        vstd::set::axiom_set_insert_len(s.ids.dom(), type_key);
        assert(s1.ids.dom() =~= s.ids.dom().insert(type_key));
        assert(s1.ids.dom().len() == s.ids.dom().len() + 1);
        assert forall|k: u64| s1.ids.dom().contains(k) implies #[trigger] s1.ids[k]
            < s1.ids.dom().len() by {
            if k != type_key {
                assert(s.ids.dom().contains(k));
            }
        }
        assert forall|i: int| #[trigger] sparse_present(s1.slots, i) implies slot_owned(
            s1,
            i,
        ) by {
            assert(sparse_present(s.slots, i));
            let k = s.slots[i].unwrap().type_key;
            assert(s.ids.dom().contains(k) && s.ids[k] == i);
            assert(k != type_key);
        }
        assert(s1.ids.dom().finite());
        assert forall|k1: u64, k2: u64|
            #![trigger s1.ids[k1], s1.ids[k2]]
            s1.ids.dom().contains(k1) && s1.ids.dom().contains(k2) && s1.ids[k1] == s1.ids[k2]
                implies k1 == k2 by {
            if k1 != type_key && k2 != type_key {
                assert(s.ids.dom().contains(k1) && s.ids.dom().contains(k2));
            } else if k1 == type_key && k2 != type_key {
                assert(s.ids[k2] < s.ids.dom().len());
            } else if k1 != type_key && k2 == type_key {
                assert(s.ids[k1] < s.ids.dom().len());
            }
        }
    }
}

/// Materializing a default under the key's own id keeps the store well
/// formed.
pub proof fn lemma_materialize_wf(s: StoreView, id: usize, value: ErasedValue)
    requires
        store_wf(s),
        s.ids.dom().contains(value.type_key),
        s.ids[value.type_key] == id,
    ensures
        store_wf(materialize_spec(s, id as int, value)),
{
    if !s.slot_present(id as int) {
        let s1 = materialize_spec(s, id as int, value);
        lemma_sparse_set(s.slots, id as int, value);
        assert forall|i: int| #[trigger] sparse_present(s1.slots, i) implies slot_owned(
            s1,
            i,
        ) by {
            if i != id as int {
                assert(sparse_present(s.slots, i));
            }
        }
    }
}

/// Materializing a default only grows the store.
pub proof fn lemma_materialize_extends(s: StoreView, id: int, value: ErasedValue)
    requires
        0 <= id,
    ensures
        store_extends(materialize_spec(s, id, value), s),
{
    if !s.slot_present(id) {
        lemma_sparse_set(s.slots, id, value);
        let s2 = materialize_spec(s, id, value);
        assert forall|i: int| #[trigger] sparse_present(s.slots, i) implies sparse_present(
            s2.slots,
            i,
        ) && s2.slots[i].unwrap().type_key == s.slots[i].unwrap().type_key by {
            assert(i != id);
        }
    }
}

/// Type-erased storage for configuration values, service values and published
/// protocols, shared by all components of one manager.
pub struct Storage {
    configs: SparseVec<ErasedValue>,
    config_indices: KeyIndexMap,
    services: SparseVec<u64>,
    protocol_db: ProtocolMap,
}

impl View for Storage {
    type V = StoreView;

    closed spec fn view(&self) -> StoreView {
        StoreView {
            ids: key_index_entries(self.config_indices),
            slots: self.configs@,
            services: self.services@,
            protocols: protocol_entries(self.protocol_db),
        }
    }
}

impl Storage {
    pub open spec fn wf(self) -> bool {
        store_wf(self@)
    }

    /// Creates an empty storage.
    pub fn new() -> (r: Self)
        ensures
            r.wf(),
            r@.ids == Map::<u64, usize>::empty(),
            r@.slots == Seq::<Option<ErasedValue>>::empty(),
            r@.services == Seq::<Option<u64>>::empty(),
            r@.protocols == Map::<u128, (u64, u64)>::empty(),
    {
        let r = Storage {
            configs: SparseVec::new(),
            config_indices: KeyIndexMap::new(),
            services: SparseVec::new(),
            protocol_db: ProtocolMap::new(),
        };
        proof {
            assert(r@.ids.dom() =~= Set::<u64>::empty());
        }
        r
    }

    /// Returns the id already assigned to the given type key, or assigns the
    /// next unused id to it. Ids are dense, permanent and never reused.
    pub fn get_or_register_resource(&mut self, type_key: u64) -> (id: usize)
        requires
            old(self).wf(),
        ensures
            final(self).wf(),
            (final(self)@, id) == register_spec(old(self)@, type_key),
            id < usize::MAX,
            final(self)@.ids.dom().contains(type_key) && final(self)@.ids[type_key] == id,
            store_extends(final(self)@, old(self)@),
    {
        proof {
            lemma_register_extends(old(self)@, type_key);
        }
        let n = self.config_indices.len();
        match self.config_indices.get(type_key) {
            Some(id) => id,
            None => {
                self.config_indices.insert(type_key, n);
                proof {
                    let s0 = old(self)@;
                    let s1 = self@;
                    vstd::set::axiom_set_insert_len(s0.ids.dom(), type_key);
                    assert(s1.ids.dom() =~= s0.ids.dom().insert(type_key));
                    assert(s1.ids.dom().len() == s0.ids.dom().len() + 1);
                    assert forall|k: u64| s1.ids.dom().contains(k) implies #[trigger] s1.ids[k]
                        < s1.ids.dom().len() by {
                        if k != type_key {
                            assert(s0.ids.dom().contains(k));
                        }
                    }
                    assert forall|i: int| #[trigger] sparse_present(s1.slots, i) implies slot_owned(
                        s1,
                        i,
                    ) by {
                        assert(sparse_present(s0.slots, i));
                        let k = s0.slots[i].unwrap().type_key;
                        assert(s0.ids.dom().contains(k) && s0.ids[k] == i);
                        assert(k != type_key);
                    }
                }
                n
            },
        }
    }

    /// Returns the id for a configuration type key, assigning one if needed.
    pub fn register_config(&mut self, type_key: u64) -> (id: usize)
        requires
            old(self).wf(),
        ensures
            final(self).wf(),
            (final(self)@, id) == register_spec(old(self)@, type_key),
            id < usize::MAX,
            final(self)@.ids.dom().contains(type_key) && final(self)@.ids[type_key] == id,
            store_extends(final(self)@, old(self)@),
    {
        self.get_or_register_resource(type_key)
    }

    /// Adds a config value to the storage only if the slot is still empty, so
    /// that a type's default is installed at most once.
    pub fn try_add_config(&mut self, id: usize, value: ErasedValue)
        requires
            old(self).wf(),
            old(self)@.ids.dom().contains(value.type_key),
            old(self)@.ids[value.type_key] == id,
        ensures
            final(self).wf(),
            final(self)@ == materialize_spec(old(self)@, id as int, value),
            store_extends(final(self)@, old(self)@),
    {
        proof {
            lemma_materialize_extends(old(self)@, id as int, value);
        }
        if !self.configs.contains(id) {
            self.configs.insert(id, value);
            proof {
                let s0 = old(self)@;
                let s1 = self@;
                lemma_sparse_set(s0.slots, id as int, value);
                assert forall|i: int| #[trigger] sparse_present(s1.slots, i) implies slot_owned(
                    s1,
                    i,
                ) by {
                    if i != id as int {
                        assert(sparse_present(s0.slots, i));
                    }
                }
            }
        }
    }

    /// Adds a config value to the storage, overwriting any existing value for
    /// its type.
    pub fn add_config(&mut self, type_key: u64, payload: u64)
        requires
            old(self).wf(),
        ensures
            final(self).wf(),
            ({
                let (s1, id) = register_spec(old(self)@, type_key);
                final(self)@ == s1.with_slots(
                    sparse_set(s1.slots, id as int, ErasedValue { type_key, payload }),
                )
            }),
            store_extends(final(self)@, old(self)@),
    {
        let id = self.get_or_register_resource(type_key);
        let ghost s1 = self@;
        self.configs.insert(id, ErasedValue { type_key, payload });
        proof {
            lemma_sparse_set(s1.slots, id as int, ErasedValue { type_key, payload });
            let s2 = self@;
            assert forall|i: int| #[trigger] sparse_present(s2.slots, i) implies slot_owned(
                s2,
                i,
            ) by {
                if i != id as int {
                    assert(sparse_present(s1.slots, i));
                }
            }
            assert forall|i: int| #[trigger] sparse_present(s1.slots, i) implies sparse_present(
                s2.slots,
                i,
            ) && s2.slots[i].unwrap().type_key == s1.slots[i].unwrap().type_key by {
                if i == id as int {
                    assert(slot_owned(s1, i));
                    assert(s1.slots[i].unwrap().type_key == type_key);
                }
            }
            assert(store_extends(s2, s1));
            lemma_extends_trans(s2, s1, old(self)@);
        }
    }

    /// Retrieves a config value from the storage.
    pub fn get_config_untyped(&self, id: usize) -> (r: ErasedValue)
        requires
            self@.slot_present(id as int),
        ensures
            r == self@.slot_value(id as int),
    {
        *self.configs.get(id).unwrap()
    }

    /// Overwrites the value of an already populated config slot. The stored
    /// type key must be preserved.
    pub fn set_config_untyped(&mut self, id: usize, value: ErasedValue)
        requires
            old(self).wf(),
            old(self)@.slot_present(id as int),
            old(self)@.slot_value(id as int).type_key == value.type_key,
        ensures
            final(self).wf(),
            final(self)@ == old(self)@.with_slots(
                old(self)@.slots.update(id as int, Some(value)),
            ),
            store_extends(final(self)@, old(self)@),
    {
        self.configs.insert(id, value);
        proof {
            let s0 = old(self)@;
            let s1 = self@;
            lemma_sparse_set(s0.slots, id as int, value);
            assert(s1.slots =~= s0.slots.update(id as int, Some(value)));
            assert forall|i: int| #[trigger] sparse_present(s1.slots, i) implies slot_owned(
                s1,
                i,
            ) by {
                if i != id as int {
                    assert(sparse_present(s0.slots, i));
                } else {
                    assert(sparse_present(s0.slots, i));
                    assert(s0.slots[i].unwrap().type_key == value.type_key);
                }
            }
            assert forall|i: int| #[trigger] sparse_present(s0.slots, i) implies sparse_present(
                s1.slots,
                i,
            ) && s1.slots[i].unwrap().type_key == s0.slots[i].unwrap().type_key by {}
        }
    }

    /// Looks up the configuration value stored for a type key, without
    /// registering anything: the registered id's slot value, if both exist.
    pub fn lookup_config(&self, type_key: u64) -> (r: Option<ErasedValue>)
        ensures
            r is Some <==> (self@.ids.dom().contains(type_key) && self@.slot_present(
                self@.ids[type_key] as int,
            )),
            r matches Some(v) ==> v == self@.slot_value(self@.ids[type_key] as int),
    {
        match self.config_indices.get(type_key) {
            Some(id) => match self.configs.get(id) {
                Some(v) => Some(*v),
                None => None,
            },
            None => None,
        }
    }

    /// True if a protocol is published under the given identity.
    pub fn contains_protocol(&self, guid: u128) -> (r: bool)
        ensures
            r == self@.protocols.dom().contains(guid),
    {
        self.protocol_db.contains(guid)
    }

    /// Publishes a protocol value under the given identity, replacing any
    /// previous value.
    pub fn add_protocol(&mut self, guid: u128, value: ErasedValue)
        requires
            old(self).wf(),
        ensures
            final(self).wf(),
            final(self)@ == old(self)@.with_protocols(
                old(self)@.protocols.insert(guid, (value.type_key, value.payload)),
            ),
            store_extends(final(self)@, old(self)@),
    {
        self.protocol_db.insert(guid, (value.type_key, value.payload));
        proof {
            let s0 = old(self)@;
            let s1 = self@;
            assert(s1.slots == s0.slots && s1.ids == s0.ids);
            assert forall|i: int| #[trigger] sparse_present(s1.slots, i) implies slot_owned(
                s1,
                i,
            ) by {
                assert(sparse_present(s0.slots, i));
            }
        }
    }

    /// Retrieves a published protocol value.
    pub fn get_protocol_untyped(&self, guid: u128) -> (r: ErasedValue)
        requires
            self@.protocols.dom().contains(guid),
        ensures
            (r.type_key, r.payload) == self@.protocols[guid],
    {
        let (type_key, payload) = self.protocol_db.get(guid).unwrap();
        ErasedValue { type_key, payload }
    }

    /// Registers a service value under its type key. Services have no default:
    /// absence means the service was never supplied.
    pub fn add_service(&mut self, type_key: u64, payload: u64)
        requires
            old(self).wf(),
        ensures
            final(self).wf(),
            ({
                let (s1, id) = register_spec(old(self)@, type_key);
                final(self)@ == s1.with_services(sparse_set(s1.services, id as int, payload))
            }),
            store_extends(final(self)@, old(self)@),
    {
        let id = self.get_or_register_resource(type_key);
        let ghost s1 = self@;
        self.services.insert(id, payload);
        proof {
            let s2 = self@;
            assert(s2.slots == s1.slots && s2.ids == s1.ids);
            assert forall|i: int| #[trigger] sparse_present(s2.slots, i) implies slot_owned(
                s2,
                i,
            ) by {
                assert(sparse_present(s1.slots, i));
            }
            lemma_sparse_set(s1.services, id as int, payload);
            assert forall|i: int| #[trigger] sparse_present(s1.services, i)
                implies sparse_present(s2.services, i) by {
                if i != id as int {
                }
            }
            assert(store_extends(s2, s1));
            lemma_extends_trans(s2, s1, old(self)@);
        }
    }

    /// True if a service value is stored under the given id.
    pub fn contains_service(&self, id: usize) -> (r: bool)
        ensures
            r == sparse_present(self@.services, id as int),
    {
        self.services.contains(id)
    }

    /// Retrieves a service value.
    pub fn get_service_untyped(&self, id: usize) -> (r: u64)
        requires
            sparse_present(self@.services, id as int),
        ensures
            r == self@.services[id as int].unwrap(),
    {
        *self.services.get(id).unwrap()
    }
}

} // verus!
