//! Per-component record of which resource ids are read, written, and whether
//! the whole store is claimed exclusively. Built once at registration and
//! consumed by the in-component conflict check.

use vstd::prelude::*;

verus! {

#[verifier::external_type_specification]
#[verifier::external_body]
pub struct ExFixedBitSet(fixedbitset::FixedBitSet);

/// The indices of the enabled bits of a bit set, as a mathematical set.
pub uninterp spec fn bitset_ones(b: fixedbitset::FixedBitSet) -> Set<usize>;

/// Relies on fixedbitset::FixedBitSet::new: the new bit set has no bit
/// enabled.
#[verifier::external_body]
fn bitset_new() -> (r: fixedbitset::FixedBitSet)
    ensures
        bitset_ones(r) == Set::<usize>::empty(),
{
    fixedbitset::FixedBitSet::new()
}

/// Relies on fixedbitset::FixedBitSet::grow_and_insert: grows the set so the
/// bit fits, then enables exactly that bit. Growing needs room for one bit
/// past the index, so the index stays below the address-space size.
#[verifier::external_body]
fn bitset_grow_and_insert(b: &mut fixedbitset::FixedBitSet, bit: usize)
    requires
        bit < usize::MAX,
    ensures
        bitset_ones(*final(b)) == bitset_ones(*old(b)).insert(bit),
{
    b.grow_and_insert(bit);
}

/// Relies on fixedbitset::FixedBitSet::contains: true exactly when the bit is
/// enabled; bits outside the capacity are disabled.
#[verifier::external_body]
fn bitset_contains(b: &fixedbitset::FixedBitSet, bit: usize) -> (r: bool)
    ensures
        r == bitset_ones(*b).contains(bit),
{
    b.contains(bit)
}

/// The abstract state of an [Access] record.
pub struct AccessView {
    pub writes: Set<usize>,
    pub reads_writes: Set<usize>,
    pub exclusive: bool,
}

impl AccessView {
    /// No access declared at all.
    pub open spec fn empty() -> AccessView {
        AccessView { writes: Set::empty(), reads_writes: Set::empty(), exclusive: false }
    }

    /// The record after declaring a read of resource `id`.
    pub open spec fn with_read(self, id: usize) -> AccessView {
        AccessView {
            writes: self.writes,
            reads_writes: self.reads_writes.insert(id),
            exclusive: self.exclusive,
        }
    }

    /// The record after declaring a write of resource `id`.
    pub open spec fn with_write(self, id: usize) -> AccessView {
        AccessView {
            writes: self.writes.insert(id),
            reads_writes: self.reads_writes.insert(id),
            exclusive: self.exclusive,
        }
    }

    /// The record after claiming the whole store.
    pub open spec fn with_exclusive(self) -> AccessView {
        AccessView { writes: self.writes, reads_writes: self.reads_writes, exclusive: true }
    }

    /// Declared writes are always declared reads-or-writes as well.
    pub open spec fn wf(self) -> bool {
        self.writes.subset_of(self.reads_writes)
    }
}

/// Access requirements for a component: the set of resource ids written, the
/// set of ids read or written, and whether the whole store is claimed.
pub struct Access {
    config_writes: fixedbitset::FixedBitSet,
    config_read_and_writes: fixedbitset::FixedBitSet,
    exclusive: bool,
}

impl View for Access {
    type V = AccessView;

    closed spec fn view(&self) -> AccessView {
        AccessView {
            writes: bitset_ones(self.config_writes),
            reads_writes: bitset_ones(self.config_read_and_writes),
            exclusive: self.exclusive,
        }
    }
}

impl Access {
    /// Creates an empty access record.
    pub fn new() -> (r: Self)
        ensures
            r@ == AccessView::empty(),
    {
        Access {
            config_writes: bitset_new(),
            config_read_and_writes: bitset_new(),
            exclusive: false,
        }
    }

    /// Registers a write access to a config resource.
    pub fn add_config_write(&mut self, id: usize)
        requires
            id < usize::MAX,
        ensures
            final(self)@ == old(self)@.with_write(id),
    {
        bitset_grow_and_insert(&mut self.config_writes, id);
        bitset_grow_and_insert(&mut self.config_read_and_writes, id);
    }

    /// Registers a read access to a config resource.
    pub fn add_config_read(&mut self, id: usize)
        requires
            id < usize::MAX,
        ensures
            final(self)@ == old(self)@.with_read(id),
    {
        bitset_grow_and_insert(&mut self.config_read_and_writes, id);
    }

    /// Returns true if the component needs mutable access to the config
    /// resource denoted by `id`.
    pub fn has_config_write(&self, id: usize) -> (r: bool)
        ensures
            r == self@.writes.contains(id),
    {
        bitset_contains(&self.config_writes, id)
    }

    /// Returns true if the component needs read or write access to the config
    /// resource denoted by `id`.
    pub fn has_config_read(&self, id: usize) -> (r: bool)
        ensures
            r == self@.reads_writes.contains(id),
    {
        bitset_contains(&self.config_read_and_writes, id)
    }

    /// Claims exclusive access to the whole store.
    pub fn set_exclusive(&mut self)
        ensures
            final(self)@ == old(self)@.with_exclusive(),
    {
        self.exclusive = true;
    }

    /// Returns true if the component claims the whole store.
    pub fn is_exclusive(&self) -> (r: bool)
        ensures
            r == self@.exclusive,
    {
        self.exclusive
    }
}

impl Default for Access {
    /// An empty access record, like `new`.
    fn default() -> (r: Self)
        ensures
            r@ == AccessView::empty(),
    {
        Access::new()
    }
}

} // verus!
