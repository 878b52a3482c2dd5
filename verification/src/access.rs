//! Access signatures: which component types and resources a system reads and
//! writes, and when two signatures conflict.

use vstd::prelude::*;
use crate::entity::{ComponentType, ResourceType};

verus! {

/// The data a system declares to touch.
pub struct Access {
    /// Component types read.
    pub reads: Vec<ComponentType>,
    /// Component types written.
    pub writes: Vec<ComponentType>,
    /// Component types whose presence is required without reading them.
    pub filters: Vec<ComponentType>,
    /// Resources read.
    pub resource_reads: Vec<ResourceType>,
    /// Resources written.
    pub resource_writes: Vec<ResourceType>,
}

/// The mathematical content of an access signature.
pub struct AccessSets {
    pub reads: Set<ComponentType>,
    pub writes: Set<ComponentType>,
    pub filters: Set<ComponentType>,
    pub resource_reads: Set<ResourceType>,
    pub resource_writes: Set<ResourceType>,
}

impl AccessSets {
    /// The signature that touches nothing.
    pub open spec fn nothing() -> AccessSets {
        AccessSets {
            reads: Set::empty(),
            writes: Set::empty(),
            filters: Set::empty(),
            resource_reads: Set::empty(),
            resource_writes: Set::empty(),
        }
    }

    /// Whether a component of type `kind` may be read: it is declared as
    /// read or as written.
    pub open spec fn may_read(self, kind: ComponentType) -> bool {
        self.reads.contains(kind) || self.writes.contains(kind)
    }

    /// Whether a component of type `kind` may be written.
    pub open spec fn may_write(self, kind: ComponentType) -> bool {
        self.writes.contains(kind)
    }

    /// Whether an entity must carry a component of type `kind` to be selected.
    pub open spec fn requires_kind(self, kind: ComponentType) -> bool {
        self.reads.contains(kind) || self.writes.contains(kind) || self.filters.contains(kind)
    }

    /// Whether the resource of type `kind` may be read.
    pub open spec fn may_read_resource(self, kind: ResourceType) -> bool {
        self.resource_reads.contains(kind) || self.resource_writes.contains(kind)
    }

    /// Whether the resource of type `kind` may be written.
    pub open spec fn may_write_resource(self, kind: ResourceType) -> bool {
        self.resource_writes.contains(kind)
    }

    /// Whether both signatures write some common component type or resource.
    pub open spec fn writes_overlap(self, other: AccessSets) -> bool {
        meet(self.writes, other.writes) || meet(self.resource_writes, other.resource_writes)
    }

    /// Whether the signatures intersect with at least one write: one of them
    /// writes a component type or resource that the other reads or writes.
    /// Presence filters touch no data and never conflict.
    pub open spec fn conflicts(self, other: AccessSets) -> bool {
        ||| meet(self.writes, other.writes)
        ||| meet(self.writes, other.reads)
        ||| meet(self.reads, other.writes)
        ||| meet(self.resource_writes, other.resource_writes)
        ||| meet(self.resource_writes, other.resource_reads)
        ||| meet(self.resource_reads, other.resource_writes)
    }
}

/// Whether two sets have a common element.
pub open spec fn meet<T>(a: Set<T>, b: Set<T>) -> bool {
    exists|k: T| #[trigger] a.contains(k) && b.contains(k)
}

/// Having a common element does not depend on the order of the two sets.
pub proof fn lemma_meet_symmetric<T>(a: Set<T>, b: Set<T>)
    ensures
        meet(a, b) == meet(b, a),
{
    if meet(a, b) {
        let k = choose|k: T| #[trigger] a.contains(k) && b.contains(k);
        assert(b.contains(k) && a.contains(k));
    }
    if meet(b, a) {
        let k = choose|k: T| #[trigger] b.contains(k) && a.contains(k);
        assert(a.contains(k) && b.contains(k));
    }
}

/// Conflict is symmetric, and two signatures whose writes overlap conflict.
pub proof fn lemma_conflict_symmetric(a: AccessSets, b: AccessSets)
    ensures
        a.conflicts(b) == b.conflicts(a),
        a.writes_overlap(b) == b.writes_overlap(a),
        a.writes_overlap(b) ==> a.conflicts(b),
{
    lemma_meet_symmetric(a.writes, b.writes);
    lemma_meet_symmetric(a.writes, b.reads);
    lemma_meet_symmetric(a.reads, b.writes);
    lemma_meet_symmetric(a.resource_writes, b.resource_writes);
    lemma_meet_symmetric(a.resource_writes, b.resource_reads);
    lemma_meet_symmetric(a.resource_reads, b.resource_writes);
}

/// Whether `kind` occurs in `list`.
pub fn lists_component(list: &Vec<ComponentType>, kind: ComponentType) -> (b: bool)
    ensures
        b == list@.contains(kind),
{
    let mut i: usize = 0;
    while i < list.len()
        invariant
            i <= list.len(),
            forall|j: int| 0 <= j < i ==> list@[j] != kind,
        decreases list.len() - i,
    {
        if list[i] == kind {
            return true;
        }
        i += 1;
    }
    false
}

/// Whether `kind` occurs in `list`.
pub fn lists_resource(list: &Vec<ResourceType>, kind: ResourceType) -> (b: bool)
    ensures
        b == list@.contains(kind),
{
    let mut i: usize = 0;
    while i < list.len()
        invariant
            i <= list.len(),
            forall|j: int| 0 <= j < i ==> list@[j] != kind,
        decreases list.len() - i,
    {
        if list[i] == kind {
            return true;
        }
        i += 1;
    }
    false
}

/// Whether some component type occurs in both lists.
pub fn components_meet(a: &Vec<ComponentType>, b: &Vec<ComponentType>) -> (r: bool)
    ensures
        r == meet(a@.to_set(), b@.to_set()),
{
    let mut i: usize = 0;
    while i < a.len()
        invariant
            i <= a.len(),
            forall|j: int| 0 <= j < i ==> !b@.contains(a@[j]),
        decreases a.len() - i,
    {
        if lists_component(b, a[i]) {
            let ghost k = a@[i as int];
            assert(a@.contains(k));
            assert(a@.to_set().contains(k) && b@.to_set().contains(k));
            return true;
        }
        i += 1;
    }
    assert forall|k: ComponentType| #[trigger] a@.to_set().contains(k) implies !b@.to_set().contains(k) by {
        assert(a@.contains(k));
        let j = choose|j: int| 0 <= j < a@.len() && a@[j] == k;
        assert(!b@.contains(a@[j]));
    }
    false
}

/// Whether some resource type occurs in both lists.
pub fn resources_meet(a: &Vec<ResourceType>, b: &Vec<ResourceType>) -> (r: bool)
    ensures
        r == meet(a@.to_set(), b@.to_set()),
{
    let mut i: usize = 0;
    while i < a.len()
        invariant
            i <= a.len(),
            forall|j: int| 0 <= j < i ==> !b@.contains(a@[j]),
        decreases a.len() - i,
    {
        if lists_resource(b, a[i]) {
            let ghost k = a@[i as int];
            assert(a@.contains(k));
            assert(a@.to_set().contains(k) && b@.to_set().contains(k));
            return true;
        }
        i += 1;
    }
    assert forall|k: ResourceType| #[trigger] a@.to_set().contains(k) implies !b@.to_set().contains(k) by {
        assert(a@.contains(k));
        let j = choose|j: int| 0 <= j < a@.len() && a@[j] == k;
        assert(!b@.contains(a@[j]));
    }
    false
}

impl View for Access {
    type V = AccessSets;

    open spec fn view(&self) -> AccessSets {
        AccessSets {
            reads: self.reads@.to_set(),
            writes: self.writes@.to_set(),
            filters: self.filters@.to_set(),
            resource_reads: self.resource_reads@.to_set(),
            resource_writes: self.resource_writes@.to_set(),
        }
    }
}

impl Access {
    /// The signature that touches nothing.
    pub fn new() -> (access: Access)
        ensures
            access@ == AccessSets::nothing(),
    {
        let access = Access {
            reads: Vec::new(),
            writes: Vec::new(),
            filters: Vec::new(),
            resource_reads: Vec::new(),
            resource_writes: Vec::new(),
        };
        assert(access@.reads =~= Set::<ComponentType>::empty());
        assert(access@.writes =~= Set::<ComponentType>::empty());
        assert(access@.filters =~= Set::<ComponentType>::empty());
        assert(access@.resource_reads =~= Set::<ResourceType>::empty());
        assert(access@.resource_writes =~= Set::<ResourceType>::empty());
        access
    }

    /// A copy of the signature.
    pub fn duplicate(&self) -> (copy: Access)
        ensures
            copy@ == self@,
    {
        let copy = Access {
            reads: self.reads.clone(),
            writes: self.writes.clone(),
            filters: self.filters.clone(),
            resource_reads: self.resource_reads.clone(),
            resource_writes: self.resource_writes.clone(),
        };
        assert(copy.reads@ =~= self.reads@);
        assert(copy.writes@ =~= self.writes@);
        assert(copy.filters@ =~= self.filters@);
        assert(copy.resource_reads@ =~= self.resource_reads@);
        assert(copy.resource_writes@ =~= self.resource_writes@);
        copy
    }

    /// Whether a component of type `kind` may be read under this signature.
    pub fn may_read(&self, kind: ComponentType) -> (b: bool)
        ensures
            b == self@.may_read(kind),
    {
        lists_component(&self.reads, kind) || lists_component(&self.writes, kind)
    }

    /// Whether a component of type `kind` may be written under this signature.
    pub fn may_write(&self, kind: ComponentType) -> (b: bool)
        ensures
            b == self@.may_write(kind),
    {
        lists_component(&self.writes, kind)
    }

    /// Whether the resource of type `kind` may be read under this signature.
    pub fn may_read_resource(&self, kind: ResourceType) -> (b: bool)
        ensures
            b == self@.may_read_resource(kind),
    {
        lists_resource(&self.resource_reads, kind) || lists_resource(&self.resource_writes, kind)
    }

    /// Whether the resource of type `kind` may be written under this signature.
    pub fn may_write_resource(&self, kind: ResourceType) -> (b: bool)
        ensures
            b == self@.may_write_resource(kind),
    {
        lists_resource(&self.resource_writes, kind)
    }

    /// Whether both signatures write some common component type or resource.
    pub fn writes_overlap(&self, other: &Access) -> (b: bool)
        ensures
            b == self@.writes_overlap(other@),
    {
        components_meet(&self.writes, &other.writes) || resources_meet(
            &self.resource_writes,
            &other.resource_writes,
        )
    }

    /// Whether the signatures intersect with at least one write.
    pub fn conflicts(&self, other: &Access) -> (b: bool)
        ensures
            b == self@.conflicts(other@),
    {
        components_meet(&self.writes, &other.writes) || components_meet(&self.writes, &other.reads)
            || components_meet(&self.reads, &other.writes) || resources_meet(
            &self.resource_writes,
            &other.resource_writes,
        ) || resources_meet(&self.resource_writes, &other.resource_reads) || resources_meet(
            &self.resource_reads,
            &other.resource_writes,
        )
    }
}

} // verus!
