//! The query engine: which entities an access signature selects, in which
//! order, and access to their components under the signature's grants.

use vstd::prelude::*;
use crate::access::{Access, AccessSets};
use crate::entity::{ComponentType, Entity};
use crate::state::WorldState;
use crate::state_lemmas::lemma_filter_no_duplicates;
use crate::world::World;

verus! {

/// Whether the signature selects `e`: the entity is live and carries a
/// component of every type that the signature reads, writes or filters on.
pub open spec fn selects<C>(s: WorldState<C>, a: AccessSets, e: Entity) -> bool {
    s.is_alive(e) && forall|k: ComponentType| a.requires_kind(k) ==> #[trigger] s.has(e, k)
}

/// The test a query applies to each entity of the creation order.
pub open spec fn selector<C>(s: WorldState<C>, a: AccessSets) -> spec_fn(Entity) -> bool {
    |e: Entity| selects(s, a, e)
}

/// The entities a signature selects, in creation order.
pub open spec fn selection<C>(s: WorldState<C>, a: AccessSets) -> Seq<Entity> {
    s.order.filter(selector(s, a))
}

/// Whether `x` stands somewhere before `y` in `s`.
pub open spec fn stands_before<A>(s: Seq<A>, x: A, y: A) -> bool {
    exists|p: int, q: int| 0 <= p < q < s.len() && s[p] == x && s[q] == y
}

/// Filtering keeps the relative order: two entries of the result stand in
/// the source in the same order.
pub proof fn lemma_filter_keeps_order<A>(s: Seq<A>, pred: spec_fn(A) -> bool, i: int, j: int)
    requires
        0 <= i < j < s.filter(pred).len(),
    ensures
        stands_before(s, s.filter(pred)[i], s.filter(pred)[j]),
    decreases s.len(),
{
    reveal(Seq::filter);
    let f = s.filter(pred);
    let rest = s.drop_last();
    let g = rest.filter(pred);
    if j < g.len() {
        lemma_filter_keeps_order(rest, pred, i, j);
        let (p, q) = choose|p: int, q: int|
            0 <= p < q < rest.len() && rest[p] == g[i] && rest[q] == g[j];
        assert(s[p] == f[i] && s[q] == f[j]);
    } else {
        assert(g.contains(g[i]));
        rest.lemma_filter_contains_rev(pred, g[i]);
        let p = choose|p: int| 0 <= p < rest.len() && rest[p] == g[i];
        let q = s.len() - 1;
        assert(s[p] == f[i] && s[q] == f[j]);
    }
}

/// What a query yields: every selected entity exactly once, nothing else,
/// and in the order in which the entities were created.
pub proof fn lemma_selection<C>(s: WorldState<C>, a: AccessSets, e: Entity)
    requires
        s.wf(),
    ensures
        selection(s, a).no_duplicates(),
        selection(s, a).contains(e) <==> selects(s, a, e),
        forall|i: int, j: int|
            0 <= i < j < selection(s, a).len() ==> #[trigger] stands_before(
                s.order,
                selection(s, a)[i],
                selection(s, a)[j],
            ),
{
    let pred = selector(s, a);
    lemma_filter_no_duplicates(s.order, pred);
    if selection(s, a).contains(e) {
        let i = choose|i: int| 0 <= i < selection(s, a).len() && selection(s, a)[i] == e;
        s.order.lemma_filter_pred(pred, i);
    }
    if selects(s, a, e) {
        let x = Entity { index: e.index, generation: s.slots[e.index as int].generation };
        assert(s.slots[e.index as int].alive);
        assert(s.order.contains(x));
        let p = choose|p: int| 0 <= p < s.order.len() && s.order[p] == x;
        assert(pred(s.order[p]));
        s.order.lemma_filter_contains(pred, p);
    }
    assert forall|i: int, j: int| 0 <= i < j < selection(s, a).len() implies #[trigger] stands_before(
        s.order,
        selection(s, a)[i],
        selection(s, a)[j],
    ) by {
        lemma_filter_keeps_order(s.order, pred, i, j);
    }
}

/// Two tests that agree on every entry of a sequence filter it alike.
pub proof fn lemma_filter_agrees<A>(s: Seq<A>, p: spec_fn(A) -> bool, q: spec_fn(A) -> bool)
    requires
        forall|i: int| 0 <= i < s.len() ==> p(#[trigger] s[i]) == q(s[i]),
    ensures
        s.filter(p) == s.filter(q),
    decreases s.len(),
{
    reveal(Seq::filter);
    if s.len() > 0 {
        let rest = s.drop_last();
        assert forall|i: int| 0 <= i < rest.len() implies p(#[trigger] rest[i]) == q(rest[i]) by {
            assert(rest[i] == s[i]);
        }
        lemma_filter_agrees(rest, p, q);
        assert(p(s[s.len() - 1]) == q(s[s.len() - 1]));
    }
}

/// Writing a component does not disturb a query: giving an entity a new
/// value for a component that it already has leaves every selection as it
/// was, so that a walk through a selection is not invalidated by writes.
pub proof fn lemma_write_keeps_selection<C>(
    s: WorldState<C>,
    a: AccessSets,
    e: Entity,
    kind: ComponentType,
    value: C,
)
    requires
        s.has(e, kind),
    ensures
        selection(s.attach(e, kind, value), a) == selection(s, a),
        s.attach(e, kind, value).order == s.order,
{
    let t = s.attach(e, kind, value);
    assert forall|x: Entity| selects(t, a, x) == selects(s, a, x) by {
        assert(t.is_alive(x) == s.is_alive(x));
        assert forall|k: ComponentType|
            #![trigger t.has(x, k)]
            #![trigger s.has(x, k)]
            t.has(x, k) == s.has(x, k) by {}
    }
    lemma_filter_agrees(s.order, selector(t, a), selector(s, a));
}

/// Recorded changes do not disturb a query either: nothing that a system
/// records while it runs is seen by any query before the boundary, because
/// recording leaves the world as it is.
pub proof fn lemma_recording_keeps_selection<C, R>(
    s: crate::context::ContextState<C, R>,
    change: crate::commands::Change<C>,
)
    ensures
        s.with_change(change).world == s.world,
        selection(s.with_change(change).world, s.granted) == selection(s.world, s.granted),
{
}

/// A world in which no entity is selected yields the empty sequence.
pub proof fn lemma_selection_empty<C>(s: WorldState<C>, a: AccessSets)
    requires
        forall|i: int| 0 <= i < s.order.len() ==> !selects(s, a, #[trigger] s.order[i]),
    ensures
        selection(s, a) == Seq::<Entity>::empty(),
{
    let pred = selector(s, a);
    if selection(s, a).len() > 0 {
        let x = selection(s, a)[0];
        s.order.lemma_filter_pred(pred, 0);
        assert(selection(s, a).contains(x));
        s.order.lemma_filter_contains_rev(pred, x);
    }
    assert(selection(s, a) =~= Seq::<Entity>::empty());
}

impl<C> World<C> {
    /// Whether `e` carries a component of every type in `kinds`.
    pub fn carries_all(&self, e: Entity, kinds: &Vec<ComponentType>) -> (b: bool)
        ensures
            b == forall|k: ComponentType| kinds@.to_set().contains(k) ==> #[trigger] self@.has(e, k),
    {
        let mut i: usize = 0;
        while i < kinds.len()
            invariant
                i <= kinds.len(),
                forall|j: int| 0 <= j < i ==> self@.has(e, kinds@[j]),
            decreases kinds.len() - i,
        {
            if !self.has(e, kinds[i]) {
                assert(kinds@.contains(kinds@[i as int]));
                assert(kinds@.to_set().contains(kinds@[i as int]));
                return false;
            }
            i += 1;
        }
        assert forall|k: ComponentType| kinds@.to_set().contains(k) implies #[trigger] self@.has(
            e,
            k,
        ) by {
            assert(kinds@.contains(k));
            let j = choose|j: int| 0 <= j < kinds@.len() && kinds@[j] == k;
            assert(self@.has(e, kinds@[j]));
        }
        true
    }

    /// Whether the signature selects `e`.
    pub fn selects(&self, access: &Access, e: Entity) -> (b: bool)
        ensures
            b == selects(self@, access@, e),
    {
        self.contains(e) && self.carries_all(e, &access.reads) && self.carries_all(
            e,
            &access.writes,
        ) && self.carries_all(e, &access.filters)
    }

    /// One step of a query: the position in the creation order of the first
    /// selected entity at or after position `from`, if there is one.
    pub fn next_selected(&self, access: &Access, from: usize) -> (found: Option<usize>)
        ensures
            match found {
                Some(p) => {
                    &&& from <= p < self@.order.len()
                    &&& selects(self@, access@, self@.order[p as int])
                    &&& forall|q: int| from <= q < p ==> !selects(self@, access@, #[trigger] self@.order[q])
                },
                None => forall|q: int|
                    from <= q < self@.order.len() ==> !selects(
                        self@,
                        access@,
                        #[trigger] self@.order[q],
                    ),
            },
    {
        let mut p: usize = from;
        while p < self.len()
            invariant
                from <= p,
                forall|q: int| from <= q < p ==> !selects(self@, access@, #[trigger] self@.order[q]),
            decreases self@.order.len() - p,
        {
            let e = self.entity_at(p).unwrap();
            if self.selects(access, e) {
                return Some(p);
            }
            p += 1;
        }
        None
    }

    /// The entities that the signature selects, in creation order.
    pub fn select(&self, access: &Access) -> (chosen: Vec<Entity>)
        ensures
            chosen@ == selection(self@, access@),
    {
        let ghost pred = selector(self@, access@);
        let mut chosen: Vec<Entity> = Vec::new();
        let mut i: usize = 0;
        proof {
            reveal(Seq::filter);
            assert(self@.order.take(0) =~= Seq::<Entity>::empty());
        }
        while i < self.len()
            invariant
                i <= self@.order.len(),
                pred == selector(self@, access@),
                chosen@ == self@.order.take(i as int).filter(pred),
            decreases self@.order.len() - i,
        {
            let e = self.entity_at(i).unwrap();
            proof {
                assert(self@.order.take(i + 1) =~= self@.order.take(i as int).push(e));
                self@.order.take(i as int).lemma_filter_push(e, pred);
            }
            if self.selects(access, e) {
                chosen.push(e);
            }
            i += 1;
        }
        assert(self@.order.take(i as int) =~= self@.order);
        chosen
    }

    /// Shared access under a signature: the component of type `kind` of `e`,
    /// if the signature grants reading that type and `e` has one.
    pub fn fetch(&self, access: &Access, e: Entity, kind: ComponentType) -> (found: Option<&C>)
        ensures
            found.is_some() == (access@.may_read(kind) && self@.has(e, kind)),
            found.is_some() ==> Some(*found.unwrap()) == self@.component(e, kind),
    {
        if access.may_read(kind) {
            self.get(e, kind)
        } else {
            None
        }
    }

    /// Exclusive access under a signature: the component of type `kind` of
    /// `e`, if the signature grants writing that type and `e` has one.
    pub fn fetch_mut(&mut self, access: &Access, e: Entity, kind: ComponentType) -> (found: Option<
        &mut C,
    >)
        requires
            old(self).wf(),
        ensures
            found.is_some() == (access@.may_write(kind) && old(self)@.has(e, kind)),
            found.is_some() ==> Some(*found.unwrap()) == old(self)@.component(e, kind),
            found.is_some() ==> final(self)@ == old(self)@.attach(e, kind, *final(found.unwrap())),
            found.is_none() ==> final(self)@ == old(self)@,
            final(self).wf(),
    {
        if access.may_write(kind) {
            self.get_mut(e, kind)
        } else {
            None
        }
    }
}

} // verus!
