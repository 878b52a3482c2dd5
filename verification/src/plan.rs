//! Ordering rules of the scheduler: which systems must follow which, and the
//! earliest stage at which each system may run.

use vstd::prelude::*;
use crate::access::AccessSets;

verus! {

/// The phase a system belongs to.
#[derive(Clone, Copy, Debug, PartialEq, Eq, Structural)]
pub enum Phase {
    /// Runs once, before the first tick.
    Startup,
    /// Runs every tick.
    Update,
}

/// What the scheduler knows of a registered system.
pub struct SystemSpec {
    pub phase: Phase,
    pub access: AccessSets,
    /// The chain the system belongs to, if any. The members of a chain run
    /// strictly one after the other, in registration order.
    pub chain: Option<u32>,
    /// Whether a failure of this system is fatal.
    pub critical: bool,
}

/// Whether two systems belong to one chain.
pub open spec fn same_chain(a: Option<u32>, b: Option<u32>) -> bool {
    a.is_some() && a == b
}

/// Whether system `j` must not start before system `i` has completed: `i`
/// was registered first, in the same phase, and the two belong to one chain
/// or their access signatures conflict.
pub open spec fn ordered(systems: Seq<SystemSpec>, i: int, j: int) -> bool {
    &&& 0 <= i < j < systems.len()
    &&& systems[i].phase == systems[j].phase
    &&& (same_chain(systems[i].chain, systems[j].chain) || systems[i].access.conflicts(
        systems[j].access,
    ))
}

/// Whether two distinct systems may run at the same time: neither must wait
/// for the other.
pub open spec fn may_overlap(systems: Seq<SystemSpec>, i: int, j: int) -> bool {
    !ordered(systems, i, j) && !ordered(systems, j, i)
}

/// Whether registering a system with the given phase, access and chain is
/// refused because of system `i`: both write a common component type or
/// resource in the same phase and no chain orders them.
pub open spec fn clashes_with(
    systems: Seq<SystemSpec>,
    i: int,
    phase: Phase,
    access: AccessSets,
    chain: Option<u32>,
) -> bool {
    &&& 0 <= i < systems.len()
    &&& systems[i].phase == phase
    &&& systems[i].access.writes_overlap(access)
    &&& !same_chain(systems[i].chain, chain)
}

/// Whether a system with the given phase, access and chain can be registered.
pub open spec fn admissible(
    systems: Seq<SystemSpec>,
    phase: Phase,
    access: AccessSets,
    chain: Option<u32>,
) -> bool {
    forall|i: int| !clashes_with(systems, i, phase, access, chain)
}

/// The least stage that the systems before `n` allow system `j`: one more
/// than the stage of each of them that `j` must wait for.
pub open spec fn floor_below(systems: Seq<SystemSpec>, j: int, n: int) -> nat
    decreases j, 0int, n,
{
    if n <= 0 || n > j {
        0
    } else {
        let rest = floor_below(systems, j, n - 1);
        if ordered(systems, n - 1, j) && stage(systems, n - 1) + 1 > rest {
            stage(systems, n - 1) + 1
        } else {
            rest
        }
    }
}

/// The stage of system `j`: stage 0 if it waits for no system, else the
/// stage right after the latest system it must wait for. Systems of one
/// stage may run at the same time.
pub open spec fn stage(systems: Seq<SystemSpec>, j: int) -> nat
    decreases j, 1int, 0int,
{
    if j <= 0 {
        0
    } else {
        floor_below(systems, j, j)
    }
}

/// What `floor_below` computes: an upper bound that is attained.
pub proof fn lemma_floor_below(systems: Seq<SystemSpec>, j: int, n: int)
    requires
        0 <= n <= j,
    ensures
        floor_below(systems, j, n) <= n,
        forall|i: int|
            0 <= i < n && ordered(systems, i, j) ==> #[trigger] stage(systems, i) < floor_below(
                systems,
                j,
                n,
            ),
        floor_below(systems, j, n) == 0 || exists|i: int|
            0 <= i < n && ordered(systems, i, j) && #[trigger] stage(systems, i) + 1 == floor_below(
                systems,
                j,
                n,
            ),
    decreases j, n,
{
    if n > 0 {
        lemma_floor_below(systems, j, n - 1);
        lemma_stage_bound(systems, n - 1);
        let rest = floor_below(systems, j, n - 1);
        if ordered(systems, n - 1, j) && stage(systems, n - 1) + 1 > rest {
        } else if rest != 0 {
            let i = choose|i: int|
                0 <= i < n - 1 && ordered(systems, i, j) && #[trigger] stage(systems, i) + 1
                    == rest;
            assert(0 <= i < n && ordered(systems, i, j) && stage(systems, i) + 1 == floor_below(
                systems,
                j,
                n,
            ));
        }
    }
}

/// A system's stage never exceeds its registration index.
pub proof fn lemma_stage_bound(systems: Seq<SystemSpec>, j: int)
    requires
        0 <= j,
    ensures
        stage(systems, j) <= j,
    decreases j, 1int, 0int,
{
    if j > 0 {
        lemma_floor_below_bound(systems, j, j);
        assert(stage(systems, j) == floor_below(systems, j, j));
    }
}

/// The bound of `floor_below`, by itself.
pub proof fn lemma_floor_below_bound(systems: Seq<SystemSpec>, j: int, n: int)
    requires
        0 <= n <= j,
    ensures
        floor_below(systems, j, n) <= n,
    decreases j, 0int, n,
{
    if n > 0 {
        lemma_floor_below_bound(systems, j, n - 1);
        lemma_stage_bound(systems, n - 1);
    }
}

/// A system runs at the earliest stage that the systems it must wait for
/// allow: its stage lies after the stage of each of them, and it is delayed
/// beyond stage 0 only by a system that it must wait for and that runs in the
/// stage right before its own.
pub proof fn lemma_stage_is_least(systems: Seq<SystemSpec>, j: int)
    requires
        0 <= j < systems.len(),
    ensures
        forall|i: int| ordered(systems, i, j) ==> #[trigger] stage(systems, i) < stage(systems, j),
        stage(systems, j) == 0 || exists|i: int|
            ordered(systems, i, j) && #[trigger] stage(systems, i) + 1 == stage(systems, j),
{
    if j > 0 {
        lemma_floor_below(systems, j, j);
    }
}

/// Two systems of one chain never overlap: the one registered first
/// completes in an earlier stage than the other starts in.
pub proof fn lemma_chain_is_sequential(systems: Seq<SystemSpec>, a: int, b: int)
    requires
        0 <= a < b < systems.len(),
        systems[a].phase == systems[b].phase,
        same_chain(systems[a].chain, systems[b].chain),
    ensures
        ordered(systems, a, b),
        !may_overlap(systems, a, b),
        stage(systems, a) < stage(systems, b),
{
    lemma_stage_is_least(systems, b);
}

/// Two systems whose signatures conflict never overlap: they run in
/// registration order.
pub proof fn lemma_conflict_is_sequential(systems: Seq<SystemSpec>, a: int, b: int)
    requires
        0 <= a < b < systems.len(),
        systems[a].phase == systems[b].phase,
        systems[a].access.conflicts(systems[b].access),
    ensures
        !may_overlap(systems, a, b),
        stage(systems, a) < stage(systems, b),
{
    lemma_stage_is_least(systems, b);
}

/// Two systems whose signatures do not conflict and that share no chain may
/// overlap, and if neither has to wait for any other system, both run in
/// stage 0, side by side.
pub proof fn lemma_independent_systems_overlap(systems: Seq<SystemSpec>, a: int, b: int)
    requires
        0 <= a < b < systems.len(),
        !systems[a].access.conflicts(systems[b].access),
        !same_chain(systems[a].chain, systems[b].chain),
    ensures
        may_overlap(systems, a, b),
        (forall|i: int| !ordered(systems, i, a)) ==> stage(systems, a) == 0,
        (forall|i: int| !ordered(systems, i, b)) ==> stage(systems, b) == 0,
{
    lemma_stage_is_least(systems, a);
    lemma_stage_is_least(systems, b);
}

/// Systems that run side by side never conflict: two systems of one phase
/// that share a stage hold no conflicting access and belong to no common
/// chain.
pub proof fn lemma_same_stage_is_conflict_free(systems: Seq<SystemSpec>, a: int, b: int)
    requires
        0 <= a < b < systems.len(),
        systems[a].phase == systems[b].phase,
        stage(systems, a) == stage(systems, b),
    ensures
        !systems[a].access.conflicts(systems[b].access),
        !same_chain(systems[a].chain, systems[b].chain),
        may_overlap(systems, a, b),
{
    lemma_stage_is_least(systems, b);
    if ordered(systems, a, b) {
        assert(stage(systems, a) < stage(systems, b));
    }
}

/// Among admitted systems, two that write a common component type or
/// resource in one phase belong to one chain.
pub proof fn lemma_admitted_writers_are_chained(
    systems: Seq<SystemSpec>,
    phase: Phase,
    access: AccessSets,
    chain: Option<u32>,
    i: int,
)
    requires
        admissible(systems, phase, access, chain),
        0 <= i < systems.len(),
        systems[i].phase == phase,
        systems[i].access.writes_overlap(access),
    ensures
        same_chain(systems[i].chain, chain),
{
    assert(!clashes_with(systems, i, phase, access, chain));
}

/// The systems of `phase` among the first `n` that run in stage `b`, in
/// registration order.
pub open spec fn batch_of(systems: Seq<SystemSpec>, phase: Phase, b: nat, n: int) -> Seq<usize>
    decreases n,
{
    if n <= 0 {
        Seq::empty()
    } else if systems[n - 1].phase == phase && stage(systems, n - 1) == b {
        batch_of(systems, phase, b, n - 1).push((n - 1) as usize)
    } else {
        batch_of(systems, phase, b, n - 1)
    }
}

/// What a batch holds: the systems of its phase and stage, and only them,
/// each once, in registration order.
pub proof fn lemma_batch(systems: Seq<SystemSpec>, phase: Phase, b: nat, n: int)
    requires
        0 <= n <= systems.len() <= usize::MAX,
    ensures
        forall|k: int|
            0 <= k < batch_of(systems, phase, b, n).len() ==> {
                let i = #[trigger] batch_of(systems, phase, b, n)[k];
                i < n && systems[i as int].phase == phase && stage(systems, i as int) == b
            },
        forall|k: int, l: int|
            0 <= k < l < batch_of(systems, phase, b, n).len() ==> (#[trigger] batch_of(
                systems,
                phase,
                b,
                n,
            )[k]) < (#[trigger] batch_of(systems, phase, b, n)[l]),
        forall|i: int|
            0 <= i < n && (#[trigger] systems[i]).phase == phase && stage(systems, i) == b
                ==> batch_of(systems, phase, b, n).contains(i as usize),
    decreases n,
{
    if n > 0 {
        lemma_batch(systems, phase, b, n - 1);
        let rest = batch_of(systems, phase, b, n - 1);
        let all = batch_of(systems, phase, b, n);
        assert forall|k: int| 0 <= k < all.len() implies {
            let i = #[trigger] all[k];
            i < n && systems[i as int].phase == phase && stage(systems, i as int) == b
        } by {
            if k < rest.len() {
                assert(all[k] == rest[k]);
            }
        }
        assert forall|k: int, l: int| 0 <= k < l < all.len() implies (#[trigger] all[k]) < (
        #[trigger] all[l]) by {
            assert(all[k] == rest[k]);
            if l < rest.len() {
                assert(all[l] == rest[l]);
            }
        }
        assert forall|i: int|
            0 <= i < n && (#[trigger] systems[i]).phase == phase && stage(systems, i)
                == b implies all.contains(i as usize) by {
            if i < n - 1 {
                assert(rest.contains(i as usize));
                let k = choose|k: int| 0 <= k < rest.len() && rest[k] == i as usize;
                assert(all[k] == i as usize);
            } else {
                assert(all[all.len() - 1] == i as usize);
            }
        }
    }
}

/// The number of stages that the systems of `phase` among the first `n`
/// take up.
pub open spec fn depth(systems: Seq<SystemSpec>, phase: Phase, n: int) -> nat
    decreases n,
{
    if n <= 0 {
        0
    } else if systems[n - 1].phase == phase && stage(systems, n - 1) + 1 > depth(
        systems,
        phase,
        n - 1,
    ) {
        stage(systems, n - 1) + 1
    } else {
        depth(systems, phase, n - 1)
    }
}

/// Every system of a phase runs in a stage below the depth of the phase.
pub proof fn lemma_depth_bounds_stage(systems: Seq<SystemSpec>, phase: Phase, n: int, i: int)
    requires
        0 <= i < n <= systems.len(),
        systems[i].phase == phase,
    ensures
        stage(systems, i) < depth(systems, phase, n),
        depth(systems, phase, n) <= n,
    decreases n,
{
    lemma_depth_bound(systems, phase, n);
    if i < n - 1 {
        lemma_depth_bounds_stage(systems, phase, n - 1, i);
    }
}

/// A phase takes up no more stages than it has systems before `n`.
pub proof fn lemma_depth_bound(systems: Seq<SystemSpec>, phase: Phase, n: int)
    requires
        0 <= n,
    ensures
        depth(systems, phase, n) <= n,
    decreases n,
{
    if n > 0 {
        lemma_depth_bound(systems, phase, n - 1);
        lemma_stage_bound(systems, n - 1);
    }
}

/// No stage of a phase is idle: below the depth of the phase every stage
/// holds at least one system of the phase.
pub proof fn lemma_no_stage_is_idle(systems: Seq<SystemSpec>, phase: Phase, b: int)
    requires
        0 <= b < depth(systems, phase, systems.len() as int),
    ensures
        exists|i: int|
            0 <= i < systems.len() && systems[i].phase == phase && #[trigger] stage(systems, i) == b,
{
    let top = lemma_depth_is_attained(systems, phase, systems.len() as int);
    lemma_stages_are_contiguous(systems, top, b);
}

/// The depth of a phase is one more than the stage of one of its systems.
proof fn lemma_depth_is_attained(systems: Seq<SystemSpec>, phase: Phase, n: int) -> (i: int)
    requires
        0 <= n <= systems.len(),
        depth(systems, phase, n) > 0,
    ensures
        0 <= i < n,
        systems[i].phase == phase,
        stage(systems, i) + 1 == depth(systems, phase, n),
    decreases n,
{
    if systems[n - 1].phase == phase && stage(systems, n - 1) + 1 > depth(systems, phase, n - 1) {
        n - 1
    } else {
        lemma_depth_is_attained(systems, phase, n - 1)
    }
}

/// Below the stage of a system, every stage holds a system of its phase.
proof fn lemma_stages_are_contiguous(systems: Seq<SystemSpec>, j: int, b: int)
    requires
        0 <= j < systems.len(),
        0 <= b <= stage(systems, j),
    ensures
        exists|i: int|
            0 <= i < systems.len() && systems[i].phase == systems[j].phase && #[trigger] stage(
                systems,
                i,
            ) == b,
    decreases j,
{
    if b < stage(systems, j) {
        lemma_stage_is_least(systems, j);
        let i = choose|i: int|
            ordered(systems, i, j) && #[trigger] stage(systems, i) + 1 == stage(systems, j);
        lemma_stages_are_contiguous(systems, i, b);
    }
}

} // verus!
