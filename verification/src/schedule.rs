//! The scheduler: the roster of registered systems, their admission, the
//! stages in which they may run, and the life cycle of a run.

use vstd::prelude::*;
use crate::access::Access;
use crate::plan::{
    admissible,
    batch_of,
    clashes_with,
    depth,
    floor_below,
    lemma_depth_bound,
    lemma_stage_bound,
    ordered,
    same_chain,
    stage,
    Phase,
    SystemSpec,
};

verus! {

/// Where a run stands.
#[derive(Clone, Copy, Debug, PartialEq, Eq, Structural)]
pub enum Lifecycle {
    /// Systems and resources are being registered.
    Uninitialized,
    /// The startup systems run.
    StartupPhase,
    /// The update systems run, tick after tick.
    UpdateLoop,
    /// The run is over; no system runs any more.
    Terminated,
}

/// Two systems of one phase write a common component type or resource and
/// no chain orders them.
#[derive(Clone, Copy, Debug, PartialEq, Eq, Structural)]
pub struct AccessConflict;

struct Entry<S> {
    phase: Phase,
    access: Access,
    chain: Option<u32>,
    critical: bool,
    body: S,
}

impl<S> Entry<S> {
    spec fn spec(self) -> SystemSpec {
        SystemSpec {
            phase: self.phase,
            access: self.access@,
            chain: self.chain,
            critical: self.critical,
        }
    }
}

/// The registered systems and the state of the run.
pub struct Scheduler<S> {
    entries: Vec<Entry<S>>,
    lifecycle: Lifecycle,
    refused: bool,
    shutdown: bool,
}

/// Whether two systems belong to one chain.
pub fn chains_match(a: Option<u32>, b: Option<u32>) -> (r: bool)
    ensures
        r == same_chain(a, b),
{
    match (a, b) {
        (Some(x), Some(y)) => x == y,
        _ => false,
    }
}

impl<S> Scheduler<S> {
    /// The registered systems, in registration order.
    pub closed spec fn systems(&self) -> Seq<SystemSpec> {
        Seq::new(self.entries@.len(), |i: int| self.entries@[i].spec())
    }

    /// The bodies of the registered systems, in registration order.
    pub closed spec fn bodies(&self) -> Seq<S> {
        Seq::new(self.entries@.len(), |i: int| self.entries@[i].body)
    }

    /// The access signature with which system `i` was registered.
    pub closed spec fn declared(&self, i: int) -> Access {
        self.entries@[i].access
    }

    /// Where the run stands.
    pub closed spec fn lifecycle(&self) -> Lifecycle {
        self.lifecycle
    }

    /// Whether a registration was refused.
    pub closed spec fn refused(&self) -> bool {
        self.refused
    }

    /// Whether a shutdown was requested.
    pub closed spec fn shutdown_requested(&self) -> bool {
        self.shutdown
    }

    /// What the roster and the bodies have in common.
    pub proof fn lemma_declared(&self)
        ensures
            self.bodies().len() == self.systems().len(),
            forall|i: int|
                0 <= i < self.systems().len() ==> (#[trigger] self.declared(i))@
                    == self.systems()[i].access,
    {
    }

    /// A scheduler without systems, not yet launched.
    pub fn new() -> (scheduler: Scheduler<S>)
        ensures
            scheduler.systems() == Seq::<SystemSpec>::empty(),
            scheduler.bodies() == Seq::<S>::empty(),
            scheduler.lifecycle() == Lifecycle::Uninitialized,
            !scheduler.refused(),
            !scheduler.shutdown_requested(),
    {
        let scheduler = Scheduler {
            entries: Vec::new(),
            lifecycle: Lifecycle::Uninitialized,
            refused: false,
            shutdown: false,
        };
        assert(scheduler.systems() =~= Seq::<SystemSpec>::empty());
        assert(scheduler.bodies() =~= Seq::<S>::empty());
        scheduler
    }

    /// The number of registered systems.
    pub fn len(&self) -> (n: usize)
        ensures
            n == self.systems().len(),
    {
        self.entries.len()
    }

    /// Where the run stands.
    pub fn state(&self) -> (l: Lifecycle)
        ensures
            l == self.lifecycle(),
    {
        self.lifecycle
    }

    /// Whether a registration was refused.
    pub fn is_refused(&self) -> (b: bool)
        ensures
            b == self.refused(),
    {
        self.refused
    }

    /// Registers a system and returns its registration index. The
    /// registration is refused, and remembered as refused, if an earlier
    /// system of the same phase writes a component type or resource that the
    /// new one writes too, unless both belong to one chain.
    pub fn register_system(&mut self, phase: Phase, access: Access, body: S, chain: Option<u32>) -> (r:
        Result<usize, AccessConflict>)
        ensures
            final(self).lifecycle() == old(self).lifecycle(),
            final(self).shutdown_requested() == old(self).shutdown_requested(),
            admissible(old(self).systems(), phase, access@, chain) ==> {
                &&& r == Ok::<usize, AccessConflict>(old(self).systems().len() as usize)
                &&& final(self).systems() == old(self).systems().push(
                    SystemSpec { phase, access: access@, chain, critical: false },
                )
                &&& final(self).bodies() == old(self).bodies().push(body)
                &&& final(self).refused() == old(self).refused()
            },
            !admissible(old(self).systems(), phase, access@, chain) ==> {
                &&& r == Err::<usize, AccessConflict>(AccessConflict)
                &&& final(self).systems() == old(self).systems()
                &&& final(self).bodies() == old(self).bodies()
                &&& final(self).refused()
            },
    {
        let mut i: usize = 0;
        while i < self.entries.len()
            invariant
                i <= self.entries.len(),
                *self == *old(self),
                forall|k: int| 0 <= k < i ==> !clashes_with(self.systems(), k, phase, access@, chain),
            decreases self.entries.len() - i,
        {
            if self.entries[i].phase == phase && self.entries[i].access.writes_overlap(&access)
                && !chains_match(self.entries[i].chain, chain) {
                assert(clashes_with(self.systems(), i as int, phase, access@, chain));
                self.refused = true;
                assert(self.systems() =~= old(self).systems());
                assert(self.bodies() =~= old(self).bodies());
                return Err(AccessConflict);
            }
            i += 1;
        }
        let index = self.entries.len();
        self.entries.push(Entry { phase, access, chain, critical: false, body });
        assert(self.systems() =~= old(self).systems().push(
            SystemSpec { phase, access: access@, chain, critical: false },
        ));
        assert(self.bodies() =~= old(self).bodies().push(body));
        Ok(index)
    }

    /// Declares whether a failure of system `id` is fatal. An index that
    /// names no system changes nothing.
    pub fn set_critical(&mut self, id: usize, critical: bool)
        ensures
            final(self).lifecycle() == old(self).lifecycle(),
            final(self).shutdown_requested() == old(self).shutdown_requested(),
            final(self).refused() == old(self).refused(),
            final(self).bodies() == old(self).bodies(),
            final(self).systems() == if id < old(self).systems().len() {
                old(self).systems().update(
                    id as int,
                    SystemSpec { critical, ..old(self).systems()[id as int] },
                )
            } else {
                old(self).systems()
            },
    {
        if id < self.entries.len() {
            self.entries[id].critical = critical;
            assert(self.systems() =~= old(self).systems().update(
                id as int,
                SystemSpec { critical, ..old(self).systems()[id as int] },
            ));
            assert(self.bodies() =~= old(self).bodies());
        }
    }

    /// Whether system `j` must wait for system `i`.
    pub fn must_wait(&self, i: usize, j: usize) -> (b: bool)
        ensures
            b == ordered(self.systems(), i as int, j as int),
    {
        i < j && j < self.entries.len() && self.entries[i].phase == self.entries[j].phase && (
        chains_match(self.entries[i].chain, self.entries[j].chain) || self.entries[i].access.conflicts(
            &self.entries[j].access,
        ))
    }

    /// The stage of every system, by registration index.
    pub fn stages(&self) -> (table: Vec<usize>)
        ensures
            table@.len() == self.systems().len(),
            forall|j: int| 0 <= j < table@.len() ==> table@[j] == stage(self.systems(), j),
    {
        let n = self.entries.len();
        let mut table: Vec<usize> = Vec::new();
        let mut j: usize = 0;
        while j < n
            invariant
                j <= n,
                n == self.systems().len(),
                table@.len() == j,
                forall|k: int| 0 <= k < j ==> table@[k] == stage(self.systems(), k),
            decreases n - j,
        {
            let mut floor: usize = 0;
            let mut i: usize = 0;
            while i < j
                invariant
                    i <= j < n,
                    n == self.systems().len(),
                    table@.len() == j,
                    forall|k: int| 0 <= k < j ==> table@[k] == stage(self.systems(), k),
                    floor == floor_below(self.systems(), j as int, i as int),
                    floor <= i,
                decreases j - i,
            {
                proof {
                    lemma_stage_bound(self.systems(), i as int);
                }
                if self.must_wait(i, j) && table[i] + 1 > floor {
                    floor = table[i] + 1;
                }
                i += 1;
            }
            table.push(floor);
            j += 1;
        }
        table
    }

    /// The systems of a phase stage by stage: entry `b` lists, in
    /// registration order, the systems that run in stage `b`. The systems of
    /// one entry may run at the same time; an entry starts once the entry
    /// before it is done.
    pub fn batches(&self, phase: Phase) -> (plan: Vec<Vec<usize>>)
        ensures
            plan@.len() == depth(self.systems(), phase, self.systems().len() as int),
            forall|b: int|
                0 <= b < plan@.len() ==> (#[trigger] plan@[b])@ == batch_of(
                    self.systems(),
                    phase,
                    b as nat,
                    self.systems().len() as int,
                ),
    {
        let table = self.stages();
        let n = self.entries.len();
        let mut plan: Vec<Vec<usize>> = Vec::new();
        let mut i: usize = 0;
        while i < n
            invariant
                i <= n,
                n == self.systems().len(),
                n == self.entries.len(),
                table@.len() == n,
                forall|j: int| 0 <= j < n ==> table@[j] == stage(self.systems(), j),
                plan@.len() == depth(self.systems(), phase, i as int),
                forall|b: int|
                    0 <= b < plan@.len() ==> (#[trigger] plan@[b])@ == batch_of(
                        self.systems(),
                        phase,
                        b as nat,
                        i as int,
                    ),
            decreases n - i,
        {
            if self.entries[i].phase == phase {
                let at = table[i];
                proof {
                    lemma_depth_bound(self.systems(), phase, i as int);
                    lemma_stage_bound(self.systems(), i as int);
                }
                while plan.len() <= at
                    invariant
                        at == stage(self.systems(), i as int),
                        at <= i,
                        plan@.len() >= depth(self.systems(), phase, i as int),
                        forall|b: int|
                            0 <= b < plan@.len() ==> (#[trigger] plan@[b])@ == batch_of(
                                self.systems(),
                                phase,
                                b as nat,
                                i as int,
                            ),
                        plan@.len() > depth(self.systems(), phase, i as int) ==> plan@.len() <= at
                            + 1,
                    decreases at + 1 - plan.len(),
                {
                    let ghost level = plan@.len() as nat;
                    proof {
                        lemma_batch_above_depth(self.systems(), phase, level, i as int);
                    }
                    plan.push(Vec::new());
                }
                plan[at].push(i);
            }
            i += 1;
        }
        plan
    }

    /// The systems of a phase in the order in which one pass runs them:
    /// registration order.
    pub fn roster(&self, phase: Phase) -> (order: Vec<usize>)
        ensures
            order@ == roster_of(self.systems(), phase, self.systems().len() as int),
    {
        let mut order: Vec<usize> = Vec::new();
        let mut i: usize = 0;
        while i < self.entries.len()
            invariant
                i <= self.entries.len(),
                order@ == roster_of(self.systems(), phase, i as int),
            decreases self.entries.len() - i,
        {
            if self.entries[i].phase == phase {
                order.push(i);
            }
            i += 1;
        }
        order
    }

    /// The body and the declared access of system `id`, if there is such a
    /// system.
    pub fn system(&self, id: usize) -> (r: Option<(&S, &Access)>)
        ensures
            r.is_some() == (id < self.systems().len()),
            r.is_some() ==> {
                &&& *r.unwrap().0 == self.bodies()[id as int]
                &&& *r.unwrap().1 == self.declared(id as int)
                &&& r.unwrap().1@ == self.systems()[id as int].access
            },
    {
        if id < self.entries.len() {
            Some((&self.entries[id].body, &self.entries[id].access))
        } else {
            None
        }
    }

    /// Whether `id` names a system whose failure is fatal.
    pub fn is_critical(&self, id: usize) -> (b: bool)
        ensures
            b == (id < self.systems().len() && self.systems()[id as int].critical),
    {
        id < self.entries.len() && self.entries[id].critical
    }

    /// Launches the run: from `Uninitialized` to `StartupPhase`. The launch
    /// is refused, and nothing changes, if a registration was refused. A
    /// scheduler that was launched before stays as it is.
    pub fn launch(&mut self) -> (r: Result<(), AccessConflict>)
        ensures
            final(self).systems() == old(self).systems(),
            final(self).bodies() == old(self).bodies(),
            final(self).refused() == old(self).refused(),
            final(self).shutdown_requested() == old(self).shutdown_requested(),
            r.is_err() == old(self).refused(),
            final(self).lifecycle() == if !old(self).refused() && old(self).lifecycle()
                == Lifecycle::Uninitialized {
                Lifecycle::StartupPhase
            } else {
                old(self).lifecycle()
            },
    {
        if self.refused {
            return Err(AccessConflict);
        }
        if self.lifecycle == Lifecycle::Uninitialized {
            self.lifecycle = Lifecycle::StartupPhase;
        }
        Ok(())
    }

    /// Records a request to shut down. It is honoured at the next boundary.
    pub fn request_shutdown(&mut self)
        ensures
            final(self).systems() == old(self).systems(),
            final(self).bodies() == old(self).bodies(),
            final(self).refused() == old(self).refused(),
            final(self).lifecycle() == old(self).lifecycle(),
            final(self).shutdown_requested(),
    {
        self.shutdown = true;
    }

    /// Crosses the boundary at the end of a pass: the startup phase gives
    /// way to the update loop, and the update loop goes on unless a shutdown
    /// was requested, which terminates the run.
    pub fn end_pass(&mut self)
        ensures
            final(self).systems() == old(self).systems(),
            final(self).bodies() == old(self).bodies(),
            final(self).refused() == old(self).refused(),
            final(self).shutdown_requested() == old(self).shutdown_requested(),
            final(self).lifecycle() == after_pass(
                old(self).lifecycle(),
                old(self).shutdown_requested(),
            ),
    {
        match self.lifecycle {
            Lifecycle::StartupPhase => {
                self.lifecycle = Lifecycle::UpdateLoop;
            },
            Lifecycle::UpdateLoop => {
                if self.shutdown {
                    self.lifecycle = Lifecycle::Terminated;
                }
            },
            _ => {},
        }
    }

    /// Terminates the run at once, after a fatal failure.
    pub fn abort(&mut self)
        ensures
            final(self).systems() == old(self).systems(),
            final(self).bodies() == old(self).bodies(),
            final(self).refused() == old(self).refused(),
            final(self).shutdown_requested() == old(self).shutdown_requested(),
            final(self).lifecycle() == Lifecycle::Terminated,
    {
        self.lifecycle = Lifecycle::Terminated;
    }
}

/// At and above the depth of a phase no stage holds a system of the phase.
pub proof fn lemma_batch_above_depth(systems: Seq<SystemSpec>, phase: Phase, b: nat, n: int)
    requires
        0 <= n,
        b >= depth(systems, phase, n),
    ensures
        batch_of(systems, phase, b, n) == Seq::<usize>::empty(),
    decreases n,
{
    if n > 0 {
        lemma_batch_above_depth(systems, phase, b, n - 1);
    }
}

/// Where a run stands after the boundary at the end of a pass.
pub open spec fn after_pass(before: Lifecycle, shutdown: bool) -> Lifecycle {
    match before {
        Lifecycle::StartupPhase => Lifecycle::UpdateLoop,
        Lifecycle::UpdateLoop => if shutdown {
            Lifecycle::Terminated
        } else {
            Lifecycle::UpdateLoop
        },
        other => other,
    }
}

/// The systems of `phase` among the first `n`, in registration order.
pub open spec fn roster_of(systems: Seq<SystemSpec>, phase: Phase, n: int) -> Seq<usize>
    decreases n,
{
    if n <= 0 {
        Seq::empty()
    } else if systems[n - 1].phase == phase {
        roster_of(systems, phase, n - 1).push((n - 1) as usize)
    } else {
        roster_of(systems, phase, n - 1)
    }
}

} // verus!
