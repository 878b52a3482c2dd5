//! The run: registration of resources and systems, the startup pass, and
//! the ticks of the update loop.

use vstd::prelude::*;
use crate::access::Access;
use crate::context::{Context, ContextState};
use crate::entity::ResourceType;
use crate::plan::{admissible, Phase, SystemSpec};
use crate::schedule::{after_pass, roster_of, AccessConflict, Lifecycle, Scheduler};

verus! {

/// A system body signalled a failure.
#[derive(Clone, Copy, Debug, PartialEq, Eq, Structural)]
pub struct SystemPanic;

/// The behaviour of a system: what one invocation may do to the context it
/// is given, and whether it signals a failure.
pub trait SystemBody<C, R>: Sized {
    /// Whether an invocation that starts in `before` may end in `after`,
    /// signalling a failure or not.
    spec fn effect(
        &self,
        before: ContextState<C, R>,
        after: ContextState<C, R>,
        failed: bool,
    ) -> bool;

    /// Runs the system once, to completion.
    fn run(&self, ctx: &mut Context<C, R>) -> (r: Result<(), SystemPanic>)
        requires
            old(ctx).wf(),
        ensures
            final(ctx).wf(),
            self.effect(old(ctx)@, final(ctx)@, r.is_err()),
    ;
}

/// How far a pass has come.
pub struct PassState<C, R> {
    /// The context as the systems run so far have left it.
    pub ctx: ContextState<C, R>,
    /// The systems that have signalled a failure, oldest first.
    pub log: Seq<usize>,
    /// Whether a critical system has failed.
    pub fatal: bool,
}

/// Whether `q` is the pass `p` after system `id` had its turn: unless a
/// fatal failure came before, the system runs under the grants of its own
/// signature, and a failure is logged, fatally so if the system is critical.
pub open spec fn turn<C, R, S: SystemBody<C, R>>(
    systems: Seq<SystemSpec>,
    bodies: Seq<S>,
    id: int,
    p: PassState<C, R>,
    q: PassState<C, R>,
) -> bool {
    if p.fatal {
        q == p
    } else {
        let failed = q.log.len() > p.log.len();
        &&& bodies[id].effect(p.ctx.with_grants(systems[id].access), q.ctx, failed)
        &&& q.log == if failed {
            p.log.push(id as usize)
        } else {
            p.log
        }
        &&& q.fatal == (failed && systems[id].critical)
    }
}

/// Whether `end` is the pass `start` after the systems of `order` had their
/// turns, one after the other, each seeing everything the earlier ones wrote.
pub open spec fn pass<C, R, S: SystemBody<C, R>>(
    systems: Seq<SystemSpec>,
    bodies: Seq<S>,
    order: Seq<usize>,
    start: PassState<C, R>,
    end: PassState<C, R>,
) -> bool
    decreases order.len(),
{
    if order.len() == 0 {
        end == start
    } else {
        exists|mid: PassState<C, R>|
            pass(systems, bodies, order.drop_last(), start, mid) && #[trigger] turn(
                systems,
                bodies,
                order.last() as int,
                mid,
                end,
            )
    }
}

/// A pass goes on by one turn.
pub proof fn lemma_pass_goes_on<C, R, S: SystemBody<C, R>>(
    systems: Seq<SystemSpec>,
    bodies: Seq<S>,
    order: Seq<usize>,
    start: PassState<C, R>,
    mid: PassState<C, R>,
    end: PassState<C, R>,
)
    requires
        order.len() > 0,
        pass(systems, bodies, order.drop_last(), start, mid),
        turn(systems, bodies, order.last() as int, mid, end),
    ensures
        pass(systems, bodies, order, start, end),
{
}

/// In a pass over two systems the second starts from what the first has
/// left: everything the first wrote is in place before the second runs.
pub proof fn lemma_second_sees_first<C, R, S: SystemBody<C, R>>(
    systems: Seq<SystemSpec>,
    bodies: Seq<S>,
    a: usize,
    b: usize,
    start: PassState<C, R>,
    end: PassState<C, R>,
)
    ensures
        pass(systems, bodies, seq![a, b], start, end) <==> exists|mid: PassState<C, R>|
            #[trigger] turn(systems, bodies, a as int, start, mid) && turn(
                systems,
                bodies,
                b as int,
                mid,
                end,
            ),
{
    let order = seq![a, b];
    assert(order.drop_last() =~= seq![a]);
    assert(seq![a].drop_last() =~= Seq::<usize>::empty());
    assert(order.last() == b);
    assert(seq![a].last() == a);
    assert forall|mid: PassState<C, R>|
        pass(systems, bodies, seq![a], start, mid) <==> turn(systems, bodies, a as int, start, mid) by {
        if pass(systems, bodies, seq![a], start, mid) {
            let first = choose|first: PassState<C, R>|
                pass(systems, bodies, seq![a].drop_last(), start, first) && #[trigger] turn(
                    systems,
                    bodies,
                    seq![a].last() as int,
                    first,
                    mid,
                );
            assert(first == start);
        }
        if turn(systems, bodies, a as int, start, mid) {
            assert(pass(systems, bodies, seq![a].drop_last(), start, start));
            lemma_pass_goes_on(systems, bodies, seq![a], start, start, mid);
        }
    }
    if pass(systems, bodies, order, start, end) {
        let mid = choose|mid: PassState<C, R>|
            pass(systems, bodies, order.drop_last(), start, mid) && #[trigger] turn(
                systems,
                bodies,
                order.last() as int,
                mid,
                end,
            );
        assert(turn(systems, bodies, a as int, start, mid) && turn(
            systems,
            bodies,
            b as int,
            mid,
            end,
        ));
    }
    if exists|mid: PassState<C, R>|
        #[trigger] turn(systems, bodies, a as int, start, mid) && turn(
            systems,
            bodies,
            b as int,
            mid,
            end,
        ) {
        let mid = choose|mid: PassState<C, R>|
            #[trigger] turn(systems, bodies, a as int, start, mid) && turn(
                systems,
                bodies,
                b as int,
                mid,
                end,
            );
        lemma_pass_goes_on(systems, bodies, order, start, mid, end);
    }
}

/// After a fatal failure no further system runs.
pub proof fn lemma_fatal_ends_pass<C, R, S: SystemBody<C, R>>(
    systems: Seq<SystemSpec>,
    bodies: Seq<S>,
    order: Seq<usize>,
    k: int,
    start: PassState<C, R>,
    end: PassState<C, R>,
)
    requires
        0 <= k <= order.len(),
        pass(systems, bodies, order.take(k), start, end),
        end.fatal,
    ensures
        pass(systems, bodies, order, start, end),
    decreases order.len() - k,
{
    if k < order.len() {
        assert(order.take(k + 1).drop_last() =~= order.take(k));
        lemma_pass_goes_on(systems, bodies, order.take(k + 1), start, end, end);
        lemma_fatal_ends_pass(systems, bodies, order, k + 1, start, end);
    } else {
        assert(order.take(k) =~= order);
    }
}

/// The systems of a phase run in registration order, each exactly once:
/// the roster lists them, and only them, in ascending order.
pub proof fn lemma_roster(systems: Seq<SystemSpec>, phase: Phase, n: int)
    requires
        0 <= n <= systems.len() <= usize::MAX,
    ensures
        forall|k: int|
            0 <= k < roster_of(systems, phase, n).len() ==> (#[trigger] roster_of(systems, phase, n)[k])
                < n && systems[roster_of(systems, phase, n)[k] as int].phase == phase,
        forall|k: int, l: int|
            0 <= k < l < roster_of(systems, phase, n).len() ==> (#[trigger] roster_of(
                systems,
                phase,
                n,
            )[k]) < (#[trigger] roster_of(systems, phase, n)[l]),
        forall|i: int|
            0 <= i < n && (#[trigger] systems[i]).phase == phase ==> roster_of(
                systems,
                phase,
                n,
            ).contains(i as usize),
    decreases n,
{
    if n > 0 {
        lemma_roster(systems, phase, n - 1);
        let rest = roster_of(systems, phase, n - 1);
        let all = roster_of(systems, phase, n);
        assert forall|k: int| 0 <= k < all.len() implies (#[trigger] all[k]) < n && systems[all[k] as int].phase
            == phase by {
            if k < rest.len() {
                assert(all[k] == rest[k]);
            }
        }
        assert forall|k: int, l: int| 0 <= k < l < all.len() implies (#[trigger] all[k]) < (
        #[trigger] all[l]) by {
            assert(all[k] == rest[k]);
            if l < rest.len() {
                assert(all[l] == rest[l]);
            }
        }
        assert forall|i: int|
            0 <= i < n && (#[trigger] systems[i]).phase == phase implies all.contains(
            i as usize,
        ) by {
            if i < n - 1 {
                assert(rest.contains(i as usize));
                let k = choose|k: int| 0 <= k < rest.len() && rest[k] == i as usize;
                assert(all[k] == i as usize);
            } else {
                assert(all[all.len() - 1] == i as usize);
            }
        }
    }
}

/// The mathematical content of a run.
pub struct AppState<C, R, S> {
    /// The registered systems.
    pub systems: Seq<SystemSpec>,
    /// Their bodies.
    pub bodies: Seq<S>,
    /// Where the run stands.
    pub lifecycle: Lifecycle,
    /// Whether a registration was refused.
    pub refused: bool,
    /// Whether a shutdown was requested.
    pub shutdown: bool,
    /// The data.
    pub ctx: ContextState<C, R>,
    /// The systems that have signalled a failure, oldest first.
    pub log: Seq<usize>,
}

impl<C, R, S: SystemBody<C, R>> AppState<C, R, S> {
    /// Whether `p` is an outcome of one pass over the systems of `phase`.
    pub open spec fn after_systems(self, phase: Phase, p: PassState<C, R>) -> bool {
        pass(
            self.systems,
            self.bodies,
            roster_of(self.systems, phase, self.systems.len() as int),
            PassState { ctx: self.ctx, log: self.log, fatal: false },
            p,
        )
    }

    /// The run after a pass that ended in `p` and the boundary that follows
    /// it. A fatal failure terminates the run at once, without a boundary.
    pub open spec fn concluded(self, p: PassState<C, R>) -> Self {
        if p.fatal {
            AppState { lifecycle: Lifecycle::Terminated, ctx: p.ctx, log: p.log, ..self }
        } else {
            AppState {
                lifecycle: after_pass(self.lifecycle, self.shutdown),
                ctx: p.ctx.settled(),
                log: p.log,
                ..self
            }
        }
    }

    /// Whether `next` is the run after one pass over the systems of `phase`
    /// and the boundary that follows it.
    pub open spec fn after_phase(self, phase: Phase, next: Self) -> bool {
        exists|p: PassState<C, R>| #[trigger] self.after_systems(phase, p) && next == self.concluded(p)
    }

    /// Whether `next` is the run after a launch: nothing happens if a
    /// registration was refused or the run was launched before; else every
    /// startup system runs once.
    pub open spec fn started(self, next: Self) -> bool {
        if !self.refused && self.lifecycle == Lifecycle::Uninitialized {
            AppState { lifecycle: Lifecycle::StartupPhase, ..self }.after_phase(Phase::Startup, next)
        } else {
            next == self
        }
    }

    /// Whether `next` is the run after one tick for each of the given time
    /// steps, in their order.
    pub open spec fn ticked_all(self, deltas: Seq<u64>, next: Self) -> bool
        decreases deltas.len(),
    {
        if deltas.len() == 0 {
            next == self
        } else {
            exists|mid: Self|
                self.ticked_all(deltas.drop_last(), mid) && #[trigger] mid.ticked(
                    deltas.last(),
                    next,
                )
        }
    }

    /// Whether `next` is the run after a launch and one tick for each of the
    /// given time steps.
    pub open spec fn ran(self, deltas: Seq<u64>, next: Self) -> bool {
        exists|mid: Self| #[trigger] self.started(mid) && mid.ticked_all(deltas, next)
    }

    /// Whether `next` is the run after one tick with time step `delta`:
    /// nothing happens outside the update loop; else every update system
    /// runs once.
    pub open spec fn ticked(self, delta: u64, next: Self) -> bool {
        if self.lifecycle == Lifecycle::UpdateLoop {
            AppState { ctx: self.ctx.with_delta(delta), ..self }.after_phase(Phase::Update, next)
        } else {
            next == self
        }
    }
}

/// The life cycle of a run. No update system runs before the startup pass
/// is over: a tick outside the update loop changes nothing. A launch leads
/// to the update loop, or to termination if a critical startup system
/// failed, and a launch that was refused or repeated changes nothing. A tick
/// leaves the update loop only by termination: after a fatal failure, or at
/// its boundary if a shutdown was requested. A terminated run stays as it is.
pub proof fn lemma_life_cycle<C, R, S: SystemBody<C, R>>(
    s: AppState<C, R, S>,
    next: AppState<C, R, S>,
    delta: u64,
)
    ensures
        s.lifecycle != Lifecycle::UpdateLoop && s.ticked(delta, next) ==> next == s,
        s.lifecycle == Lifecycle::Uninitialized && !s.refused && s.started(next) ==> next.lifecycle
            == Lifecycle::UpdateLoop || next.lifecycle == Lifecycle::Terminated,
        (s.lifecycle != Lifecycle::Uninitialized || s.refused) && s.started(next) ==> next == s,
        s.lifecycle == Lifecycle::UpdateLoop && s.ticked(delta, next) ==> next.lifecycle
            == Lifecycle::UpdateLoop || next.lifecycle == Lifecycle::Terminated,
        s.lifecycle == Lifecycle::UpdateLoop && s.shutdown && s.ticked(delta, next)
            ==> next.lifecycle == Lifecycle::Terminated,
        s.ticked(delta, next) || s.started(next) ==> next.systems == s.systems && next.bodies
            == s.bodies && next.refused == s.refused && next.shutdown == s.shutdown,
{
}

/// A run: the scheduler, the data, and the log of failures.
pub struct App<C, R, S> {
    scheduler: Scheduler<S>,
    ctx: Context<C, R>,
    log: Vec<usize>,
}

impl<C, R, S: SystemBody<C, R>> View for App<C, R, S> {
    type V = AppState<C, R, S>;

    closed spec fn view(&self) -> AppState<C, R, S> {
        AppState {
            systems: self.scheduler.systems(),
            bodies: self.scheduler.bodies(),
            lifecycle: self.scheduler.lifecycle(),
            refused: self.scheduler.refused(),
            shutdown: self.scheduler.shutdown_requested(),
            ctx: self.ctx@,
            log: self.log@,
        }
    }
}

impl<C, R, S: SystemBody<C, R>> App<C, R, S> {
    /// Whether the run is well formed.
    pub open spec fn wf(&self) -> bool {
        self@.ctx.world.wf()
    }

    /// A run with nothing registered.
    pub fn new() -> (app: App<C, R, S>)
        ensures
            app.wf(),
            app@.systems == Seq::<SystemSpec>::empty(),
            app@.lifecycle == Lifecycle::Uninitialized,
            !app@.refused,
            !app@.shutdown,
            app@.ctx == Context::<C, R>::new_spec(),
            app@.log == Seq::<usize>::empty(),
    {
        App { scheduler: Scheduler::new(), ctx: Context::new(), log: Vec::new() }
    }

    /// The data, for inspection.
    pub fn context(&self) -> (ctx: &Context<C, R>)
        ensures
            ctx@ == self@.ctx,
    {
        &self.ctx
    }

    /// Where the run stands.
    pub fn state(&self) -> (l: Lifecycle)
        ensures
            l == self@.lifecycle,
    {
        self.scheduler.state()
    }

    /// The systems that have signalled a failure, oldest first.
    pub fn failures(&self) -> (log: &Vec<usize>)
        ensures
            log@ == self@.log,
    {
        &self.log
    }

    /// The stage of every registered system, by registration index.
    pub fn stages(&self) -> (table: Vec<usize>)
        ensures
            table@.len() == self@.systems.len(),
            forall|j: int| 0 <= j < table@.len() ==> table@[j] == crate::plan::stage(self@.systems, j),
    {
        self.scheduler.stages()
    }

    /// The systems of a phase stage by stage: the systems of one entry may
    /// run at the same time, and an entry starts once the one before it is
    /// done.
    pub fn batches(&self, phase: Phase) -> (plan: Vec<Vec<usize>>)
        ensures
            plan@.len() == crate::plan::depth(self@.systems, phase, self@.systems.len() as int),
            forall|b: int|
                0 <= b < plan@.len() ==> (#[trigger] plan@[b])@ == crate::plan::batch_of(
                    self@.systems,
                    phase,
                    b as nat,
                    self@.systems.len() as int,
                ),
    {
        self.scheduler.batches(phase)
    }

    /// Registers a resource with its initial value and returns the value it
    /// replaces, if any.
    pub fn register_resource(&mut self, kind: ResourceType, value: R) -> (previous: Option<R>)
        ensures
            final(self)@ == (AppState {
                ctx: old(self)@.ctx.with_resources(old(self)@.ctx.resources.insert(kind, value)),
                ..old(self)@
            }),
            previous == if old(self)@.ctx.resources.contains_key(kind) {
                Some(old(self)@.ctx.resources[kind])
            } else {
                None
            },
    {
        self.ctx.insert_resource(kind, value)
    }

    /// Registers a system and returns its registration index; refused if
    /// its writes overlap those of an earlier system of the same phase that
    /// no chain orders it with.
    pub fn register_system(&mut self, phase: Phase, access: Access, body: S, chain: Option<u32>) -> (r:
        Result<usize, AccessConflict>)
        ensures
            admissible(old(self)@.systems, phase, access@, chain) ==> {
                &&& r == Ok::<usize, AccessConflict>(old(self)@.systems.len() as usize)
                &&& final(self)@ == (AppState {
                    systems: old(self)@.systems.push(
                        SystemSpec { phase, access: access@, chain, critical: false },
                    ),
                    bodies: old(self)@.bodies.push(body),
                    ..old(self)@
                })
            },
            !admissible(old(self)@.systems, phase, access@, chain) ==> {
                &&& r == Err::<usize, AccessConflict>(AccessConflict)
                &&& final(self)@ == (AppState { refused: true, ..old(self)@ })
            },
    {
        self.scheduler.register_system(phase, access, body, chain)
    }

    /// Declares whether a failure of system `id` is fatal.
    pub fn set_critical(&mut self, id: usize, critical: bool)
        ensures
            final(self)@ == (AppState {
                systems: if id < old(self)@.systems.len() {
                    old(self)@.systems.update(
                        id as int,
                        SystemSpec { critical, ..old(self)@.systems[id as int] },
                    )
                } else {
                    old(self)@.systems
                },
                ..old(self)@
            }),
    {
        self.scheduler.set_critical(id, critical);
    }

    /// Records a request to shut down; it is honoured at the next boundary
    /// of the update loop.
    pub fn request_shutdown(&mut self)
        ensures
            final(self)@ == (AppState { shutdown: true, ..old(self)@ }),
    {
        self.scheduler.request_shutdown();
    }

    /// One pass over the systems of `phase`, in registration order, and the
    /// boundary that follows it.
    fn run_phase(&mut self, phase: Phase)
        requires
            old(self).wf(),
        ensures
            final(self).wf(),
            old(self)@.after_phase(phase, final(self)@),
    {
        let order = self.scheduler.roster(phase);
        // The number of systems is a `usize`, so every index of the roster is one too.
        let registered = self.scheduler.len();
        let ghost systems = self@.systems;
        let ghost bodies = self@.bodies;
        let ghost start = PassState { ctx: self@.ctx, log: self@.log, fatal: false };
        let mut fatal = false;
        let mut k: usize = 0;
        proof {
            lemma_roster(systems, phase, systems.len() as int);
            self.scheduler.lemma_declared();
            assert(order@.take(0) =~= Seq::<usize>::empty());
        }
        while k < order.len() && !fatal
            invariant
                k <= order.len(),
                self.ctx.wf(),
                order@ == roster_of(systems, phase, systems.len() as int),
                forall|i: int| 0 <= i < order@.len() ==> (#[trigger] order@[i]) < systems.len(),
                self.scheduler.systems() == systems,
                self.scheduler.bodies() == bodies,
                bodies.len() == systems.len(),
                self.scheduler.lifecycle() == old(self).scheduler.lifecycle(),
                self.scheduler.refused() == old(self).scheduler.refused(),
                self.scheduler.shutdown_requested() == old(self).scheduler.shutdown_requested(),
                pass(
                    systems,
                    bodies,
                    order@.take(k as int),
                    start,
                    PassState { ctx: self.ctx@, log: self.log@, fatal },
                ),
            decreases order.len() - k,
        {
            let id = order[k];
            let ghost before = PassState { ctx: self.ctx@, log: self.log@, fatal };
            if let Some((body, access)) = self.scheduler.system(id) {
                self.ctx.grant(access.duplicate());
                let r = body.run(&mut self.ctx);
                if r.is_err() {
                    self.log.push(id);
                    if self.scheduler.is_critical(id) {
                        fatal = true;
                    }
                }
            }
            k += 1;
            proof {
                let after = PassState { ctx: self.ctx@, log: self.log@, fatal };
                assert(order@.take(k as int).drop_last() =~= order@.take(k - 1));
                assert(order@.take(k as int).last() == id);
                lemma_pass_goes_on(systems, bodies, order@.take(k as int), start, before, after);
            }
        }
        let ghost end = PassState { ctx: self.ctx@, log: self.log@, fatal };
        proof {
            if fatal {
                lemma_fatal_ends_pass(systems, bodies, order@, k as int, start, end);
            } else {
                assert(order@.take(k as int) =~= order@);
            }
            assert(old(self)@.after_systems(phase, end));
        }
        if fatal {
            self.scheduler.abort();
        } else {
            self.ctx.settle();
            self.scheduler.end_pass();
        }
        assert(self@ == old(self)@.concluded(end));
    }

    /// Launches the run and runs every startup system once, in registration
    /// order. Refused, with nothing run, if a registration was refused.
    pub fn startup(&mut self) -> (r: Result<(), AccessConflict>)
        requires
            old(self).wf(),
        ensures
            final(self).wf(),
            r.is_err() == old(self)@.refused,
            old(self)@.started(final(self)@),
    {
        let fresh = self.scheduler.state() == Lifecycle::Uninitialized;
        match self.scheduler.launch() {
            Err(conflict) => Err(conflict),
            Ok(()) => {
                if fresh {
                    self.run_phase(Phase::Startup);
                }
                Ok(())
            },
        }
    }

    /// Runs one tick with time step `delta`: every update system once, in
    /// registration order, then the boundary. Outside the update loop
    /// nothing happens.
    pub fn tick(&mut self, delta: u64)
        requires
            old(self).wf(),
        ensures
            final(self).wf(),
            old(self)@.ticked(delta, final(self)@),
    {
        if self.scheduler.state() == Lifecycle::UpdateLoop {
            self.ctx.set_delta(delta);
            self.run_phase(Phase::Update);
        }
    }

    /// Drives the run: the launch with the startup pass, then one tick for
    /// each of the given time steps. Ticks after the run has terminated, or
    /// after a refused launch, do nothing.
    pub fn run(&mut self, deltas: &Vec<u64>) -> (r: Result<(), AccessConflict>)
        requires
            old(self).wf(),
        ensures
            final(self).wf(),
            r.is_err() == old(self)@.refused,
            old(self)@.ran(deltas@, final(self)@),
    {
        let r = self.startup();
        let ghost launched = self@;
        let mut k: usize = 0;
        assert(deltas@.take(0) =~= Seq::<u64>::empty());
        while k < deltas.len()
            invariant
                k <= deltas.len(),
                self.wf(),
                launched.ticked_all(deltas@.take(k as int), self@),
            decreases deltas.len() - k,
        {
            let ghost before = self@;
            self.tick(deltas[k]);
            k += 1;
            proof {
                assert(deltas@.take(k as int).drop_last() =~= deltas@.take(k - 1));
                assert(before.ticked(deltas@.take(k as int).last(), self@));
            }
        }
        assert(deltas@.take(k as int) =~= deltas@);
        r
    }
}

} // verus!
