//! Deferred structural changes: recorded while systems run, replayed in
//! order at the boundary of the tick.

use vstd::prelude::*;
use crate::entity::{ComponentType, Entity};
use crate::state::WorldState;
use crate::world::World;

verus! {

/// One recorded structural change.
pub enum Command<C> {
    /// Spawn an entity with the given bundle.
    Spawn(Vec<(ComponentType, C)>),
    /// Mark an entity for removal.
    Despawn(Entity),
    /// Attach a component to an entity.
    Attach(Entity, ComponentType, C),
    /// Detach a component from an entity.
    Detach(Entity, ComponentType),
}

/// The mathematical content of a recorded change.
pub enum Change<C> {
    Spawn(Seq<(ComponentType, C)>),
    Despawn(Entity),
    Attach(Entity, ComponentType, C),
    Detach(Entity, ComponentType),
}

impl<C> View for Command<C> {
    type V = Change<C>;

    open spec fn view(&self) -> Change<C> {
        match *self {
            Command::Spawn(bundle) => Change::Spawn(bundle@),
            Command::Despawn(e) => Change::Despawn(e),
            Command::Attach(e, kind, value) => Change::Attach(e, kind, value),
            Command::Detach(e, kind) => Change::Detach(e, kind),
        }
    }
}

/// The state after one change. Changes that name a stale entity do nothing.
pub open spec fn perform<C>(s: WorldState<C>, change: Change<C>) -> WorldState<C> {
    match change {
        Change::Spawn(bundle) => s.spawn(bundle),
        Change::Despawn(e) => s.despawn(e),
        Change::Attach(e, kind, value) => s.attach(e, kind, value),
        Change::Detach(e, kind) => s.detach(e, kind),
    }
}

/// The state after the changes in the order in which they were recorded.
pub open spec fn replay<C>(s: WorldState<C>, changes: Seq<Change<C>>) -> WorldState<C>
    decreases changes.len(),
{
    if changes.len() == 0 {
        s
    } else {
        perform(replay(s, changes.drop_last()), changes.last())
    }
}

/// The state after a boundary: the recorded changes are replayed, then the
/// entities marked for removal are removed.
pub open spec fn settle<C>(s: WorldState<C>, changes: Seq<Change<C>>) -> WorldState<C> {
    replay(s, changes).flush()
}

/// A buffer of recorded changes.
pub struct Commands<C> {
    queue: Vec<Command<C>>,
}

impl<C> View for Commands<C> {
    type V = Seq<Change<C>>;

    closed spec fn view(&self) -> Seq<Change<C>> {
        Seq::new(self.queue@.len(), |i: int| self.queue@[i]@)
    }
}

impl<C> Commands<C> {
    /// An empty buffer.
    pub fn new() -> (commands: Commands<C>)
        ensures
            commands@ == Seq::<Change<C>>::empty(),
    {
        let commands = Commands { queue: Vec::new() };
        assert(commands@ =~= Seq::<Change<C>>::empty());
        commands
    }

    /// The number of recorded changes.
    pub fn len(&self) -> (n: usize)
        ensures
            n == self@.len(),
    {
        self.queue.len()
    }

    /// Records a change.
    pub fn record(&mut self, command: Command<C>)
        ensures
            final(self)@ == old(self)@.push(command@),
    {
        self.queue.push(command);
        assert(self@ =~= old(self)@.push(command@));
    }

    /// Records the spawning of an entity with the given bundle.
    pub fn spawn(&mut self, bundle: Vec<(ComponentType, C)>)
        ensures
            final(self)@ == old(self)@.push(Change::Spawn(bundle@)),
    {
        self.record(Command::Spawn(bundle));
    }

    /// Records the removal of `e`.
    pub fn despawn(&mut self, e: Entity)
        ensures
            final(self)@ == old(self)@.push(Change::Despawn(e)),
    {
        self.record(Command::Despawn(e));
    }

    /// Records the attaching of `value` to `e` as its component of type `kind`.
    pub fn attach(&mut self, e: Entity, kind: ComponentType, value: C)
        ensures
            final(self)@ == old(self)@.push(Change::Attach(e, kind, value)),
    {
        self.record(Command::Attach(e, kind, value));
    }

    /// Records the detaching of the component of type `kind` from `e`.
    pub fn detach(&mut self, e: Entity, kind: ComponentType)
        ensures
            final(self)@ == old(self)@.push(Change::Detach(e, kind)),
    {
        self.record(Command::Detach(e, kind));
    }
}

impl<C> World<C> {
    /// Performs one recorded change at once.
    pub fn perform(&mut self, command: Command<C>)
        requires
            old(self).wf(),
        ensures
            final(self).wf(),
            final(self)@ == perform(old(self)@, command@),
    {
        match command {
            Command::Spawn(bundle) => {
                self.spawn(bundle);
            },
            Command::Despawn(e) => {
                self.despawn(e);
            },
            Command::Attach(e, kind, value) => {
                let _ = self.attach(e, kind, value);
            },
            Command::Detach(e, kind) => {
                let _ = self.detach(e, kind);
            },
        }
    }

    /// Crosses a boundary: replays the recorded changes in the order in
    /// which they were recorded, then removes the entities marked for removal.
    pub fn apply(&mut self, commands: Commands<C>)
        requires
            old(self).wf(),
        ensures
            final(self).wf(),
            final(self)@ == settle(old(self)@, commands@),
    {
        let ghost recorded = commands@;
        let ghost n = recorded.len() as int;
        let mut queue = commands.queue;
        let mut stack: Vec<Command<C>> = Vec::new();
        while queue.len() > 0
            invariant
                queue.len() + stack.len() == n,
                forall|j: int| 0 <= j < queue.len() ==> (#[trigger] queue@[j])@ == recorded[j],
                forall|j: int| 0 <= j < stack.len() ==> (#[trigger] stack@[j])@ == recorded[n - 1 - j],
            decreases queue.len(),
        {
            let command = queue.pop().unwrap();
            stack.push(command);
        }
        assert(recorded.take(0) =~= Seq::<Change<C>>::empty());
        while stack.len() > 0
            invariant
                stack.len() <= n,
                n == recorded.len(),
                forall|j: int| 0 <= j < stack.len() ==> (#[trigger] stack@[j])@ == recorded[n - 1 - j],
                self.wf(),
                self@ == replay(old(self)@, recorded.take(n - stack.len())),
            decreases stack.len(),
        {
            let ghost done = recorded.take(n - stack.len());
            let command = stack.pop().unwrap();
            assert(command@ == recorded[n - 1 - stack.len()]);
            self.perform(command);
            assert(recorded.take(n - stack.len()).drop_last() =~= done);
        }
        assert(recorded.take(n) =~= recorded);
        self.flush();
    }
}

} // verus!
