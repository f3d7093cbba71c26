//! The identity of the actor that an execution unit runs. Each unit keeps
//! its own context: it is set on entry to an actor's loop and cleared on
//! exit, and never shared with another unit.
use crate::actor::ActorId;
use vstd::prelude::*;

verus! {

/// The actor that an execution unit runs, if any.
pub struct ActorContext {
    current: Option<ActorId>,
}

impl ActorContext {
    pub closed spec fn current(&self) -> Option<ActorId> {
        self.current
    }

    /// A context outside any actor.
    pub fn new() -> (r: Self)
        ensures
            r.current() is None,
    {
        ActorContext { current: None }
    }

    /// Enters the actor's loop.
    pub fn set_current_actor(&mut self, id: ActorId)
        ensures
            final(self).current() == Some(id),
    {
        self.current = Some(id);
    }

    /// The actor being run, if any.
    pub fn get_current_actor(&self) -> (r: Option<ActorId>)
        ensures
            r == self.current(),
    {
        self.current
    }

    /// Leaves the actor's loop.
    pub fn clear_current_actor(&mut self)
        ensures
            final(self).current() is None,
    {
        self.current = None;
    }
}

} // verus!
