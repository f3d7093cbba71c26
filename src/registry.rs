//! The registry of known actors: for each identifier, its mailbox, the name
//! of its behaviour and whether it runs. Callers that share one registry
//! between execution units hold it behind a single reader/writer lock.
use crate::actor::ActorId;
use std::collections::HashMap;
use vstd::prelude::*;

verus! {

broadcast use vstd::std_specs::hash::group_hash_axioms;

/// A handle on the message channel of a running actor.
#[derive(Clone, Copy, Debug, PartialEq, Eq, Structural)]
pub struct Mailbox {
    channel_id: i64,
}

impl Mailbox {
    /// The channel that the handle names.
    pub closed spec fn id(self) -> i64 {
        self.channel_id
    }

    pub fn new(channel_id: i64) -> (r: Self)
        ensures
            r.id() == channel_id,
    {
        Mailbox { channel_id }
    }

    pub fn channel_id(&self) -> (r: i64)
        ensures
            r == self.id(),
    {
        self.channel_id
    }
}

/// What the registry keeps of one actor.
struct ActorEntry {
    mailbox: Mailbox,
    behavior: String,
    running: bool,
}

/// What the registry knows of one actor: its mailbox's channel, the name of
/// its behaviour, and whether it runs.
pub type EntryView = (i64, Seq<char>, bool);

spec fn entry_view(e: ActorEntry) -> EntryView {
    (e.mailbox.id(), e.behavior@, e.running)
}

/// The registry of known actors.
pub struct ActorRegistry {
    actors: HashMap<u128, ActorEntry>,
}

impl View for ActorRegistry {
    type V = Map<u128, EntryView>;

    closed spec fn view(&self) -> Map<u128, EntryView> {
        self.actors@.map_values(|e: ActorEntry| entry_view(e))
    }
}

impl ActorRegistry {
    /// An empty registry.
    pub fn new() -> (r: Self)
        ensures
            r@ == Map::<u128, EntryView>::empty(),
    {
        let r = ActorRegistry { actors: HashMap::new() };
        assert(r@ =~= Map::<u128, EntryView>::empty());
        r
    }

    /// Enters the actor as running, replacing what was known of it.
    pub fn register(&mut self, id: ActorId, mailbox: Mailbox, behavior: String)
        ensures
            final(self)@ == old(self)@.insert(id.0, (mailbox.id(), behavior@, true)),
    {
        let ghost b = behavior@;
        self.actors.insert(id.0, ActorEntry { mailbox, behavior, running: true });
        assert(final(self)@ =~= old(self)@.insert(id.0, (mailbox.id(), b, true)));
    }

    /// The actor's mailbox, if the registry knows the actor.
    pub fn get_mailbox(&self, id: &ActorId) -> (r: Option<Mailbox>)
        ensures
            match r {
                Some(m) => self@.contains_key(id.0) && m.id() == self@[id.0].0,
                None => !self@.contains_key(id.0),
            },
    {
        match self.actors.get(&id.0) {
            Some(e) => Some(e.mailbox),
            None => None,
        }
    }

    /// Marks a known actor as stopped; its entry stays.
    pub fn mark_stopped(&mut self, id: &ActorId)
        ensures
            old(self)@.contains_key(id.0) ==> final(self)@ == old(self)@.insert(
                id.0,
                (old(self)@[id.0].0, old(self)@[id.0].1, false),
            ),
            !old(self)@.contains_key(id.0) ==> final(self)@ == old(self)@,
    {
        let stopped = match self.actors.get(&id.0) {
            Some(e) => Some(ActorEntry { mailbox: e.mailbox, behavior: e.behavior.clone(), running: false }),
            None => None,
        };
        match stopped {
            Some(e) => {
                self.actors.insert(id.0, e);
                assert(final(self)@ =~= old(self)@.insert(
                    id.0,
                    (old(self)@[id.0].0, old(self)@[id.0].1, false),
                ));
            },
            None => {},
        }
    }

    /// Removes the actor's entry.
    pub fn unregister(&mut self, id: &ActorId)
        ensures
            final(self)@ == old(self)@.remove(id.0),
    {
        self.actors.remove(&id.0);
        assert(final(self)@ =~= old(self)@.remove(id.0));
    }

    /// The actor is known and runs.
    pub fn is_running(&self, id: &ActorId) -> (r: bool)
        ensures
            r == (self@.contains_key(id.0) && self@[id.0].2),
    {
        match self.actors.get(&id.0) {
            Some(e) => e.running,
            None => false,
        }
    }
}

} // verus!
