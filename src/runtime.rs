//! The runtime: persistence and recovery for actors over one journal, and
//! their lifecycle in the registry that callers share and hand in.
use crate::actor::ActorId;
use crate::codec::{fits_frame, frame};
use crate::codec::{intact_len, parse_log};
use crate::journal::{
    Event, Journal, JournalError, Snapshot, bytes_are_snapshot, event_record, events_of_records,
    log_readable_bytes, log_records_of, now_millis, records_after, snapshot_bytes,
    snapshot_layout, snapshot_reads_back_as, snapshot_seq, snapshot_state,
};
use crate::registry::{ActorRegistry, Mailbox};
use seq_runtime::TypedValue;
use vstd::prelude::*;
use vstd::string::StringExecFns;

verus! {

/// Where journals are kept, whether events and snapshots are written at all,
/// and how many events a caller lets pass between two snapshots.
pub struct RuntimeConfig {
    pub journal_path: String,
    pub journaling_enabled: bool,
    pub snapshot_interval: u64,
}

impl Default for RuntimeConfig {
    fn default() -> (r: Self)
        ensures
            r.journal_path@ == "./actors"@,
            r.journaling_enabled,
            r.snapshot_interval == 100,
    {
        RuntimeConfig {
            journal_path: String::from_str("./actors"),
            journaling_enabled: true,
            snapshot_interval: 100,
        }
    }
}

/// Where recovery starts from, and the events to replay through the actor's
/// own transition function, in order.
#[derive(Debug)]
pub enum Recovery {
    /// The state of the latest snapshot, taken at event `seq`, and the events
    /// logged after it.
    FromSnapshot { state: TypedValue, seq: u64, replay: Vec<Event> },
    /// No snapshot: the whole log, replayed from the actor's initial state.
    FromStart { replay: Vec<Event> },
}

/// The sequence number that recovery reaches: that of the last event to
/// replay, or else that of the snapshot (0 without one).
pub open spec fn recovered_seq(rec: Recovery) -> u64 {
    match rec {
        Recovery::FromSnapshot { seq, replay, .. } => if replay@.len() == 0 {
            seq
        } else {
            replay@.last().seq
        },
        Recovery::FromStart { replay } => if replay@.len() == 0 {
            0
        } else {
            replay@.last().seq
        },
    }
}

/// The state that recovery starts from: the snapshot's, or else `initial`.
pub open spec fn starting_state(rec: Recovery, initial: TypedValue) -> TypedValue {
    match rec {
        Recovery::FromSnapshot { state, .. } => state,
        Recovery::FromStart { .. } => initial,
    }
}

/// The events that recovery replays.
pub open spec fn replayed(rec: Recovery) -> Seq<Event> {
    match rec {
        Recovery::FromSnapshot { replay, .. } => replay@,
        Recovery::FromStart { replay } => replay@,
    }
}

impl Recovery {
    /// Completes recovery: replays the events through the actor's
    /// transition function from the snapshot's state, or from `initial`
    /// without a snapshot, and returns the live state with the sequence
    /// number reached.
    pub fn apply<F: Fn(TypedValue, Event) -> TypedValue>(self, initial: TypedValue, apply: F) -> (r: (
        TypedValue,
        u64,
    ))
        requires
            forall|s: TypedValue, e: Event| apply.requires((s, e)),
        ensures
            r.1 == recovered_seq(self),
            exists|states: Seq<TypedValue>|
                {
                    &&& states.len() == replayed(self).len() + 1
                    &&& states[0] == starting_state(self, initial)
                    &&& states.last() == r.0
                    &&& forall|i: int|
                        0 <= i < replayed(self).len() ==> apply.ensures(
                            (states[i], replayed(self)[i]),
                            #[trigger] states[i + 1],
                        )
                },
    {
        let (start, base, events) = match self {
            Recovery::FromSnapshot { state, seq, replay } => (state, seq, replay),
            Recovery::FromStart { replay } => (initial, 0, replay),
        };
        let last = if events.len() == 0 {
            base
        } else {
            events[events.len() - 1].seq
        };
        let state = replay(start, events, apply);
        (state, last)
    }
}

/// Applies the events, in order, through the actor's transition function,
/// starting from `state`; the result is the state after the last event.
pub fn replay<F: Fn(TypedValue, Event) -> TypedValue>(
    state: TypedValue,
    events: Vec<Event>,
    apply: F,
) -> (r: TypedValue)
    requires
        forall|s: TypedValue, e: Event| apply.requires((s, e)),
    ensures
        exists|states: Seq<TypedValue>|
            {
                &&& states.len() == events@.len() + 1
                &&& states[0] == state
                &&& states.last() == r
                &&& forall|i: int|
                    0 <= i < events@.len() ==> apply.ensures(
                        (states[i], events@[i]),
                        #[trigger] states[i + 1],
                    )
            },
{
    let ghost all = events@;
    let mut rest = events;
    let mut current = state;
    let ghost mut states: Seq<TypedValue> = seq![state];
    let n = rest.len();
    let mut i: usize = 0;
    while i < n
        invariant
            n == all.len(),
            i <= n,
            rest@ == all.skip(i as int),
            states.len() == i + 1,
            states[0] == state,
            states.last() == current,
            forall|s: TypedValue, e: Event| apply.requires((s, e)),
            forall|j: int|
                0 <= j < i ==> apply.ensures((states[j], all[j]), #[trigger] states[j + 1]),
        decreases n - i,
    {
        let e = rest.remove(0);
        assert(e == all[i as int]);
        let next = apply(current, e);
        proof {
            states = states.push(next);
        }
        current = next;
        i = i + 1;
        assert(rest@ =~= all.skip(i as int));
    }
    current
}

/// The runtime of a set of actors: their configuration and their journal.
/// The registry of actors is a service of its own, shared by every runtime
/// and execution unit, and handed to the methods that use it.
pub struct ActorRuntime {
    config: RuntimeConfig,
    journal: Journal,
}

impl ActorRuntime {
    /// The configuration the runtime was made with.
    pub closed spec fn cfg(&self) -> RuntimeConfig {
        self.config
    }

    /// Whether events and snapshots are written.
    pub open spec fn journaling(&self) -> bool {
        self.cfg().journaling_enabled
    }

    /// The base directory of the runtime's journal.
    pub closed spec fn journal_base(&self) -> Seq<char> {
        self.journal.base()
    }

    /// A runtime with the given configuration, whose journal lies under the
    /// configured path.
    pub fn new(config: RuntimeConfig) -> (r: Self)
        ensures
            r.cfg() == config,
            r.journal_base() == config.journal_path@,
    {
        let journal = Journal::new(config.journal_path.clone());
        ActorRuntime { config, journal }
    }

    /// A runtime with the default configuration: journals under
    /// "./actors", journaling on, a snapshot every 100 events.
    pub fn with_defaults() -> (r: Self)
        ensures
            r.cfg().journal_path@ == "./actors"@,
            r.cfg().journaling_enabled,
            r.cfg().snapshot_interval == 100,
            r.journal_base() == "./actors"@,
    {
        Self::new(RuntimeConfig::default())
    }

    pub fn config(&self) -> (r: &RuntimeConfig)
        ensures
            *r == self.cfg(),
    {
        &self.config
    }

    /// The journal that the runtime writes through.
    pub fn journal(&self) -> (r: &Journal)
        ensures
            r.base() == self.journal_base(),
    {
        &self.journal
    }

    /// Registers the actor as running, replacing any earlier entry.
    pub fn register_actor(
        &self,
        registry: &mut ActorRegistry,
        id: ActorId,
        mailbox: Mailbox,
        behavior: String,
    )
        ensures
            final(registry)@ == old(registry)@.insert(id.0, (mailbox.id(), behavior@, true)),
    {
        registry.register(id, mailbox, behavior);
    }

    pub fn get_mailbox(&self, registry: &ActorRegistry, id: &ActorId) -> (r: Option<Mailbox>)
        ensures
            match r {
                Some(m) => registry@.contains_key(id.0) && m.id() == registry@[id.0].0,
                None => !registry@.contains_key(id.0),
            },
    {
        registry.get_mailbox(id)
    }

    pub fn is_running(&self, registry: &ActorRegistry, id: &ActorId) -> (r: bool)
        ensures
            r == (registry@.contains_key(id.0) && registry@[id.0].2),
    {
        registry.is_running(id)
    }

    /// Marks the actor as stopped; it stays registered.
    pub fn stop_actor(&self, registry: &mut ActorRegistry, id: &ActorId)
        ensures
            old(registry)@.contains_key(id.0) ==> final(registry)@ == old(registry)@.insert(
                id.0,
                (old(registry)@[id.0].0, old(registry)@[id.0].1, false),
            ),
            !old(registry)@.contains_key(id.0) ==> final(registry)@ == old(registry)@,
    {
        registry.mark_stopped(id);
    }

    /// Removes the actor from the registry.
    pub fn unregister_actor(&self, registry: &mut ActorRegistry, id: &ActorId)
        ensures
            final(registry)@ == old(registry)@.remove(id.0),
    {
        registry.unregister(id);
    }

    /// Decides how an actor recovers from its snapshot file and its event
    /// log (`None` where the file is absent). With a snapshot, recovery
    /// starts from its state with the events logged after it; without one,
    /// from the actor's initial state with the whole log; with neither
    /// snapshot nor events, there is nothing to recover.
    pub fn recover_state(&self, snapshot: Option<&[u8]>, log: Option<&[u8]>) -> (r: Result<
        Option<Recovery>,
        JournalError,
    >)
        ensures
            r is Err <==> (snapshot matches Some(s) && !bytes_are_snapshot(s@)) || !log_readable_bytes(
                log,
            ),
            r matches Err(e) ==> e == JournalError::Corrupt,
            r matches Ok(rec) ==> match snapshot {
                Some(s) => (rec matches Some(Recovery::FromSnapshot { state, seq, replay }) && {
                    &&& seq == snapshot_seq(s@)
                    &&& snapshot_state(s@) == Some(state)
                    &&& events_of_records(replay@, records_after(log_records_of(log), seq))
                }),
                None => {
                    &&& (log_records_of(log).len() == 0 <==> rec is None)
                    &&& (rec matches Some(x) ==> (x matches Recovery::FromStart { replay }
                        && events_of_records(replay@, log_records_of(log))))
                },
            },
    {
        match snapshot {
            Some(bytes) => {
                let snap = match self.journal.load_snapshot(Some(bytes)) {
                    Ok(Some(s)) => s,
                    Ok(None) => {
                        return Err(JournalError::Corrupt);
                    },
                    Err(e) => {
                        return Err(e);
                    },
                };
                let replay = match self.journal.read_events_after(log, snap.seq) {
                    Ok(v) => v,
                    Err(e) => {
                        return Err(e);
                    },
                };
                Ok(Some(Recovery::FromSnapshot { state: snap.state, seq: snap.seq, replay }))
            },
            None => {
                let replay = match self.journal.read_events(log) {
                    Ok(v) => v,
                    Err(e) => {
                        return Err(e);
                    },
                };
                if replay.len() == 0 {
                    Ok(None)
                } else {
                    Ok(Some(Recovery::FromStart { replay }))
                }
            },
        }
    }

    /// Appends the event to the actor's log, whose bytes are `log`, where
    /// journaling is enabled (see `Journal::append`); otherwise leaves the
    /// log as it is.
    pub fn persist_event(&self, log: &mut Vec<u8>, event: &Event) -> (r: Result<(), JournalError>)
        ensures
            !self.journaling() ==> r is Ok && final(log)@ == old(log)@,
            self.journaling() ==> {
                &&& r is Ok <==> fits_frame(event_record(*event))
                &&& r is Ok ==> final(log)@ == old(log)@.take(intact_len(old(log)@) as int)
                    + frame(event_record(*event))
                &&& r is Ok ==> parse_log(final(log)@) == parse_log(old(log)@).push(
                    event_record(*event),
                )
                &&& r matches Err(e) ==> e == JournalError::RecordTooLarge && final(log)@ == old(
                    log,
                )@
            },
    {
        if self.config.journaling_enabled {
            self.journal.append(log, event)
        } else {
            Ok(())
        }
    }

    /// Where journaling is enabled, the bytes of a snapshot of `state` at
    /// event `seq`, stamped with the current time; `None` otherwise.
    pub fn save_snapshot(&self, state: &TypedValue, seq: u64) -> (r: Result<
        Option<Vec<u8>>,
        JournalError,
    >)
        ensures
            !self.journaling() ==> (r matches Ok(b) && b is None),
            self.journaling() ==> (r matches Ok(b) && b matches Some(bytes) && exists|ts: u64|
                #[trigger] snapshot_layout(seq, *state, ts) == bytes@
                    && snapshot_reads_back_as(bytes@, Snapshot { seq, state: *state, ts })),
    {
        if self.config.journaling_enabled {
            let ts = now_millis();
            let b = snapshot_bytes(seq, state, ts).unwrap();
            proof {
                crate::journal::lemma_snapshot_round_trip(Snapshot { seq, state: *state, ts });
            }
            Ok(Some(b))
        } else {
            Ok(None)
        }
    }
}

} // verus!
