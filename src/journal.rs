//! The event journal of an actor: events as length-prefixed records in an
//! append-only log, and one snapshot of the actor's state.
//!
//! An event record holds the sequence number (8 bytes), the length of the
//! type name (8 bytes), the type name in UTF-8, the payload in bincode, and
//! the timestamp (8 bytes); every number is little-endian. A snapshot holds
//! the sequence number, the state and the timestamp in the same way.
//!
//! The journal works on the bytes of the files; reading and writing them is
//! left to the caller.
use crate::actor::ActorId;
use crate::codec::{
    fits_frame, frame, frame_all, intact_len, le_bytes, le_value, lemma_append_after_intact,
    lemma_frame_all_push, lemma_le_bytes_len, lemma_le_round_trip, lemma_parse_frame_all,
    lemma_pow256_mono, lemma_pow256_values, parse_log, pow256, push_le, read_le,
    whole_records_len,
};
use crate::value::{
    decimal, decimal_string, decode_value, encode_value, value_debug_string, value_debug_text,
    value_decoding, value_encoding,
};
use seq_runtime::TypedValue;
use vstd::prelude::*;
use vstd::slice::slice_subrange;
use vstd::string::StringExecFns;
use vstd::utf8::{decode_utf8, encode_utf8, valid_utf8};

verus! {

broadcast use vstd::utf8::group_utf8_lib;

/// Why the journal could not frame a record or read bytes back.
#[derive(Clone, Copy, Debug, PartialEq, Eq, Structural)]
pub enum JournalError {
    /// A record is too long for its four-byte length prefix.
    RecordTooLarge,
    /// Bytes that should hold a record or a snapshot do not.
    Corrupt,
}

/// Relies on `String::from_utf8`: it accepts exactly the valid UTF-8 byte
/// sequences, and the string holds the characters they encode.
#[verifier::external_body]
fn utf8_string(b: Vec<u8>) -> (r: Option<String>)
    ensures
        r is Some <==> valid_utf8(b@),
        r matches Some(s) ==> s@ == decode_utf8(b@),
{
    String::from_utf8(b).ok()
}

/// Relies on `std::time::SystemTime`: milliseconds since the Unix epoch, or
/// 0 where the clock stands before it.
#[verifier::external_body]
pub(crate) fn now_millis() -> u64 {
    std::time::SystemTime::now().duration_since(std::time::UNIX_EPOCH).map(
        |d| d.as_millis() as u64,
    ).unwrap_or(0)
}

/// Appends the bytes of `b` to `out`.
fn push_bytes(out: &mut Vec<u8>, b: &[u8])
    ensures
        final(out)@ == old(out)@ + b@,
{
    let mut i: usize = 0;
    while i < b.len()
        invariant
            i <= b@.len(),
            out@ == old(out)@ + b@.take(i as int),
        decreases b@.len() - i,
    {
        out.push(b[i]);
        i = i + 1;
        assert(out@ =~= old(out)@ + b@.take(i as int));
    }
    assert(b@.take(i as int) =~= b@);
}

/// The bytes of `b` from `start` up to `end`.
fn copy_range(b: &[u8], start: usize, end: usize) -> (r: Vec<u8>)
    requires
        start <= end <= b@.len(),
    ensures
        r@ == b@.subrange(start as int, end as int),
{
    let mut out: Vec<u8> = Vec::new();
    push_bytes(&mut out, slice_subrange(b, start, end));
    assert(out@ =~= b@.subrange(start as int, end as int));
    out
}

/// A persisted event.
#[derive(Debug)]
pub struct Event {
    /// Position in the actor's journal.
    pub seq: u64,
    /// What happened, e.g. "Deposit".
    pub event_type: String,
    /// The data of the event.
    pub payload: TypedValue,
    /// Milliseconds since the Unix epoch.
    pub ts: u64,
}

/// The record that stands for an event in the log.
pub open spec fn event_record(e: Event) -> Seq<u8> {
    let t = encode_utf8(e.event_type@);
    le_bytes(e.seq as nat, 8) + le_bytes(t.len(), 8) + t + value_encoding(e.payload) + le_bytes(
        e.ts as nat,
        8,
    )
}

/// The sequence number of a record.
pub open spec fn record_seq(r: Seq<u8>) -> nat {
    le_value(r.take(8))
}

/// Where the type name of a record ends.
pub open spec fn record_type_end(r: Seq<u8>) -> int {
    16 + le_value(r.subrange(8, 16)) as int
}

/// The UTF-8 bytes of a record's type name.
pub open spec fn record_type_bytes(r: Seq<u8>) -> Seq<u8> {
    r.subrange(16, record_type_end(r))
}

/// The bytes of a record's payload.
pub open spec fn record_payload(r: Seq<u8>) -> Seq<u8> {
    r.subrange(record_type_end(r), r.len() - 8)
}

/// The bytes hold an event record.
pub open spec fn record_is_event(r: Seq<u8>) -> bool {
    &&& r.len() >= 24
    &&& record_type_end(r) <= r.len() - 8
    &&& valid_utf8(record_type_bytes(r))
    &&& value_decoding(record_payload(r)) is Some
}

/// `e` is the event that the record `r` holds.
pub open spec fn event_of_record(e: Event, r: Seq<u8>) -> bool {
    &&& e.seq == record_seq(r)
    &&& e.event_type@ == decode_utf8(record_type_bytes(r))
    &&& value_decoding(record_payload(r)) == Some(e.payload)
    &&& e.ts == le_value(r.skip(r.len() - 8))
}

/// Decoding the encoding of `v` gives `v` back.
pub open spec fn encodes_faithfully(v: TypedValue) -> bool {
    value_decoding(value_encoding(v)) == Some(v)
}

/// Two events agree in every field.
pub open spec fn same_event(a: Event, b: Event) -> bool {
    &&& a.seq == b.seq
    &&& a.event_type@ == b.event_type@
    &&& a.payload == b.payload
    &&& a.ts == b.ts
}

/// The record reads back as exactly the event `e`.
pub open spec fn reads_back_as(r: Seq<u8>, e: Event) -> bool {
    &&& record_is_event(r)
    &&& forall|x: Event| #[trigger] event_of_record(x, r) ==> same_event(x, e)
}

/// The log that appending the events `es` in turn to an empty log writes.
pub open spec fn log_of(es: Seq<Event>) -> Seq<u8> {
    frame_all(es.map_values(|e: Event| event_record(e)))
}

/// The one-line rendering of an event:
/// `[seq=<seq>, ts=<ts>, type=<type>] <payload>`.
pub open spec fn event_debug_text(e: Event) -> Seq<char> {
    "[seq="@ + decimal(e.seq as nat) + ", ts="@ + decimal(e.ts as nat) + ", type="@
        + e.event_type@ + "] "@ + value_debug_text(e.payload)
}

/// The rendering of the event that a record holds.
pub open spec fn record_debug_text(r: Seq<u8>) -> Seq<char> {
    "[seq="@ + decimal(record_seq(r)) + ", ts="@ + decimal(le_value(r.skip(r.len() - 8)))
        + ", type="@ + decode_utf8(record_type_bytes(r)) + "] "@ + value_debug_text(
        value_decoding(record_payload(r))->0,
    )
}

impl Event {
    /// The event in one human-readable line.
    pub fn to_debug_string(&self) -> (r: String)
        ensures
            r@ == event_debug_text(*self),
    {
        let mut out = String::from_str("[seq=");
        let seq = decimal_string(self.seq);
        out.append(seq.as_str());
        out.append(", ts=");
        let ts = decimal_string(self.ts);
        out.append(ts.as_str());
        out.append(", type=");
        out.append(self.event_type.as_str());
        out.append("] ");
        let payload = value_debug_string(&self.payload);
        out.append(payload.as_str());
        out
    }

    /// An event stamped with the current time.
    pub fn new(seq: u64, event_type: String, payload: TypedValue) -> (r: Self)
        ensures
            r.seq == seq,
            r.event_type == event_type,
            r.payload == payload,
    {
        let ts = now_millis();
        Event { seq, event_type, payload, ts }
    }

    /// The event's record, which reads back as the event.
    pub fn to_bytes(&self) -> (r: Result<Vec<u8>, JournalError>)
        ensures
            r matches Ok(b) && b@ == event_record(*self),
            encodes_faithfully(self.payload),
            reads_back_as(event_record(*self), *self),
    {
        let payload = encode_value(&self.payload).unwrap();
        let t = self.event_type.as_str().as_bytes();
        let tl = t.len() as u64;
        proof {
            lemma_pow256_values();
            assert(t@.len() == tl);
            lemma_event_record(*self);
        }
        let mut out: Vec<u8> = Vec::new();
        push_le(&mut out, self.seq, 8);
        push_le(&mut out, t.len() as u64, 8);
        push_bytes(&mut out, t);
        push_bytes(&mut out, payload.as_slice());
        push_le(&mut out, self.ts, 8);
        assert(out@ =~= event_record(*self));
        Ok(out)
    }

    /// The event that a record holds.
    pub fn from_bytes(bytes: &[u8]) -> (r: Result<Event, JournalError>)
        ensures
            r is Ok <==> record_is_event(bytes@),
            r matches Ok(e) ==> event_of_record(e, bytes@),
            r matches Err(e) ==> e == JournalError::Corrupt,
    {
        let len = bytes.len();
        if len < 24 {
            return Err(JournalError::Corrupt);
        }
        let type_len = read_le(bytes, 8, 8);
        assert(bytes@.subrange(8, 16) =~= bytes@.subrange(8 as int, 8 + 8 as int));
        if type_len > (len - 24) as u64 {
            return Err(JournalError::Corrupt);
        }
        let type_end = 16 + type_len as usize;
        let name = match utf8_string(copy_range(bytes, 16, type_end)) {
            Some(s) => s,
            None => {
                return Err(JournalError::Corrupt);
            },
        };
        let payload = match decode_value(slice_subrange(bytes, type_end, len - 8)) {
            Ok(v) => v,
            Err(_) => {
                return Err(JournalError::Corrupt);
            },
        };
        let seq = read_le(bytes, 0, 8);
        let ts = read_le(bytes, len - 8, 8);
        assert(bytes@.subrange(0, 8) =~= bytes@.take(8));
        assert(bytes@.subrange(len - 8, len - 8 + 8) =~= bytes@.skip(len - 8));
        Ok(Event { seq, event_type: name, payload, ts })
    }
}

/// Reading a record back gives the sequence number, type name and timestamp
/// of the event it was written from, and the payload that its encoding
/// decodes to.
pub proof fn lemma_event_record(e: Event)
    requires
        encode_utf8(e.event_type@).len() < pow256(8),
    ensures
        encodes_faithfully(e.payload) ==> reads_back_as(event_record(e), e),
        record_seq(event_record(e)) == e.seq,
        event_record(e).skip(event_record(e).len() - 8) == le_bytes(e.ts as nat, 8),
        le_value(event_record(e).skip(event_record(e).len() - 8)) == e.ts,
        record_type_bytes(event_record(e)) == encode_utf8(e.event_type@),
        decode_utf8(record_type_bytes(event_record(e))) == e.event_type@,
        valid_utf8(record_type_bytes(event_record(e))),
        record_payload(event_record(e)) == value_encoding(e.payload),
        event_record(e).len() >= 24,
        record_type_end(event_record(e)) <= event_record(e).len() - 8,
{
    let t = encode_utf8(e.event_type@);
    let p = value_encoding(e.payload);
    let r = event_record(e);
    lemma_pow256_values();
    lemma_pow256_mono(8, 8);
    lemma_le_round_trip(e.seq as nat, 8);
    lemma_le_round_trip(e.ts as nat, 8);
    lemma_le_bytes_len(e.seq as nat, 8);
    lemma_le_bytes_len(t.len(), 8);
    lemma_le_bytes_len(e.ts as nat, 8);
    lemma_le_round_trip(t.len(), 8);
    assert(r.take(8) =~= le_bytes(e.seq as nat, 8));
    assert(r.subrange(8, 16) =~= le_bytes(t.len(), 8));
    assert(record_type_bytes(r) =~= t);
    assert(record_payload(r) =~= p);
    assert(r.skip(r.len() - 8) =~= le_bytes(e.ts as nat, 8));
    if encodes_faithfully(e.payload) {
        assert forall|x: Event| #[trigger] event_of_record(x, r) implies same_event(x, e) by {}
    }
}

/// Appending an event to a log that holds the events `es` gives the log
/// that holds `es` followed by that event.
pub proof fn lemma_log_of_push(es: Seq<Event>, e: Event)
    ensures
        log_of(es.push(e)) == log_of(es) + frame(event_record(e)),
{
    let f = |x: Event| event_record(x);
    assert(es.push(e).map_values(f) =~= es.map_values(f).push(event_record(e)));
    lemma_frame_all_push(es.map_values(f), event_record(e));
}

/// Appending events one after another to an empty log and reading the log
/// back gives one record per event, in the order of appending, and each
/// record reads back as exactly the event appended. Every successful append
/// establishes that the event's payload encodes faithfully.
pub proof fn lemma_append_then_read(es: Seq<Event>)
    requires
        forall|i: int| 0 <= i < es.len() ==> fits_frame(event_record(#[trigger] es[i])),
        forall|i: int| 0 <= i < es.len() ==> encodes_faithfully(#[trigger] es[i].payload),
    ensures
        parse_log(log_of(es)).len() == es.len(),
        log_is_events(log_of(es)),
        forall|i: int|
            0 <= i < es.len() ==> parse_log(log_of(es))[i] == event_record(#[trigger] es[i]),
        forall|evs: Seq<Event>, i: int|
            events_of_records(evs, parse_log(log_of(es))) && 0 <= i < es.len() ==> same_event(
                #[trigger] evs[i],
                es[i],
            ),
{
    let recs = es.map_values(|x: Event| event_record(x));
    assert forall|i: int| 0 <= i < recs.len() implies fits_frame(#[trigger] recs[i]) by {
        assert(recs[i] == event_record(es[i]));
    }
    lemma_parse_frame_all(recs);
    assert forall|i: int| 0 <= i < es.len() implies #[trigger] reads_back_as(
        event_record(es[i]),
        es[i],
    ) by {
        lemma_pow256_values();
        lemma_event_record(es[i]);
    }
    assert forall|evs: Seq<Event>, i: int|
        events_of_records(evs, parse_log(log_of(es))) && 0 <= i < es.len() implies same_event(
        #[trigger] evs[i],
        es[i],
    ) by {
        assert(reads_back_as(event_record(es[i]), es[i]));
        assert(event_of_record(evs[i], recs[i]));
    }
    assert forall|i: int| 0 <= i < parse_log(log_of(es)).len() implies record_is_event(
        #[trigger] parse_log(log_of(es))[i],
    ) by {
        assert(reads_back_as(event_record(es[i]), es[i]));
    }
}

/// A snapshot of an actor's state as of its event `seq`.
#[derive(Debug)]
pub struct Snapshot {
    /// The last event that the state reflects.
    pub seq: u64,
    /// The actor's state.
    pub state: TypedValue,
    /// Milliseconds since the Unix epoch.
    pub ts: u64,
}

/// The bytes of a snapshot file for the state at event `seq`, taken at `ts`.
pub open spec fn snapshot_layout(seq: u64, state: TypedValue, ts: u64) -> Seq<u8> {
    le_bytes(seq as nat, 8) + value_encoding(state) + le_bytes(ts as nat, 8)
}

/// The bytes of a snapshot file.
pub open spec fn snapshot_record(s: Snapshot) -> Seq<u8> {
    snapshot_layout(s.seq, s.state, s.ts)
}

/// The bytes of a snapshot file for the state at event `seq`, taken at `ts`.
pub(crate) fn snapshot_bytes(seq: u64, state: &TypedValue, ts: u64) -> (r: Result<
    Vec<u8>,
    JournalError,
>)
    ensures
        r matches Ok(b) && b@ == snapshot_layout(seq, *state, ts),
        encodes_faithfully(*state),
{
    let enc = encode_value(state).unwrap();
    let mut out: Vec<u8> = Vec::new();
    push_le(&mut out, seq, 8);
    push_bytes(&mut out, enc.as_slice());
    push_le(&mut out, ts, 8);
    assert(out@ =~= snapshot_layout(seq, *state, ts));
    Ok(out)
}

/// The bytes hold a snapshot.
pub open spec fn bytes_are_snapshot(b: Seq<u8>) -> bool {
    b.len() >= 16 && value_decoding(b.subrange(8, b.len() - 8)) is Some
}

/// The sequence number in the bytes of a snapshot file.
pub open spec fn snapshot_seq(b: Seq<u8>) -> nat {
    le_value(b.take(8))
}

/// The state in the bytes of a snapshot file, if they hold one.
pub open spec fn snapshot_state(b: Seq<u8>) -> Option<TypedValue> {
    value_decoding(b.subrange(8, b.len() - 8))
}

/// The bytes read back as exactly the snapshot `s`.
pub open spec fn snapshot_reads_back_as(b: Seq<u8>, s: Snapshot) -> bool {
    &&& bytes_are_snapshot(b)
    &&& forall|t: Snapshot|
        #[trigger] snapshot_of_bytes(t, b) ==> t.seq == s.seq && t.state == s.state && t.ts
            == s.ts
}

/// `s` is the snapshot that the bytes `b` hold.
pub open spec fn snapshot_of_bytes(s: Snapshot, b: Seq<u8>) -> bool {
    &&& s.seq == snapshot_seq(b)
    &&& snapshot_state(b) == Some(s.state)
    &&& s.ts == le_value(b.skip(b.len() - 8))
}

impl Snapshot {
    /// The snapshot's bytes, which read back as the snapshot.
    pub fn to_bytes(&self) -> (r: Result<Vec<u8>, JournalError>)
        ensures
            r matches Ok(b) && b@ == snapshot_record(*self),
            snapshot_reads_back_as(snapshot_record(*self), *self),
    {
        let r = snapshot_bytes(self.seq, &self.state, self.ts);
        proof {
            lemma_snapshot_round_trip(*self);
        }
        r
    }

    /// The snapshot that the bytes hold.
    pub fn from_bytes(bytes: &[u8]) -> (r: Result<Snapshot, JournalError>)
        ensures
            r is Ok <==> bytes_are_snapshot(bytes@),
            r matches Ok(s) ==> snapshot_of_bytes(s, bytes@),
            r matches Err(e) ==> e == JournalError::Corrupt,
    {
        let len = bytes.len();
        if len < 16 {
            return Err(JournalError::Corrupt);
        }
        let state = match decode_value(slice_subrange(bytes, 8, len - 8)) {
            Ok(v) => v,
            Err(_) => {
                return Err(JournalError::Corrupt);
            },
        };
        let seq = read_le(bytes, 0, 8);
        let ts = read_le(bytes, len - 8, 8);
        assert(bytes@.subrange(0, 8) =~= bytes@.take(8));
        assert(bytes@.subrange(len - 8, len - 8 + 8) =~= bytes@.skip(len - 8));
        Ok(Snapshot { seq, state, ts })
    }
}

/// Saving a snapshot and loading it back gives exactly that snapshot, where
/// its state encodes faithfully, as every successful save establishes.
pub proof fn lemma_snapshot_round_trip(s: Snapshot)
    ensures
        encodes_faithfully(s.state) ==> snapshot_reads_back_as(snapshot_record(s), s),
{
    let r = snapshot_record(s);
    lemma_pow256_values();
    lemma_le_round_trip(s.seq as nat, 8);
    lemma_le_round_trip(s.ts as nat, 8);
    assert(r.take(8) =~= le_bytes(s.seq as nat, 8));
    assert(r.subrange(8, r.len() - 8) =~= value_encoding(s.state));
    assert(r.skip(r.len() - 8) =~= le_bytes(s.ts as nat, 8));
    if encodes_faithfully(s.state) {
        assert forall|t: Snapshot| #[trigger] snapshot_of_bytes(t, r) implies t.seq == s.seq
            && t.state == s.state && t.ts == s.ts by {}
    }
}

/// Every record of the log holds an event.
pub open spec fn log_is_events(b: Seq<u8>) -> bool {
    forall|i: int| 0 <= i < parse_log(b).len() ==> record_is_event(#[trigger] parse_log(b)[i])
}

/// `evs` are the events that the records `recs` hold, in the same order.
pub open spec fn events_of_records(evs: Seq<Event>, recs: Seq<Seq<u8>>) -> bool {
    &&& evs.len() == recs.len()
    &&& forall|i: int| 0 <= i < recs.len() ==> event_of_record(#[trigger] evs[i], recs[i])
}

/// The records of an actor's log; no log holds none.
pub open spec fn log_records_of(log: Option<&[u8]>) -> Seq<Seq<u8>> {
    match log {
        None => Seq::empty(),
        Some(b) => parse_log(b@),
    }
}

/// Every record of the actor's log holds an event; no log is readable.
pub open spec fn log_readable_bytes(log: Option<&[u8]>) -> bool {
    match log {
        None => true,
        Some(b) => log_is_events(b@),
    }
}

/// The records whose sequence number is above `k`, in order.
pub open spec fn records_after(recs: Seq<Seq<u8>>, k: u64) -> Seq<Seq<u8>> {
    recs.filter(|r: Seq<u8>| record_seq(r) > k)
}

/// Reading after a threshold below every record's sequence number keeps
/// every record; at or above every sequence number, none.
pub proof fn lemma_records_after_bounds(recs: Seq<Seq<u8>>, k: u64)
    ensures
        (forall|i: int| 0 <= i < recs.len() ==> record_seq(#[trigger] recs[i]) > k)
            ==> records_after(recs, k) == recs,
        (forall|i: int| 0 <= i < recs.len() ==> record_seq(#[trigger] recs[i]) <= k)
            ==> records_after(recs, k).len() == 0,
    decreases recs.len(),
{
    reveal(Seq::filter);
    if recs.len() > 0 {
        let init = recs.drop_last();
        lemma_records_after_bounds(init, k);
        if forall|i: int| 0 <= i < recs.len() ==> record_seq(#[trigger] recs[i]) > k {
            assert forall|i: int| 0 <= i < init.len() implies record_seq(#[trigger] init[i]) > k by {
                assert(init[i] == recs[i]);
            }
            assert(records_after(recs, k) =~= init.push(recs.last()));
            assert(init.push(recs.last()) =~= recs);
        }
        if forall|i: int| 0 <= i < recs.len() ==> record_seq(#[trigger] recs[i]) <= k {
            assert forall|i: int| 0 <= i < init.len() implies record_seq(#[trigger] init[i]) <= k by {
                assert(init[i] == recs[i]);
            }
            assert(record_seq(recs[recs.len() - 1]) <= k);
        }
    }
}

/// The events of a log, read from its start.
fn read_log(b: &[u8]) -> (r: Result<Vec<Event>, JournalError>)
    ensures
        r is Ok <==> log_is_events(b@),
        r matches Ok(v) ==> events_of_records(v@, parse_log(b@)),
        r matches Err(e) ==> e == JournalError::Corrupt,
{
    let len = b.len();
    let mut pos: usize = 0;
    let mut out: Vec<Event> = Vec::new();
    let ghost mut recs: Seq<Seq<u8>> = Seq::empty();
    assert(b@.skip(0) =~= b@);
    assert(Seq::<Seq<u8>>::empty() + parse_log(b@) =~= parse_log(b@));
    loop
        invariant
            pos <= len,
            len == b@.len(),
            parse_log(b@) == recs + parse_log(b@.skip(pos as int)),
            forall|i: int| 0 <= i < recs.len() ==> record_is_event(#[trigger] recs[i]),
            events_of_records(out@, recs),
        ensures
            parse_log(b@) == recs,
            forall|i: int| 0 <= i < recs.len() ==> record_is_event(#[trigger] recs[i]),
            events_of_records(out@, recs),
        decreases len - pos,
    {
        let ghost rest = b@.skip(pos as int);
        if len - pos < 4 {
            assert(parse_log(rest) == Seq::<Seq<u8>>::empty());
            assert(recs + Seq::<Seq<u8>>::empty() =~= recs);
            break ;
        }
        let n = read_le(b, pos, 4);
        assert(rest.take(4) =~= b@.subrange(pos as int, pos + 4));
        if ((len - pos - 4) as u64) < n {
            assert(parse_log(rest) == Seq::<Seq<u8>>::empty());
            assert(recs + Seq::<Seq<u8>>::empty() =~= recs);
            break ;
        }
        let end = pos + 4 + n as usize;
        let rec = slice_subrange(b, pos + 4, end);
        assert(rest.subrange(4, 4 + n) =~= rec@);
        assert(rest.skip(4 + n) =~= b@.skip(end as int));
        assert(parse_log(rest) == seq![rec@] + parse_log(b@.skip(end as int)));
        match Event::from_bytes(rec) {
            Ok(e) => {
                out.push(e);
                proof {
                    assert(recs + (seq![rec@] + parse_log(b@.skip(end as int))) =~= recs.push(rec@)
                        + parse_log(b@.skip(end as int)));
                    recs = recs.push(rec@);
                }
                pos = end;
            },
            Err(e) => {
                assert(parse_log(b@)[recs.len() as int] == rec@);
                return Err(e);
            },
        }
    }
    Ok(out)
}

/// The journal of every actor under one base directory. An actor's files
/// stand in `<base>/<actor id>/`: the event log `journal.bin` and the
/// snapshot `snapshot.bin`.
pub struct Journal {
    base_path: String,
}

impl Journal {
    pub closed spec fn base(&self) -> Seq<char> {
        self.base_path@
    }

    /// A journal under the given base directory.
    pub fn new(base_path: String) -> (r: Self)
        ensures
            r.base() == base_path@,
    {
        Journal { base_path }
    }

    /// The directory of an actor's files.
    pub fn actor_dir(&self, actor_id: &ActorId) -> (r: String)
        ensures
            r@ == self.base() + "/"@ + crate::actor::uuid_text(actor_id.0),
    {
        let mut dir = self.base_path.clone();
        dir.append("/");
        let id = actor_id.as_str();
        dir.append(id.as_str());
        dir
    }

    /// The path of an actor's event log.
    pub fn journal_path(&self, actor_id: &ActorId) -> (r: String)
        ensures
            r@ == self.base() + "/"@ + crate::actor::uuid_text(actor_id.0) + "/journal.bin"@,
    {
        let mut p = self.actor_dir(actor_id);
        p.append("/journal.bin");
        p
    }

    /// The path of an actor's snapshot.
    pub fn snapshot_path(&self, actor_id: &ActorId) -> (r: String)
        ensures
            r@ == self.base() + "/"@ + crate::actor::uuid_text(actor_id.0) + "/snapshot.bin"@,
    {
        let mut p = self.actor_dir(actor_id);
        p.append("/snapshot.bin");
        p
    }

    /// The length of the whole records at the start of an actor's log: a
    /// tail beyond it is a write that was cut off.
    pub fn intact_len(&self, log: &[u8]) -> (r: usize)
        ensures
            r == intact_len(log@),
            r <= log@.len(),
    {
        proof {
            crate::codec::lemma_intact(log@);
        }
        whole_records_len(log)
    }

    /// Appends the event to the actor's log, whose bytes are `log`: a tail
    /// that a cut-off write left is dropped, then the event's record follows
    /// with its length prefix. The log then reads as the records it held
    /// followed by the event, which reads back exactly. Appending fails only
    /// where the record is too long for its prefix, and leaves the log as it
    /// was.
    pub fn append(&self, log: &mut Vec<u8>, event: &Event) -> (r: Result<(), JournalError>)
        ensures
            r is Ok <==> fits_frame(event_record(*event)),
            r is Ok ==> final(log)@ == old(log)@.take(intact_len(old(log)@) as int) + frame(
                event_record(*event),
            ),
            r is Ok ==> parse_log(final(log)@) == parse_log(old(log)@).push(event_record(*event)),
            r is Ok ==> log_is_events(old(log)@) ==> log_is_events(final(log)@),
            reads_back_as(event_record(*event), *event),
            encodes_faithfully(event.payload),
            r matches Err(e) ==> e == JournalError::RecordTooLarge && final(log)@ == old(log)@,
    {
        let data = event.to_bytes().unwrap();
        proof {
            lemma_pow256_values();
        }
        if data.len() as u64 >= 0x1_0000_0000u64 {
            return Err(JournalError::RecordTooLarge);
        }
        let keep = self.intact_len(log.as_slice());
        log.truncate(keep);
        push_le(log, data.len() as u64, 4);
        push_bytes(log, data.as_slice());
        proof {
            let rec = event_record(*event);
            assert(final(log)@ =~= old(log)@.take(intact_len(old(log)@) as int) + frame(rec));
            lemma_append_after_intact(old(log)@, rec);
            let p = parse_log(final(log)@);
            if log_is_events(old(log)@) {
                assert forall|i: int| 0 <= i < p.len() implies record_is_event(#[trigger] p[i]) by {
                    if i < parse_log(old(log)@).len() {
                        assert(p[i] == parse_log(old(log)@)[i]);
                    } else {
                        assert(p[i] == rec);
                    }
                }
            }
        }
        Ok(())
    }

    /// The events of an actor's log, in the order they were appended; no log
    /// means no events. A record that does not hold an event fails the read.
    pub fn read_events(&self, log: Option<&[u8]>) -> (r: Result<Vec<Event>, JournalError>)
        ensures
            match log {
                None => r matches Ok(v) && v@.len() == 0,
                Some(b) => {
                    &&& r is Ok <==> log_is_events(b@)
                    &&& r matches Ok(v) ==> events_of_records(v@, parse_log(b@))
                    &&& r matches Err(e) ==> e == JournalError::Corrupt
                },
            },
    {
        match log {
            None => Ok(Vec::new()),
            Some(b) => read_log(b),
        }
    }

    /// The events of an actor's log whose sequence number is above
    /// `after_seq`, in order.
    pub fn read_events_after(&self, log: Option<&[u8]>, after_seq: u64) -> (r: Result<
        Vec<Event>,
        JournalError,
    >)
        ensures
            match log {
                None => r matches Ok(v) && v@.len() == 0,
                Some(b) => {
                    &&& r is Ok <==> log_is_events(b@)
                    &&& r matches Ok(v) ==> events_of_records(
                        v@,
                        records_after(parse_log(b@), after_seq),
                    )
                    &&& r matches Err(e) ==> e == JournalError::Corrupt
                },
            },
    {
        let b = match log {
            None => {
                return Ok(Vec::new());
            },
            Some(b) => b,
        };
        let mut all = match read_log(b) {
            Ok(v) => v,
            Err(e) => {
                return Err(e);
            },
        };
        let ghost recs = parse_log(b@);
        let ghost orig = all@;
        let mut out: Vec<Event> = Vec::new();
        let mut i: usize = 0;
        let n = all.len();
        while i < n
            invariant
                n == orig.len() == recs.len(),
                i <= n,
                all@ == orig.skip(i as int),
                events_of_records(orig, recs),
                events_of_records(out@, records_after(recs.take(i as int), after_seq)),
            decreases n - i,
        {
            let e = all.remove(0);
            assert(e == orig[i as int]);
            let ghost pred = |r: Seq<u8>| record_seq(r) > after_seq;
            assert(recs.take(i + 1).drop_last() =~= recs.take(i as int));
            assert(recs.take(i + 1).last() == recs[i as int]);
            proof {
                reveal(Seq::filter);
            }
            assert(records_after(recs.take(i + 1), after_seq) == if pred(recs[i as int]) {
                records_after(recs.take(i as int), after_seq).push(recs[i as int])
            } else {
                records_after(recs.take(i as int), after_seq)
            });
            if e.seq > after_seq {
                out.push(e);
            }
            i = i + 1;
            assert(all@ =~= orig.skip(i as int));
        }
        assert(recs.take(n as int) =~= recs);
        Ok(out)
    }

    /// The bytes of the snapshot file, which replace the file whole and read
    /// back as the snapshot.
    pub fn save_snapshot(&self, snapshot: &Snapshot) -> (r: Result<Vec<u8>, JournalError>)
        ensures
            r matches Ok(b) && b@ == snapshot_record(*snapshot),
            snapshot_reads_back_as(snapshot_record(*snapshot), *snapshot),
    {
        snapshot.to_bytes()
    }

    /// The snapshot in an actor's snapshot file; no file means no snapshot.
    pub fn load_snapshot(&self, data: Option<&[u8]>) -> (r: Result<Option<Snapshot>, JournalError>)
        ensures
            match data {
                None => r matches Ok(s) && s is None,
                Some(b) => {
                    &&& r is Ok <==> bytes_are_snapshot(b@)
                    &&& r matches Ok(s) ==> s matches Some(t) && snapshot_of_bytes(t, b@)
                    &&& r matches Err(e) ==> e == JournalError::Corrupt
                },
            },
    {
        match data {
            None => Ok(None),
            Some(b) => match Snapshot::from_bytes(b) {
                Ok(s) => Ok(Some(s)),
                Err(e) => Err(e),
            },
        }
    }

    /// The events of an actor's log, one human-readable line each.
    pub fn dump_debug(&self, log: Option<&[u8]>) -> (r: Result<Vec<String>, JournalError>)
        ensures
            r is Ok <==> log_readable_bytes(log),
            r matches Ok(v) ==> {
                &&& v@.len() == log_records_of(log).len()
                &&& forall|i: int|
                    0 <= i < v@.len() ==> #[trigger] v@[i]@ == record_debug_text(
                        log_records_of(log)[i],
                    )
            },
            r matches Err(e) ==> e == JournalError::Corrupt,
    {
        let events = match self.read_events(log) {
            Ok(v) => v,
            Err(e) => {
                return Err(e);
            },
        };
        let ghost recs = log_records_of(log);
        let mut out: Vec<String> = Vec::new();
        let mut i: usize = 0;
        while i < events.len()
            invariant
                i <= events@.len(),
                events_of_records(events@, recs),
                out@.len() == i,
                forall|j: int| 0 <= j < i ==> #[trigger] out@[j]@ == record_debug_text(recs[j]),
            decreases events@.len() - i,
        {
            let line = events[i].to_debug_string();
            assert(event_of_record(events@[i as int], recs[i as int]));
            out.push(line);
            i = i + 1;
        }
        Ok(out)
    }
}

} // verus!
