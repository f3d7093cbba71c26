use seq_actors::{ActorId, Event, Journal, JournalError, MapKey, Snapshot, TypedValue};
use std::collections::BTreeMap;

fn journal() -> Journal {
    Journal::new("journal-base".to_string())
}

fn amount(n: i64) -> TypedValue {
    let mut m = BTreeMap::new();
    m.insert(MapKey::String("amount".to_string()), TypedValue::Int(n));
    TypedValue::Map(m)
}

#[test]
fn test_append_and_read_events() {
    let journal = journal();
    let mut log: Vec<u8> = Vec::new();

    let event1 = Event::new(0, "Deposit".to_string(), amount(100));
    let event2 = Event::new(1, "Withdraw".to_string(), amount(50));

    journal.append(&mut log, &event1).unwrap();
    journal.append(&mut log, &event2).unwrap();

    let events = journal.read_events(Some(&log)).unwrap();
    assert_eq!(events.len(), 2);
    assert_eq!(events[0].event_type, "Deposit");
    assert_eq!(events[1].event_type, "Withdraw");
}

#[test]
fn test_read_events_after() {
    let journal = journal();
    let mut log: Vec<u8> = Vec::new();

    for i in 0..5 {
        let event = Event::new(i, format!("Event{}", i), TypedValue::Int(i as i64));
        journal.append(&mut log, &event).unwrap();
    }

    let events = journal.read_events_after(Some(&log), 2).unwrap();
    assert_eq!(events.len(), 2);
    assert_eq!(events[0].seq, 3);
    assert_eq!(events[1].seq, 4);
}

#[test]
fn test_snapshot() {
    let journal = journal();

    let mut state = BTreeMap::new();
    state.insert(MapKey::String("balance".to_string()), TypedValue::Int(500));

    let snapshot = Snapshot { seq: 10, state: TypedValue::Map(state), ts: 1234567890 };

    let bytes = journal.save_snapshot(&snapshot).unwrap();

    let loaded = journal.load_snapshot(Some(&bytes)).unwrap().unwrap();
    assert_eq!(loaded.seq, 10);
    if let TypedValue::Map(m) = &loaded.state {
        assert_eq!(m.get(&MapKey::String("balance".to_string())), Some(&TypedValue::Int(500)));
    } else {
        panic!("Expected Map");
    }
}

#[test]
fn test_nonexistent_actor() {
    let journal = journal();
    assert_eq!(journal.read_events(None).unwrap().len(), 0);
    assert!(journal.load_snapshot(None).unwrap().is_none());
    assert_eq!(journal.read_events_after(None, 0).unwrap().len(), 0);
    assert_eq!(journal.dump_debug(None).unwrap().len(), 0);
}

#[test]
fn test_debug_dump() {
    let journal = journal();
    let mut log: Vec<u8> = Vec::new();

    let event = Event::new(0, "Test".to_string(), TypedValue::String("data".to_string()));
    journal.append(&mut log, &event).unwrap();

    let debug = journal.dump_debug(Some(&log)).unwrap();
    assert_eq!(debug.len(), 1);
    assert!(debug[0].contains("Test"));
    assert!(debug[0].contains("\"data\""));
}

#[test]
fn debug_string_is_exact() {
    let event = Event { seq: 7, event_type: "Deposit".to_string(), payload: TypedValue::Int(100), ts: 1234 };
    assert_eq!(event.to_debug_string(), "[seq=7, ts=1234, type=Deposit] 100");
}

#[test]
fn append_writes_length_prefixed_record() {
    let journal = journal();
    let mut log: Vec<u8> = Vec::new();
    let event = Event { seq: 1, event_type: "T".to_string(), payload: TypedValue::Bool(true), ts: 2 };
    journal.append(&mut log, &event).unwrap();
    let record = event.to_bytes().unwrap();
    assert_eq!(log.len(), 4 + record.len());
    assert_eq!(&log[0..4], &(record.len() as u32).to_le_bytes());
    assert_eq!(&log[4..], &record[..]);
    // seq, type length, type name, payload, timestamp
    assert_eq!(&record[0..8], &1u64.to_le_bytes());
    assert_eq!(&record[8..16], &1u64.to_le_bytes());
    assert_eq!(record[16], b'T');
    assert_eq!(&record[record.len() - 8..], &2u64.to_le_bytes());
    assert_eq!(&record[17..record.len() - 8], &bincode::serialize(&TypedValue::Bool(true)).unwrap()[..]);
}

#[test]
fn append_then_read_keeps_order_and_content() {
    let journal = journal();
    let mut log: Vec<u8> = Vec::new();
    let mut nested = BTreeMap::new();
    nested.insert(MapKey::Int(3), TypedValue::Variant { tag: "Pair".to_string(), fields: vec![TypedValue::Float(1.5), TypedValue::String("x".to_string())] });
    nested.insert(MapKey::Bool(false), amount(9));
    let payloads = vec![TypedValue::Int(-1), TypedValue::Map(nested), TypedValue::Variant { tag: "None".to_string(), fields: vec![] }, TypedValue::Symbol("s".to_string())];
    for (i, p) in payloads.iter().enumerate() {
        let e = Event { seq: i as u64, event_type: format!("E{}", i), payload: p.clone(), ts: 100 + i as u64 };
        journal.append(&mut log, &e).unwrap();
    }
    let events = journal.read_events(Some(&log)).unwrap();
    assert_eq!(events.len(), payloads.len());
    for (i, e) in events.iter().enumerate() {
        assert_eq!(e.seq, i as u64);
        assert_eq!(e.event_type, format!("E{}", i));
        assert_eq!(e.payload, payloads[i]);
        assert_eq!(e.ts, 100 + i as u64);
    }
}

#[test]
fn read_events_after_across_thresholds() {
    let journal = journal();
    let mut log: Vec<u8> = Vec::new();
    for i in 0..5u64 {
        let e = Event { seq: i, event_type: "E".to_string(), payload: TypedValue::Int(i as i64), ts: 0 };
        journal.append(&mut log, &e).unwrap();
    }
    for k in 0..7u64 {
        let seqs: Vec<u64> = journal.read_events_after(Some(&log), k).unwrap().iter().map(|e| e.seq).collect();
        let expected: Vec<u64> = (0..5u64).filter(|s| *s > k).collect();
        assert_eq!(seqs, expected);
    }
    assert_eq!(journal.read_events_after(Some(&log), u64::MAX).unwrap().len(), 0);
}

#[test]
fn scenario_deposit_withdraw() {
    let journal = journal();
    let mut log: Vec<u8> = Vec::new();
    let e0 = Event { seq: 0, event_type: "Deposit".to_string(), payload: amount(100), ts: 1 };
    let e1 = Event { seq: 1, event_type: "Withdraw".to_string(), payload: amount(50), ts: 2 };
    journal.append(&mut log, &e0).unwrap();
    journal.append(&mut log, &e1).unwrap();
    let all = journal.read_events(Some(&log)).unwrap();
    assert_eq!(all.len(), 2);
    assert_eq!(all[0].event_type, "Deposit");
    assert_eq!(all[0].payload, amount(100));
    assert_eq!(all[1].event_type, "Withdraw");
    assert_eq!(all[1].payload, amount(50));
    let after = journal.read_events_after(Some(&log), 0).unwrap();
    assert_eq!(after.len(), 1);
    assert_eq!(after[0].event_type, "Withdraw");
    assert_eq!(after[0].seq, 1);
}

#[test]
fn snapshot_round_trip_is_exact() {
    let journal = journal();
    let mut state = BTreeMap::new();
    state.insert(MapKey::String("balance".to_string()), TypedValue::Int(500));
    let s = Snapshot { seq: 10, state: TypedValue::Map(state.clone()), ts: 77 };
    let bytes = journal.save_snapshot(&s).unwrap();
    let loaded = journal.load_snapshot(Some(&bytes)).unwrap().unwrap();
    assert_eq!(loaded.seq, 10);
    assert_eq!(loaded.ts, 77);
    assert_eq!(loaded.state, TypedValue::Map(state));
}

#[test]
fn torn_tail_keeps_earlier_records() {
    let journal = journal();
    let mut log: Vec<u8> = Vec::new();
    for i in 0..3u64 {
        let e = Event { seq: i, event_type: "E".to_string(), payload: TypedValue::Int(1), ts: 0 };
        journal.append(&mut log, &e).unwrap();
    }
    let full = log.len();
    let one = full / 3;
    // a prefix cut short, then a payload cut short
    for cut in [full - 1, full - one + 2, full - one + 6] {
        let events = journal.read_events(Some(&log[..cut])).unwrap();
        assert_eq!(events.len(), 2);
        assert_eq!(events[1].seq, 1);
    }
    assert_eq!(journal.read_events(Some(&log[..3])).unwrap().len(), 0);
}

#[test]
fn corrupt_record_is_an_error() {
    let journal = journal();
    let mut log: Vec<u8> = vec![5, 0, 0, 0, 1, 2, 3, 4, 5];
    assert_eq!(journal.read_events(Some(&log)).err(), Some(JournalError::Corrupt));
    log.clear();
    let e = Event { seq: 0, event_type: "E".to_string(), payload: TypedValue::Int(1), ts: 0 };
    journal.append(&mut log, &e).unwrap();
    // make the type name invalid UTF-8
    log[4 + 16] = 0xff;
    assert_eq!(journal.read_events(Some(&log)).err(), Some(JournalError::Corrupt));
    assert_eq!(journal.load_snapshot(Some(&[1, 2, 3])).err(), Some(JournalError::Corrupt));
}

#[test]
fn event_bytes_round_trip() {
    let e = Event { seq: 42, event_type: "Größe".to_string(), payload: amount(3), ts: 9 };
    let b = e.to_bytes().unwrap();
    let d = Event::from_bytes(&b).unwrap();
    assert_eq!(d.seq, 42);
    assert_eq!(d.event_type, "Größe");
    assert_eq!(d.payload, amount(3));
    assert_eq!(d.ts, 9);
}

#[test]
fn map_encoding_is_canonical() {
    let mut a = BTreeMap::new();
    a.insert(MapKey::String("b".to_string()), TypedValue::Int(2));
    a.insert(MapKey::Int(1), TypedValue::Bool(true));
    a.insert(MapKey::String("a".to_string()), TypedValue::Int(1));
    let mut b = BTreeMap::new();
    b.insert(MapKey::String("a".to_string()), TypedValue::Int(1));
    b.insert(MapKey::Int(1), TypedValue::Bool(true));
    b.insert(MapKey::String("b".to_string()), TypedValue::Int(2));
    let sa = Snapshot { seq: 1, state: TypedValue::Map(a), ts: 0 };
    let sb = Snapshot { seq: 1, state: TypedValue::Map(b), ts: 0 };
    assert_eq!(sa.to_bytes().unwrap(), sb.to_bytes().unwrap());
}

#[test]
fn value_round_trip_through_runtime_codec() {
    let mut inner = BTreeMap::new();
    inner.insert(MapKey::Bool(true), TypedValue::Variant { tag: "V".to_string(), fields: vec![TypedValue::Int(1), TypedValue::Float(-2.25)] });
    let v = TypedValue::Variant { tag: "Outer".to_string(), fields: vec![TypedValue::Map(inner), TypedValue::String("s".to_string())] };
    let bytes = v.to_bytes().unwrap();
    assert_eq!(TypedValue::from_bytes(&bytes).unwrap(), v);
}

#[test]
fn to_map_key_accepts_only_scalar_keys() {
    assert_eq!(TypedValue::Int(1).to_map_key().unwrap(), MapKey::Int(1));
    assert_eq!(TypedValue::Bool(true).to_map_key().unwrap(), MapKey::Bool(true));
    assert_eq!(TypedValue::String("k".to_string()).to_map_key().unwrap(), MapKey::String("k".to_string()));
    assert!(matches!(TypedValue::Float(1.0).to_map_key(), Err(seq_actors::SerializeError::InvalidData(_))));
    assert!(matches!(TypedValue::Map(BTreeMap::new()).to_map_key(), Err(seq_actors::SerializeError::InvalidData(_))));
    assert!(matches!(TypedValue::Variant { tag: "t".to_string(), fields: vec![] }.to_map_key(), Err(seq_actors::SerializeError::InvalidData(_))));
}

#[test]
fn journal_paths() {
    let journal = Journal::new("base".to_string());
    let id = ActorId::from_uuid(0x0123_4567_89ab_cdef_0011_2233_4455_6677);
    assert_eq!(journal.actor_dir(&id), "base/01234567-89ab-cdef-0011-223344556677");
    assert_eq!(journal.journal_path(&id), "base/01234567-89ab-cdef-0011-223344556677/journal.bin");
    assert_eq!(journal.snapshot_path(&id), "base/01234567-89ab-cdef-0011-223344556677/snapshot.bin");
}

#[test]
fn event_bytes_match_bincode_struct_layout() {
    let e = Event { seq: 5, event_type: "Deposit".to_string(), payload: amount(100), ts: 123456 };
    let expected = bincode::serialize(&(5u64, "Deposit".to_string(), amount(100), 123456u64)).unwrap();
    assert_eq!(e.to_bytes().unwrap(), expected);
}

#[test]
fn snapshot_bytes_match_bincode_struct_layout() {
    let s = Snapshot { seq: 10, state: amount(500), ts: 77 };
    let expected = bincode::serialize(&(10u64, amount(500), 77u64)).unwrap();
    assert_eq!(s.to_bytes().unwrap(), expected);
}

#[test]
fn append_after_torn_tail_keeps_every_record() {
    let journal = journal();
    let mut log: Vec<u8> = Vec::new();
    for i in 0..2u64 {
        let e = Event { seq: i, event_type: "E".to_string(), payload: TypedValue::Int(i as i64), ts: 0 };
        journal.append(&mut log, &e).unwrap();
    }
    let whole = log.len();
    assert_eq!(journal.intact_len(&log), whole);
    // a third append cut off part way
    let third = Event { seq: 2, event_type: "E".to_string(), payload: TypedValue::Int(2), ts: 0 };
    let mut partial = Vec::new();
    journal.append(&mut partial, &third).unwrap();
    log.extend_from_slice(&partial[..partial.len() - 3]);
    assert_eq!(journal.intact_len(&log), whole);
    journal.append(&mut log, &third).unwrap();
    let events = journal.read_events(Some(&log)).unwrap();
    let seqs: Vec<u64> = events.iter().map(|e| e.seq).collect();
    assert_eq!(seqs, vec![0, 1, 2]);
    assert_eq!(events[2].payload, TypedValue::Int(2));
}
