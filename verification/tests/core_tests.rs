//! The parts of the engine one by one: byte strings, the cache of previous
//! values, batches, the ledger, the delegate and the endpoint.

use cdc_core::batch::pack_batches;
use cdc_core::bytes::{bytes_eq, bytes_lt, copy_bytes};
use cdc_core::classify::Ledger;
use cdc_core::delegate::{Delegate, DelegateState, RegionEpoch};
use cdc_core::downstream::{Downstream, KeyApi};
use cdc_core::endpoint::{Endpoint, RegionInfo, SubscribeRequest, Version};
use cdc_core::event::{DataChange, Delivery, ErrorKind, Event, LogKind, Op};
use cdc_core::old_value::OldValueCache;
use cdc_core::outbox::{batch_events, recipients, take_events, Batch};
use cdc_core::record::{LockKind, LockRecord, Mutation, RawWrite, WriteKind, WriteRecord};
use cdc_core::resolver::TrackedLock;
use cdc_core::vecs::reversed;

fn epoch() -> RegionEpoch {
    RegionEpoch { conf_ver: 1, version: 1 }
}

fn downstream(id: u64, start: &[u8], end: &[u8]) -> Downstream {
    Downstream {
        id,
        request_id: id,
        start_key: start.to_vec(),
        end_key: end.to_vec(),
        checkpoint_ts: 0,
        read_old_value: false,
        filter_loop: false,
        key_api: KeyApi::Txn,
        initialized: false,
        join_pos: 0,
    }
}

fn lock(key: &[u8], value: &[u8], start_ts: u64) -> Mutation {
    Mutation::Lock(LockRecord {
        kind: LockKind::Put,
        key: key.to_vec(),
        start_ts,
        for_update_ts: 0,
        value: value.to_vec(),
        txn_source: 0,
        old_value: None,
    })
}

fn write(kind: WriteKind, key: &[u8], value: &[u8], start_ts: u64, commit_ts: u64) -> Mutation {
    Mutation::Write(WriteRecord {
        kind,
        key: key.to_vec(),
        start_ts,
        commit_ts,
        value: value.to_vec(),
        overlapped_rollback: false,
        gc_fence: None,
        txn_source: 0,
        old_value: None,
    })
}

fn row(key: &[u8], value_len: usize) -> DataChange {
    DataChange {
        kind: LogKind::Committed,
        op: Op::Put,
        key: key.to_vec(),
        value: vec![7; value_len],
        old_value: Vec::new(),
        start_ts: 1,
        commit_ts: 2,
    }
}

fn kinds(out: &[Delivery]) -> Vec<(u64, LogKind, Vec<u8>)> {
    out.iter()
        .filter_map(|d| match &d.event {
            Event::Change(r) => Some((d.downstream, r.kind, r.key.clone())),
            _ => None,
        })
        .collect()
}

fn request(region_id: u64, request_id: u64) -> SubscribeRequest {
    SubscribeRequest {
        cluster_id: 1,
        version: Version { major: 6, minor: 0, patch: 0 },
        region_id,
        region_epoch: epoch(),
        request_id,
        checkpoint_ts: 0,
        start_key: Vec::new(),
        end_key: Vec::new(),
        read_old_value: false,
        filter_loop: false,
        key_api: KeyApi::Txn,
    }
}

fn leader() -> RegionInfo {
    RegionInfo { epoch: epoch(), is_leader: true, leader_hint: 1 }
}

#[test]
fn byte_strings_are_ordered_like_words() {
    assert!(bytes_lt(b"", b"a"));
    assert!(!bytes_lt(b"", b""));
    assert!(!bytes_lt(b"a", b""));
    assert!(bytes_lt(b"a", b"ab"));
    assert!(bytes_lt(b"ab", b"b"));
    assert!(!bytes_lt(b"b", b"ab"));
    assert!(bytes_lt(&[0x7f], &[0x80]));
    assert!(!bytes_lt(b"key", b"key"));
    assert!(bytes_eq(b"key", b"key"));
    assert!(!bytes_eq(b"key", b"kez"));
    assert!(!bytes_eq(b"key", b"ke"));
    assert_eq!(copy_bytes(b"abc"), b"abc");
    assert_eq!(reversed(vec![1, 2, 3]), vec![3, 2, 1]);
    assert_eq!(reversed(Vec::<u8>::new()), Vec::<u8>::new());
}

#[test]
fn the_cache_counts_accesses_and_misses() {
    let mut cache = OldValueCache::new(4);
    assert_eq!((cache.access_count(), cache.miss_count(), cache.len()), (0, 0, 0));
    // No entry, and the caller read the value from storage: a miss.
    assert_eq!(cache.get_or_fetch(b"k", Some(b"v".to_vec())), b"v");
    assert_eq!((cache.access_count(), cache.miss_count(), cache.len()), (1, 1, 1));
    // The entry is there now: a hit, whatever the caller brings.
    assert_eq!(cache.get_or_fetch(b"k", Some(b"other".to_vec())), b"v");
    assert_eq!(cache.get_or_fetch(b"k", None), b"v");
    assert_eq!((cache.access_count(), cache.miss_count()), (3, 1));
    // No entry and no read: empty, and nothing is cached or counted as a miss.
    assert_eq!(cache.get_or_fetch(b"absent", None), b"");
    assert_eq!((cache.access_count(), cache.miss_count(), cache.len()), (4, 1, 1));
    assert!(!cache.contains(b"absent"));
    // A key without a previous value is cached as such.
    assert_eq!(cache.get_or_fetch(b"new", Some(Vec::new())), b"");
    assert!(cache.contains(b"new"));
    assert_eq!(cache.get_or_fetch(b"new", Some(b"x".to_vec())), b"");
    assert_eq!((cache.access_count(), cache.miss_count()), (6, 2));
    // A value that the transaction layer had at hand counts as a hit.
    cache.note_known(b"known", b"kv");
    assert_eq!((cache.access_count(), cache.miss_count()), (7, 2));
    assert_eq!(cache.get_or_fetch(b"known", None), b"kv");
    // A write refreshes the entry and counts as nothing.
    cache.refresh(b"k", b"v2");
    assert_eq!((cache.access_count(), cache.miss_count()), (8, 2));
    assert_eq!(cache.get_or_fetch(b"k", None), b"v2");
}

#[test]
fn the_least_recently_used_entry_makes_room() {
    let mut cache = OldValueCache::new(2);
    assert_eq!(cache.capacity(), 2);
    cache.refresh(b"a", b"1");
    cache.refresh(b"b", b"2");
    // `a` is used, so `b` is the least recently used.
    assert_eq!(cache.get_or_fetch(b"a", None), b"1");
    cache.refresh(b"c", b"3");
    assert_eq!(cache.len(), 2);
    assert!(cache.contains(b"a"));
    assert!(!cache.contains(b"b"));
    assert!(cache.contains(b"c"));
    // Refreshing an entry evicts nothing.
    cache.refresh(b"a", b"11");
    assert_eq!(cache.len(), 2);
    assert!(cache.contains(b"c"));
    // Eviction costs a hit, never the value.
    assert_eq!(cache.get_or_fetch(b"b", Some(b"2".to_vec())), b"2");
    assert_eq!(cache.miss_count(), 1);
}

#[test]
fn a_cache_without_room_holds_nothing() {
    let mut cache = OldValueCache::new(0);
    cache.refresh(b"a", b"1");
    assert_eq!(cache.len(), 0);
    assert_eq!(cache.get_or_fetch(b"a", Some(b"1".to_vec())), b"1");
    assert_eq!(cache.get_or_fetch(b"a", Some(b"1".to_vec())), b"1");
    assert_eq!((cache.access_count(), cache.miss_count(), cache.len()), (2, 2, 0));
}

#[test]
fn rows_fill_batches_up_to_the_limit() {
    // Keys of 1 byte: a row weighs 1 + the length of its value.
    let sizes = |batches: &Vec<Vec<DataChange>>| -> Vec<Vec<usize>> {
        batches.iter().map(|b| b.iter().map(|r| r.key.len() + r.value.len()).collect()).collect()
    };
    assert!(pack_batches(Vec::new(), 10).is_empty());
    let b = pack_batches(vec![row(b"a", 3), row(b"b", 3), row(b"c", 3)], 10);
    assert_eq!(sizes(&b), vec![vec![4, 4], vec![4]]);
    // Exactly the limit still fits.
    let b = pack_batches(vec![row(b"a", 4), row(b"b", 4)], 10);
    assert_eq!(sizes(&b), vec![vec![5, 5]]);
    let b = pack_batches(vec![row(b"a", 9)], 10);
    assert_eq!(sizes(&b), vec![vec![10]]);
    // A row over the limit travels alone, wherever it stands.
    let b = pack_batches(vec![row(b"a", 1), row(b"b", 20), row(b"c", 1), row(b"d", 1)], 10);
    assert_eq!(sizes(&b), vec![vec![2], vec![21], vec![2, 2]]);
    let keys: Vec<Vec<u8>> = b.iter().flatten().map(|r| r.key.clone()).collect();
    assert_eq!(keys, vec![b"a".to_vec(), b"b".to_vec(), b"c".to_vec(), b"d".to_vec()]);
    // With a limit of 0 every row that weighs something travels alone.
    let b = pack_batches(vec![row(b"a", 0), row(b"b", 0)], 0);
    assert_eq!(sizes(&b), vec![vec![1], vec![1]]);
    // The marker weighs nothing and joins the batch before it.
    let b = pack_batches(vec![row(b"a", 9), DataChange::initialized()], 10);
    assert_eq!(b.len(), 1);
    assert_eq!(b[0][1].kind, LogKind::Initialized);
}

#[test]
fn the_ledger_pairs_a_commit_with_its_prewrite() {
    let mut ledger = Ledger::new();
    let mut cache = OldValueCache::new(8);
    let e = ledger.classify(&lock(b"k", b"v", 10), false, None, &mut cache).unwrap();
    assert_eq!((e.row.kind, e.row.op, e.row.start_ts, e.row.commit_ts), (LogKind::Prewrite, Op::Put, 10, 0));
    assert_eq!((e.row.key.as_slice(), e.row.value.as_slice()), (&b"k"[..], &b"v"[..]));
    assert!(ledger.resolver().is_tracked(10, b"k"));
    // The commit bears the value of the prewrite, whatever the record holds.
    let e = ledger.classify(&write(WriteKind::Put, b"k", b"", 10, 15), false, None, &mut cache).unwrap();
    assert_eq!((e.row.kind, e.row.op, e.row.start_ts, e.row.commit_ts), (LogKind::Commit, Op::Put, 10, 15));
    assert_eq!((e.row.key.as_slice(), e.row.value.as_slice()), (&b"k"[..], &b"v"[..]));
    assert!(!ledger.resolver().is_tracked(10, b"k"));
    // The same write once more has no lock: it counts as committed in one phase.
    let e = ledger.classify(&write(WriteKind::Put, b"k", b"w", 10, 15), false, None, &mut cache).unwrap();
    assert_eq!(e.row.kind, LogKind::Committed);
    assert_eq!(e.row.value, b"w");
    // Nothing was asked of the cache.
    assert_eq!(cache.access_count(), 0);
}

#[test]
fn records_without_data_give_no_row() {
    let mut ledger = Ledger::new();
    let mut cache = OldValueCache::new(8);
    for kind in [LockKind::Lock, LockKind::Pessimistic] {
        let m = Mutation::Lock(LockRecord {
            kind,
            key: b"k".to_vec(),
            start_ts: 10,
            for_update_ts: 12,
            value: Vec::new(),
            txn_source: 0,
            old_value: None,
        });
        assert!(ledger.classify(&m, true, Some(b"x".to_vec()), &mut cache).is_none());
        assert!(Ledger::scanned_row(&m, true, 0).is_none());
    }
    assert!(ledger.classify(&write(WriteKind::Lock, b"k", b"", 10, 11), true, None, &mut cache).is_none());
    assert_eq!(ledger.resolver().lock_count(), 0);
    assert_eq!((cache.access_count(), cache.len()), (0, 0));
    // A rollback gives a row whether or not a lock is tracked.
    let e = ledger.classify(&write(WriteKind::Rollback, b"k", b"", 10, 0), true, None, &mut cache).unwrap();
    assert_eq!((e.row.kind, e.row.start_ts, e.row.commit_ts), (LogKind::Rollback, 10, 0));
    assert!(e.row.value.is_empty() && e.row.old_value.is_empty());
    assert_eq!(cache.access_count(), 0);
}

#[test]
fn scanned_versions_at_or_before_the_checkpoint_are_left_out() {
    let v = write(WriteKind::Put, b"k", b"v", 5, 8);
    assert!(Ledger::scanned_row(&v, false, 7).is_some());
    assert!(Ledger::scanned_row(&v, false, 8).is_none());
    assert!(Ledger::scanned_row(&v, false, 9).is_none());
    let fenced = |fence: Option<u64>| {
        Mutation::Write(WriteRecord {
            kind: WriteKind::Put,
            key: b"k".to_vec(),
            start_ts: 5,
            commit_ts: 8,
            value: b"v".to_vec(),
            overlapped_rollback: false,
            gc_fence: fence,
            txn_source: 0,
            old_value: Some(b"old".to_vec()),
        })
    };
    // Superseded after the checkpoint: still a change since then.
    let e = Ledger::scanned_row(&fenced(Some(20)), true, 7).unwrap();
    assert_eq!((e.row.kind, e.row.old_value.as_slice()), (LogKind::Committed, &b"old"[..]));
    // Without the wish for previous values none is reported.
    assert!(Ledger::scanned_row(&fenced(Some(20)), false, 7).unwrap().row.old_value.is_empty());
    // A fence of 0 marks the newest version.
    assert!(Ledger::scanned_row(&fenced(Some(0)), true, 7).is_some());
    assert!(Ledger::scanned_row(&write(WriteKind::Rollback, b"k", b"", 5, 0), true, 0).is_none());
    // Locks are reported whatever the checkpoint.
    assert_eq!(Ledger::scanned_row(&lock(b"k", b"v", 3), false, 100).unwrap().row.kind, LogKind::Prewrite);
    let raw = Mutation::Raw(RawWrite { op: Op::Delete, key: b"r".to_vec(), value: Vec::new(), ts: 9 });
    let e = Ledger::scanned_row(&raw, false, 8).unwrap();
    assert_eq!((e.row.kind, e.row.op, e.row.start_ts, e.row.commit_ts, e.raw), (LogKind::Committed, Op::Delete, 9, 9, true));
    assert!(Ledger::scanned_row(&raw, false, 9).is_none());
}

#[test]
fn live_changes_wait_for_the_first_scan_to_end() {
    let mut cache = OldValueCache::new(8);
    let mut d = Delegate::new(1, epoch());
    assert_eq!(d.state(), DelegateState::Pending);
    assert!(d.subscribe(downstream(1, b"", b"")));

    // A commit arrives before the scan has reported the lock.
    assert!(d.on_mutation(write(WriteKind::Put, b"k", b"v", 10, 15), None, &mut cache).is_empty());
    assert!(d.on_mutation(lock(b"k2", b"v2", 20), None, &mut cache).is_empty());
    // The scan finds the lock as it was when the scan began.
    let scanned = d.on_scan(1, &vec![lock(b"k", b"v", 10)]);
    assert_eq!(kinds(&scanned), vec![(1, LogKind::Prewrite, b"k".to_vec())]);
    assert_eq!(d.state(), DelegateState::Pending);
    assert!(d.ledger().resolver().is_tracked(10, b"k"));

    // The end of the scan replays what waited, in the order it came, and
    // the commit finds its lock.
    let finished = d.finish_scan(1, &mut cache);
    assert_eq!(
        kinds(&finished),
        vec![
            (1, LogKind::Commit, b"k".to_vec()),
            (1, LogKind::Prewrite, b"k2".to_vec()),
            (1, LogKind::Initialized, Vec::new()),
        ]
    );
    assert_eq!(d.state(), DelegateState::Initialized);
    assert!(!d.ledger().resolver().is_tracked(10, b"k"));
    assert!(d.ledger().resolver().is_tracked(20, b"k2"));

    // From now on changes go out as they arrive.
    let out = d.on_mutation(write(WriteKind::Put, b"k2", b"", 20, 25), None, &mut cache);
    assert_eq!(kinds(&out), vec![(1, LogKind::Commit, b"k2".to_vec())]);
    // A second end of the same scan sends nothing.
    assert!(d.finish_scan(1, &mut cache).is_empty());
    assert!(d.on_scan(1, &vec![lock(b"k3", b"v", 30)]).is_empty());
}

#[test]
fn a_later_subscriber_is_held_back_until_its_own_scan_ends() {
    let mut cache = OldValueCache::new(8);
    let mut d = Delegate::new(1, epoch());
    d.subscribe(downstream(1, b"", b""));
    assert!(d.on_mutation(lock(b"a", b"1", 10), None, &mut cache).is_empty());
    // The second subscriber joins after one change was buffered: its own
    // scan covers that change.
    d.subscribe(downstream(2, b"", b""));
    assert_eq!(d.downstreams()[1].join_pos, 1);
    assert!(d.on_mutation(lock(b"b", b"2", 11), None, &mut cache).is_empty());

    let finished = d.finish_scan(1, &mut cache);
    assert_eq!(
        kinds(&finished),
        vec![
            (1, LogKind::Prewrite, b"a".to_vec()),
            (1, LogKind::Prewrite, b"b".to_vec()),
            (1, LogKind::Initialized, Vec::new()),
        ]
    );
    // A live change goes out to the first and is held for the second.
    let out = d.on_mutation(write(WriteKind::Put, b"a", b"", 10, 12), None, &mut cache);
    assert_eq!(kinds(&out), vec![(1, LogKind::Commit, b"a".to_vec())]);
    // The scan of the second finds the lock on `a` as it was, and does not
    // track it again.
    let scanned = d.on_scan(2, &vec![lock(b"a", b"1", 10)]);
    assert_eq!(kinds(&scanned), vec![(2, LogKind::Prewrite, b"a".to_vec())]);
    assert!(!d.ledger().resolver().is_tracked(10, b"a"));
    // Its end hands over what was held, in order, and then the marker.
    let finished = d.finish_scan(2, &mut cache);
    assert_eq!(
        kinds(&finished),
        vec![
            (2, LogKind::Prewrite, b"b".to_vec()),
            (2, LogKind::Commit, b"a".to_vec()),
            (2, LogKind::Initialized, Vec::new()),
        ]
    );
    let out = d.on_mutation(write(WriteKind::Rollback, b"b", b"", 11, 0), None, &mut cache);
    assert_eq!(
        kinds(&out),
        vec![(1, LogKind::Rollback, b"b".to_vec()), (2, LogKind::Rollback, b"b".to_vec())]
    );
}

#[test]
fn the_scan_range_spans_all_who_still_scan() {
    let mut cache = OldValueCache::new(8);
    let mut d = Delegate::new(1, epoch());
    assert_eq!(d.scan_range(), None);
    d.subscribe(downstream(1, b"k3", b"k5"));
    assert_eq!(d.scan_range(), Some((b"k3".to_vec(), b"k5".to_vec())));
    d.subscribe(downstream(2, b"k1", b"k4"));
    assert_eq!(d.scan_range(), Some((b"k1".to_vec(), b"k5".to_vec())));
    d.subscribe(downstream(3, b"k2", b""));
    assert_eq!(d.scan_range(), Some((b"k1".to_vec(), Vec::new())));
    d.finish_scan(3, &mut cache);
    d.finish_scan(2, &mut cache);
    assert_eq!(d.scan_range(), Some((b"k3".to_vec(), b"k5".to_vec())));
    d.finish_scan(1, &mut cache);
    assert_eq!(d.scan_range(), None);
}

#[test]
fn a_stopped_delegate_does_nothing_more() {
    let mut cache = OldValueCache::new(8);
    let mut d = Delegate::new(1, epoch());
    d.subscribe(downstream(1, b"", b""));
    d.subscribe(downstream(2, b"", b""));
    d.finish_scan(1, &mut cache);
    let out = d.stop(ErrorKind::EpochNotMatch);
    assert_eq!(out.len(), 2);
    assert!(out.iter().all(|x| matches!(x.event, Event::Error(ErrorKind::EpochNotMatch))));
    assert_eq!((out[0].downstream, out[1].downstream), (1, 2));
    assert_eq!(d.state(), DelegateState::Stopped(ErrorKind::EpochNotMatch));
    assert_eq!(d.downstreams().len(), 0);
    assert!(d.stop(ErrorKind::NotLeader(3)).is_empty());
    assert_eq!(d.state(), DelegateState::Stopped(ErrorKind::EpochNotMatch));
    assert!(!d.subscribe(downstream(3, b"", b"")));
    assert!(d.on_mutation(lock(b"a", b"1", 10), None, &mut cache).is_empty());
    assert!(d.on_scan(1, &vec![lock(b"a", b"1", 10)]).is_empty());
    assert!(d.finish_scan(1, &mut cache).is_empty());
    assert!(d.on_tick(100).is_empty());
    assert!(d.old_value_request(&lock(b"a", b"1", 10), &cache).is_none());
}

#[test]
fn only_an_initialized_delegate_resolves() {
    let mut cache = OldValueCache::new(8);
    let mut d = Delegate::new(9, epoch());
    d.subscribe(downstream(1, b"", b""));
    d.subscribe(downstream(2, b"", b""));
    assert!(d.on_tick(100).is_empty());
    assert_eq!(d.resolved_ts(), 0);
    d.finish_scan(1, &mut cache);
    // Only the subscriber whose scan has ended is told.
    let out = d.on_tick(100);
    assert_eq!(out.len(), 1);
    assert_eq!(out[0].downstream, 1);
    assert!(matches!(&out[0].event, Event::ResolvedTs { region_ids, ts } if *region_ids == vec![9] && *ts == 100));
    assert_eq!(d.resolved_ts(), 100);
    // Locks held in memory hold the timestamp back, and let go at once.
    d.observe_memory_locks(&vec![TrackedLock { start_ts: 150, key: b"m".to_vec(), in_memory: false }]);
    assert!(matches!(&d.on_tick(200)[0].event, Event::ResolvedTs { ts, .. } if *ts == 149));
    d.observe_memory_locks(&Vec::new());
    assert!(matches!(&d.on_tick(200)[0].event, Event::ResolvedTs { ts, .. } if *ts == 200));
    assert!(matches!(&d.on_tick(50)[0].event, Event::ResolvedTs { ts, .. } if *ts == 200));
}

#[test]
fn the_caller_is_asked_to_read_what_nobody_has_at_hand() {
    let mut cache = OldValueCache::new(8);
    let mut d = Delegate::new(1, epoch());
    let mut wants = downstream(1, b"", b"");
    wants.read_old_value = true;
    // Nobody wants previous values yet.
    d.subscribe(downstream(2, b"", b""));
    assert!(d.old_value_request(&lock(b"k", b"v", 10), &cache).is_none());
    d.subscribe(wants);
    // A pending delegate asks whatever the cache holds.
    cache.refresh(b"k", b"cached");
    let r = d.old_value_request(&lock(b"k", b"v", 10), &cache).unwrap();
    assert_eq!((r.key.as_slice(), r.read_ts), (&b"k"[..], 10));
    d.finish_scan(1, &mut cache);
    // An initialized one asks only for what is not cached.
    assert!(d.old_value_request(&lock(b"k", b"v", 10), &cache).is_none());
    let pessimistic = Mutation::Lock(LockRecord {
        kind: LockKind::Delete,
        key: b"other".to_vec(),
        start_ts: 10,
        for_update_ts: 14,
        value: Vec::new(),
        txn_source: 0,
        old_value: None,
    });
    // A pessimistic transaction reads at the timestamp of its lock.
    let r = d.old_value_request(&pessimistic, &cache).unwrap();
    assert_eq!((r.key.as_slice(), r.read_ts), (&b"other"[..], 14));
    // The read is a miss; the value is cached for the next time.
    let out = d.on_mutation(pessimistic, Some(b"before".to_vec()), &mut cache);
    assert!(matches!(&out[0].event, Event::Change(r) if r.old_value == b"before" && r.op == Op::Delete));
    assert_eq!((cache.access_count(), cache.miss_count()), (1, 1));
    // A record that brings the value along needs no read, nor does one
    // that gives no row, nor a commit of a tracked lock.
    let mut with_hint = lock(b"z", b"v", 20);
    if let Mutation::Lock(l) = &mut with_hint {
        l.old_value = Some(Vec::new());
    }
    assert!(d.old_value_request(&with_hint, &cache).is_none());
    assert!(d.old_value_request(&write(WriteKind::Rollback, b"z", b"", 20, 0), &cache).is_none());
    assert!(d.old_value_request(&write(WriteKind::Delete, b"other", b"", 10, 16), &cache).is_none());
    // A commit in one phase reads at its start.
    let r = d.old_value_request(&write(WriteKind::Put, b"fresh", b"v", 30, 31), &cache).unwrap();
    assert_eq!((r.key.as_slice(), r.read_ts), (&b"fresh"[..], 30));
    // The commit of the delete leaves nothing behind for the key.
    d.on_mutation(write(WriteKind::Delete, b"other", b"", 10, 16), None, &mut cache);
    assert_eq!(cache.get_or_fetch(b"other", None), b"");
}

#[test]
fn unsubscribing_drops_what_was_held() {
    let mut cache = OldValueCache::new(8);
    let mut d = Delegate::new(1, epoch());
    d.subscribe(downstream(1, b"", b""));
    d.finish_scan(1, &mut cache);
    d.subscribe(downstream(2, b"", b""));
    d.on_mutation(lock(b"a", b"1", 10), None, &mut cache);
    assert_eq!(d.unsubscribe(2), 1);
    d.subscribe(downstream(2, b"", b""));
    // What was held for the subscriber that left is gone.
    assert_eq!(kinds(&d.finish_scan(2, &mut cache)), vec![(2, LogKind::Initialized, Vec::new())]);
    assert_eq!(d.unsubscribe(7), 2);
    assert_eq!(d.unsubscribe(1), 1);
    assert_eq!(d.unsubscribe(2), 0);
    assert!(d.has_request(5) == false);
}

#[test]
fn requests_are_checked_in_order() {
    let mut e = Endpoint::new(1, 8);
    assert_eq!(e.region_count(), 0);
    // The cluster comes first, for subscribers that state theirs.
    let mut r = request(1, 1);
    r.cluster_id = 2;
    r.region_epoch = RegionEpoch { conf_ver: 0, version: 0 };
    assert_eq!(e.refusal(&r, leader()), Some(ErrorKind::ClusterIdMismatch));
    r.version = Version { major: 5, minor: 2, patch: 9 };
    assert_eq!(e.refusal(&r, leader()), Some(ErrorKind::EpochNotMatch));
    // The zero epoch is stale even where the region's epoch is zero too.
    let zero = RegionInfo { epoch: RegionEpoch { conf_ver: 0, version: 0 }, is_leader: true, leader_hint: 1 };
    assert_eq!(e.refusal(&r, zero), Some(ErrorKind::EpochNotMatch));
    // Then the epoch, then the leadership.
    let mut r = request(1, 1);
    r.region_epoch = RegionEpoch { conf_ver: 1, version: 2 };
    let follower = RegionInfo { epoch: epoch(), is_leader: false, leader_hint: 4 };
    assert_eq!(e.refusal(&r, follower), Some(ErrorKind::EpochNotMatch));
    assert_eq!(e.refusal(&request(1, 1), follower), Some(ErrorKind::NotLeader(4)));
    assert_eq!(e.refusal(&request(1, 1), leader()), None);
    // A refusal makes no delegate.
    assert_eq!(e.subscribe(request(1, 1), follower), Err(ErrorKind::NotLeader(4)));
    assert_eq!(e.region_count(), 0);
    assert_eq!(e.downstream_count(1), Err(ErrorKind::RegionNotFound));

    // Ids are given out in order.
    assert_eq!(e.subscribe(request(1, 1), leader()), Ok(1));
    assert_eq!(e.subscribe(request(1, 2), leader()), Ok(2));
    assert_eq!(e.subscribe(request(2, 1), leader()), Ok(3));
    assert_eq!(e.region_count(), 2);
    assert_eq!(e.downstream_count(1), Ok(2));
    // The request id is known to the region; a follower is told so first.
    assert_eq!(e.subscribe(request(1, 2), leader()), Err(ErrorKind::DuplicateRequest));
    assert_eq!(e.subscribe(request(1, 2), follower), Err(ErrorKind::NotLeader(4)));
    assert_eq!(e.downstream_count(1), Ok(2));
    assert_eq!(e.subscribe(request(1, 3), leader()), Ok(4));
}

#[test]
fn a_region_without_subscribers_is_torn_down() {
    let mut e = Endpoint::new(1, 8);
    let a = e.subscribe(request(1, 1), leader()).unwrap();
    let b = e.subscribe(request(1, 2), leader()).unwrap();
    e.disconnect(1, a);
    assert_eq!(e.downstream_count(1), Ok(1));
    e.disconnect(1, a);
    e.disconnect(5, b);
    assert_eq!(e.downstream_count(1), Ok(1));
    e.disconnect(1, b);
    assert_eq!(e.downstream_count(1), Err(ErrorKind::RegionNotFound));
    assert_eq!(e.region_count(), 0);
    // Changes of a region without delegate go nowhere.
    assert!(e.on_mutation(1, lock(b"k", b"v", 10), None).is_empty());
    assert!(e.on_scan(1, a, &vec![lock(b"k", b"v", 10)]).is_empty());
    assert!(e.finish_scan(1, a).is_empty());
    assert!(e.on_region_error(1, ErrorKind::EpochNotMatch).is_empty());
    assert!(e.on_tick(100, None).is_empty());
    assert!(e.old_value_request(1, &lock(b"k", b"v", 10)).is_none());
    // The region can be subscribed anew.
    assert_eq!(e.subscribe(request(1, 1), leader()), Ok(3));
}

#[test]
fn a_tick_takes_the_lesser_of_authority_and_memory() {
    let mut e = Endpoint::new(1, 8);
    let a = e.subscribe(request(1, 1), leader()).unwrap();
    let b = e.subscribe(request(2, 1), leader()).unwrap();
    e.finish_scan(1, a);
    e.finish_scan(2, b);
    e.on_mutation(2, lock(b"k", b"v", 40), None);
    let ts = |out: &Vec<Delivery>| -> Vec<(u64, Vec<u64>, u64)> {
        out.iter()
            .filter_map(|d| match &d.event {
                Event::ResolvedTs { region_ids, ts } => Some((d.downstream, region_ids.clone(), *ts)),
                _ => None,
            })
            .collect()
    };
    assert_eq!(ts(&e.on_tick(100, Some(60))), vec![(a, vec![1], 60), (b, vec![2], 39)]);
    assert_eq!(ts(&e.on_tick(100, Some(160))), vec![(a, vec![1], 100), (b, vec![2], 39)]);
    // Locks held in memory for one region hold only that region back.
    e.observe_memory_locks(1, &vec![TrackedLock { start_ts: 120, key: b"m".to_vec(), in_memory: true }]);
    assert_eq!(ts(&e.on_tick(200, None)), vec![(a, vec![1], 119), (b, vec![2], 39)]);
    e.observe_memory_locks(1, &Vec::new());
    e.on_mutation(2, write(WriteKind::Rollback, b"k", b"", 40, 0), None);
    assert_eq!(ts(&e.on_tick(200, None)), vec![(a, vec![1], 200), (b, vec![2], 200)]);
    assert_eq!(e.delegate(2).unwrap().resolved_ts(), 200);
}

#[test]
fn what_a_step_sends_is_sorted_for_the_sinks() {
    let change = |id: u64, key: &[u8], len: usize| Delivery { downstream: id, event: Event::Change(row(key, len)) };
    let mut out = vec![
        change(2, b"a", 3),
        change(1, b"a", 3),
        change(2, b"b", 3),
        Delivery { downstream: 1, event: Event::ResolvedTs { region_ids: vec![7], ts: 9 } },
        change(1, b"c", 20),
        change(1, b"d", 1),
        Delivery { downstream: 3, event: Event::Error(ErrorKind::NotLeader(4)) },
        change(1, b"e", 1),
    ];
    assert_eq!(recipients(&out), vec![2, 1, 3]);
    assert!(recipients(&Vec::new()).is_empty());

    let shape = |batches: &Vec<Batch>| -> Vec<String> {
        batches
            .iter()
            .map(|b| match b {
                Batch::Rows(rows) => {
                    rows.iter().map(|r| String::from_utf8(r.key.clone()).unwrap()).collect::<Vec<_>>().join("")
                }
                Batch::ResolvedTs { region_ids, ts } => format!("resolved {:?} {}", region_ids, ts),
                Batch::Error(kind) => format!("{:?}", kind),
            })
            .collect()
    };
    let for_one = take_events(&mut out, 1);
    assert_eq!(for_one.len(), 5);
    assert_eq!(out.len(), 3);
    // Rows before the resolved timestamp are not mixed with rows after it;
    // the row over the limit travels alone.
    assert_eq!(shape(&batch_events(for_one, 10)), vec!["a", "resolved [7] 9", "c", "de"]);
    let for_two = take_events(&mut out, 2);
    assert_eq!(shape(&batch_events(for_two, 10)), vec!["ab"]);
    assert!(take_events(&mut out, 2).is_empty());
    let for_three = take_events(&mut out, 3);
    assert_eq!(shape(&batch_events(for_three, 10)), vec!["NotLeader(4)"]);
    assert!(out.is_empty());
    assert!(batch_events(Vec::new(), 10).is_empty());
}
