use cdc::mvcc::{FLAG_DELETE, FLAG_LOCK, FLAG_PESSIMISTIC, FLAG_PUT, FLAG_ROLLBACK};
use cdc::{
    set_event_row_type, AdminCmdType, AdminRequest, AdminResponse, CmdBatch, CmdType, Delegate,
    Delivery, Downstream, DownstreamID, Error, EventKind, EventRow, IngestError, LogType, OpType,
    PutRequest, Region, RegionEpoch, Request, Resolver, TxnEntry,
};

fn encode_var(mut v: u64, out: &mut Vec<u8>) {
    while v >= 0x80 {
        out.push((v as u8) | 0x80);
        v >>= 7;
    }
    out.push(v as u8);
}

fn key_with_ts(key: &[u8], ts: u64) -> Vec<u8> {
    let mut k = key.to_vec();
    k.extend_from_slice(&(!ts).to_be_bytes());
    k
}

fn write_value(flag: u8, start_ts: u64, short: Option<&[u8]>) -> Vec<u8> {
    let mut v = vec![flag];
    encode_var(start_ts, &mut v);
    if let Some(s) = short {
        v.push(b'v');
        v.push(s.len() as u8);
        v.extend_from_slice(s);
    }
    v
}

fn lock_value(flag: u8, primary: &[u8], ts: u64, short: Option<&[u8]>, for_update_ts: u64) -> Vec<u8> {
    let mut v = vec![flag];
    encode_var(primary.len() as u64, &mut v);
    v.extend_from_slice(primary);
    encode_var(ts, &mut v);
    if let Some(s) = short {
        v.push(b'v');
        v.push(s.len() as u8);
        v.extend_from_slice(s);
    }
    if for_update_ts > 0 {
        v.push(b'f');
        encode_var(for_update_ts, &mut v);
    }
    v
}

fn row(start_ts: u64, commit_ts: u64, key: &[u8], value: &[u8], op: OpType, log: LogType) -> EventRow {
    let mut r = EventRow::new();
    r.start_ts = start_ts;
    r.commit_ts = commit_ts;
    r.key = key.to_vec();
    r.value = value.to_vec();
    r.op_type = op;
    set_event_row_type(&mut r, log);
    r
}

fn put(cf: &str, key: Vec<u8>, value: Vec<u8>) -> Request {
    Request { cmd_type: CmdType::Put, put: PutRequest { cf: cf.to_string(), key, value } }
}

fn test_region(version: u64) -> Region {
    let mut region = Region::default();
    region.id = 1;
    region.region_epoch.version = version;
    region.region_epoch.conf_ver = 2;
    region
}

fn ready_resolver() -> Resolver {
    let mut resolver = Resolver::new();
    resolver.init();
    resolver
}

fn receive_error(delegate: &mut Delegate) -> Error {
    let ds = delegate.take_deliveries();
    assert_eq!(ds.len(), 1);
    let change_data = &ds[0].change_data;
    assert_eq!(change_data.events.len(), 1);
    match &change_data.events[0].event {
        EventKind::Error(err) => err.clone(),
        _ => panic!("unknown event"),
    }
}

fn only_entries(d: &Delivery) -> Vec<EventRow> {
    assert_eq!(d.change_data.events.len(), 1);
    match &d.change_data.events[0].event {
        EventKind::Entries(rows) => rows.clone(),
        _ => panic!("unknown event"),
    }
}

fn only_resolved_ts(d: &Delivery) -> u64 {
    assert_eq!(d.change_data.events.len(), 1);
    match &d.change_data.events[0].event {
        EventKind::ResolvedTs(ts) => *ts,
        _ => panic!("unknown event"),
    }
}

#[test]
fn test_error() {
    let region_id = 1;
    let region = test_region(2);
    let region_epoch = region.region_epoch;

    let mut delegate = Delegate::new(region_id);
    delegate.subscribe(Downstream::new(DownstreamID::new(1), String::new(), region_epoch));
    assert!(delegate.enabled());
    delegate.on_region_ready(ready_resolver(), region);

    delegate.fail(Error::NotLeader);
    let err = receive_error(&mut delegate);
    assert!(matches!(err, Error::NotLeader));
    // Enable is disabled by any error.
    assert!(!delegate.enabled());

    delegate.fail(Error::RegionNotFound);
    let err = receive_error(&mut delegate);
    assert!(matches!(err, Error::RegionNotFound));

    delegate.fail(Error::EpochNotMatch(vec![]));
    let err = receive_error(&mut delegate);
    assert!(matches!(err, Error::EpochNotMatch(_)));

    // Split
    let mut region = Region::default();
    region.id = 1;
    let request = AdminRequest::new(AdminCmdType::Split);
    let mut response = AdminResponse::default();
    response.split.left = region;
    delegate.sink_admin(request, response);
    match receive_error(&mut delegate) {
        Error::EpochNotMatch(regions) => {
            regions.into_iter().find(|r| r.id == 1).unwrap();
        }
        _ => panic!("unknown event"),
    }

    let request = AdminRequest::new(AdminCmdType::BatchSplit);
    let mut response = AdminResponse::default();
    response.splits.regions = vec![region];
    delegate.sink_admin(request, response);
    match receive_error(&mut delegate) {
        Error::EpochNotMatch(regions) => {
            regions.into_iter().find(|r| r.id == 1).unwrap();
        }
        _ => panic!("unknown event"),
    }

    // Merge
    for cmd in [AdminCmdType::PrepareMerge, AdminCmdType::CommitMerge, AdminCmdType::RollbackMerge] {
        delegate.sink_admin(AdminRequest::new(cmd), AdminResponse::default());
        match receive_error(&mut delegate) {
            Error::EpochNotMatch(regions) => assert!(regions.is_empty()),
            _ => panic!("unknown event"),
        }
    }
}

#[test]
fn test_scan() {
    let region_id = 1;
    let region = test_region(2);
    let region_epoch = region.region_epoch;

    let mut delegate = Delegate::new(region_id);
    let downstream = Downstream::new(DownstreamID::new(7), String::new(), region_epoch);
    let downstream_id = downstream.id;
    delegate.subscribe(downstream);
    assert!(delegate.enabled());

    // Stashed in pending before region ready.
    let entries = vec![
        Some(TxnEntry::Prewrite {
            default: (key_with_ts(b"a", 1), b"b".to_vec()),
            lock: (b"a".to_vec(), lock_value(FLAG_PUT, b"", 1, None, 0)),
        }),
        Some(TxnEntry::Commit {
            default: (key_with_ts(b"a", 1), b"b".to_vec()),
            write: (key_with_ts(b"a", 2), write_value(FLAG_PUT, 1, None)),
        }),
        Some(TxnEntry::Commit {
            default: (Vec::new(), Vec::new()),
            write: (key_with_ts(b"a", 3), write_value(FLAG_ROLLBACK, 3, None)),
        }),
        None,
    ];
    delegate.on_scan(downstream_id, entries).unwrap();
    assert_eq!(delegate.num_pending_scans(), 1);
    assert!(delegate.take_deliveries().is_empty());

    delegate.on_region_ready(ready_resolver(), region);

    // Flush all pending entries.
    let ds = delegate.take_deliveries();
    assert_eq!(ds.len(), 1);
    assert_eq!(ds[0].to, vec![downstream_id]);
    let event = &ds[0].change_data.events[0];
    assert_eq!(event.region_id, region_id);
    assert_eq!(event.index, 0);
    let row1 = row(1, 0, b"a", b"b", OpType::Put, LogType::Prewrite);
    let row2 = row(1, 2, b"a", b"b", OpType::Put, LogType::Committed);
    let mut row3 = EventRow::new();
    set_event_row_type(&mut row3, LogType::Initialized);
    assert_eq!(only_entries(&ds[0]), vec![row1, row2, row3]);
}

#[test]
fn error_fan_out_not_leader() {
    let mut delegate = Delegate::new(1);
    let region = test_region(2);
    delegate.subscribe(Downstream::new(DownstreamID::new(3), "d".to_string(), region.region_epoch));
    delegate.on_region_ready(ready_resolver(), region);
    delegate.fail(Error::NotLeader);
    let ds = delegate.take_deliveries();
    assert_eq!(ds.len(), 1);
    assert_eq!(ds[0].to, vec![DownstreamID::new(3)]);
    assert!(matches!(ds[0].change_data.events[0].event, EventKind::Error(Error::NotLeader)));
    assert!(!delegate.enabled());
    assert!(delegate.has_failed());
}

#[test]
fn split_admin_reports_new_regions() {
    let mut delegate = Delegate::new(1);
    let region = test_region(2);
    delegate.subscribe(Downstream::new(DownstreamID::new(1), String::new(), region.region_epoch));
    delegate.on_region_ready(ready_resolver(), region);
    let mut response = AdminResponse::default();
    response.split.left.id = 10;
    response.split.right.id = 11;
    delegate.sink_admin(AdminRequest::new(AdminCmdType::Split), response);
    match receive_error(&mut delegate) {
        Error::EpochNotMatch(regions) => {
            let ids: Vec<u64> = regions.iter().map(|r| r.id).collect();
            assert_eq!(ids, vec![10, 11]);
        }
        _ => panic!("unknown event"),
    }
    assert!(!delegate.enabled());
}

#[test]
fn merge_admin_reports_no_regions() {
    let mut delegate = Delegate::new(1);
    let region = test_region(2);
    delegate.subscribe(Downstream::new(DownstreamID::new(1), String::new(), region.region_epoch));
    delegate.on_region_ready(ready_resolver(), region);
    delegate.sink_admin(AdminRequest::new(AdminCmdType::CommitMerge), AdminResponse::default());
    match receive_error(&mut delegate) {
        Error::EpochNotMatch(regions) => assert!(regions.is_empty()),
        _ => panic!("unknown event"),
    }
}

#[test]
fn other_admin_commands_are_ignored() {
    let mut delegate = Delegate::new(1);
    let region = test_region(2);
    delegate.subscribe(Downstream::new(DownstreamID::new(1), String::new(), region.region_epoch));
    delegate.on_region_ready(ready_resolver(), region);
    delegate.sink_admin(AdminRequest::new(AdminCmdType::CompactLog), AdminResponse::default());
    assert!(delegate.take_deliveries().is_empty());
    assert!(delegate.enabled());
}

#[test]
fn epoch_mismatch_rejects_only_that_downstream() {
    let mut delegate = Delegate::new(1);
    let region = test_region(2);
    delegate.on_region_ready(ready_resolver(), region);
    delegate.subscribe(Downstream::new(DownstreamID::new(1), String::new(), region.region_epoch));
    let stale = RegionEpoch { conf_ver: 2, version: 1 };
    delegate.subscribe(Downstream::new(DownstreamID::new(2), String::new(), stale));
    let ds = delegate.take_deliveries();
    assert_eq!(ds.len(), 1);
    assert_eq!(ds[0].to, vec![DownstreamID::new(2)]);
    match &ds[0].change_data.events[0].event {
        EventKind::Error(Error::EpochNotMatch(regions)) => assert_eq!(regions, &vec![region]),
        _ => panic!("unknown event"),
    }
    assert_eq!(delegate.num_downstreams(), 1);
    // A later broadcast does not reach the rejected downstream.
    delegate.on_min_ts(5);
    let ds = delegate.take_deliveries();
    assert_eq!(ds.len(), 1);
    assert_eq!(ds[0].to, vec![DownstreamID::new(1)]);
}

#[test]
fn newer_epoch_is_rejected_too() {
    let mut delegate = Delegate::new(1);
    delegate.on_region_ready(ready_resolver(), test_region(2));
    delegate.subscribe(Downstream::new(DownstreamID::new(1), String::new(), RegionEpoch { conf_ver: 9, version: 3 }));
    assert_eq!(delegate.num_downstreams(), 0);
    assert_eq!(delegate.take_deliveries().len(), 1);
    // conf_ver is not compared.
    delegate.subscribe(Downstream::new(DownstreamID::new(2), String::new(), RegionEpoch { conf_ver: 9, version: 2 }));
    assert_eq!(delegate.num_downstreams(), 1);
    assert!(delegate.take_deliveries().is_empty());
}

#[test]
fn resolved_ts_follows_oldest_lock() {
    let mut delegate = Delegate::new(1);
    let region = test_region(2);
    delegate.subscribe(Downstream::new(DownstreamID::new(1), String::new(), region.region_epoch));
    let mut resolver = ready_resolver();
    resolver.track_lock(5, b"k5".to_vec());
    resolver.track_lock(8, b"k8".to_vec());
    delegate.on_region_ready(resolver, region);
    delegate.on_min_ts(10);
    let ds = delegate.take_deliveries();
    assert_eq!(ds.len(), 1);
    assert_eq!(only_resolved_ts(&ds[0]), 5);
    // Commit the transaction started at 5: untracks its lock.
    let batch = CmdBatch {
        region_id: 1,
        index: 3,
        requests: vec![put("write", key_with_ts(b"k5", 6), write_value(FLAG_PUT, 5, Some(b"v")))],
    };
    delegate.on_batch(batch).unwrap();
    let ds = delegate.take_deliveries();
    assert_eq!(ds.len(), 1);
    assert_eq!(only_entries(&ds[0]), vec![row(5, 6, b"k5", b"v", OpType::Put, LogType::Commit)]);
    delegate.on_min_ts(12);
    let ds = delegate.take_deliveries();
    assert_eq!(ds.len(), 1);
    assert_eq!(only_resolved_ts(&ds[0]), 8);
}

#[test]
fn resolved_ts_never_repeats_or_decreases() {
    let mut delegate = Delegate::new(1);
    let region = test_region(2);
    delegate.subscribe(Downstream::new(DownstreamID::new(1), String::new(), region.region_epoch));
    delegate.on_region_ready(ready_resolver(), region);
    delegate.on_min_ts(10);
    delegate.on_min_ts(10);
    delegate.on_min_ts(7);
    delegate.on_min_ts(11);
    let values: Vec<u64> = delegate.take_deliveries().iter().map(only_resolved_ts).collect();
    assert_eq!(values, vec![10, 11]);
}

#[test]
fn min_ts_before_ready_is_ignored() {
    let mut delegate = Delegate::new(1);
    delegate.subscribe(Downstream::new(DownstreamID::new(1), String::new(), RegionEpoch::default()));
    delegate.on_min_ts(10);
    assert!(delegate.take_deliveries().is_empty());
}

#[test]
fn uninitialized_resolver_resolves_nothing() {
    let mut resolver = Resolver::new();
    assert_eq!(resolver.resolve(10), None);
    resolver.init();
    assert_eq!(resolver.resolve(10), Some(10));
    assert_eq!(resolver.resolve(10), None);
    assert_eq!(resolver.resolve(12), Some(12));
}

#[test]
fn resolver_track_is_idempotent_and_untrack_unknown_is_noop() {
    let mut resolver = Resolver::new();
    resolver.init();
    resolver.track_lock(5, b"a".to_vec());
    resolver.track_lock(5, b"a".to_vec());
    assert_eq!(resolver.num_locks(), 1);
    resolver.untrack_lock(9, None, b"zz".to_vec());
    resolver.untrack_lock(4, None, b"a".to_vec());
    assert_eq!(resolver.num_locks(), 1);
    assert_eq!(resolver.resolve(20), Some(5));
    resolver.untrack_lock(5, Some(7), b"a".to_vec());
    assert_eq!(resolver.num_locks(), 0);
    assert_eq!(resolver.resolve(20), Some(20));
}

#[test]
fn resolver_moves_a_retracked_key() {
    let mut resolver = Resolver::new();
    resolver.init();
    resolver.track_lock(5, b"a".to_vec());
    resolver.track_lock(9, b"a".to_vec());
    assert_eq!(resolver.num_locks(), 1);
    assert_eq!(resolver.resolve(20), Some(9));
}

#[test]
fn last_unsubscribe_disables() {
    let mut delegate = Delegate::new(1);
    let region = test_region(2);
    delegate.subscribe(Downstream::new(DownstreamID::new(1), String::new(), region.region_epoch));
    delegate.subscribe(Downstream::new(DownstreamID::new(2), String::new(), region.region_epoch));
    delegate.on_region_ready(ready_resolver(), region);
    assert!(!delegate.unsubscribe(DownstreamID::new(1), None));
    assert!(delegate.enabled());
    assert!(delegate.unsubscribe(DownstreamID::new(2), Some(Error::RegionNotFound)));
    assert!(!delegate.enabled());
    let ds = delegate.take_deliveries();
    assert_eq!(ds.len(), 1);
    assert_eq!(ds[0].to, vec![DownstreamID::new(2)]);
    let batch = CmdBatch {
        region_id: 1,
        index: 4,
        requests: vec![put("lock", b"k".to_vec(), lock_value(FLAG_PUT, b"k", 3, Some(b"v"), 0))],
    };
    delegate.on_batch(batch).unwrap();
    assert!(delegate.take_deliveries().is_empty());
}

#[test]
fn unsubscribe_unknown_id_sends_nothing() {
    let mut delegate = Delegate::new(1);
    let region = test_region(2);
    delegate.subscribe(Downstream::new(DownstreamID::new(1), String::new(), region.region_epoch));
    delegate.on_region_ready(ready_resolver(), region);
    assert!(!delegate.unsubscribe(DownstreamID::new(9), Some(Error::NotLeader)));
    assert!(delegate.take_deliveries().is_empty());
    assert!(delegate.enabled());
}

#[test]
fn batch_merges_rows_by_key_and_fans_out() {
    let mut delegate = Delegate::new(1);
    let region = test_region(2);
    delegate.subscribe(Downstream::new(DownstreamID::new(1), String::new(), region.region_epoch));
    delegate.subscribe(Downstream::new(DownstreamID::new(2), String::new(), region.region_epoch));
    delegate.on_region_ready(ready_resolver(), region);
    let batch = CmdBatch {
        region_id: 1,
        index: 9,
        requests: vec![
            put("default", key_with_ts(b"a", 10), b"long-value".to_vec()),
            put("lock", b"a".to_vec(), lock_value(FLAG_PUT, b"a", 10, None, 0)),
            put("lock", b"b".to_vec(), lock_value(FLAG_DELETE, b"a", 10, None, 0)),
            put("", key_with_ts(b"c", 4), b"x".to_vec()),
            Request { cmd_type: CmdType::Delete, put: PutRequest::default() },
            put("lock", b"p".to_vec(), lock_value(FLAG_PESSIMISTIC, b"p", 10, None, 11)),
        ],
    };
    delegate.on_batch(batch).unwrap();
    let ds = delegate.take_deliveries();
    assert_eq!(ds.len(), 1);
    assert_eq!(ds[0].to, vec![DownstreamID::new(1), DownstreamID::new(2)]);
    assert_eq!(ds[0].change_data.events[0].index, 9);
    let mut c = EventRow::new();
    c.key = b"c".to_vec();
    c.value = b"x".to_vec();
    assert_eq!(
        only_entries(&ds[0]),
        vec![
            row(10, 0, b"a", b"long-value", OpType::Put, LogType::Prewrite),
            row(10, 0, b"b", b"", OpType::Delete, LogType::Prewrite),
            c,
        ]
    );
    // Both prewrites are tracked.
    delegate.on_min_ts(20);
    let ds = delegate.take_deliveries();
    assert_eq!(only_resolved_ts(&ds[0]), 10);
}

#[test]
fn batch_rollback_and_lock_write() {
    let mut delegate = Delegate::new(1);
    let region = test_region(2);
    delegate.subscribe(Downstream::new(DownstreamID::new(1), String::new(), region.region_epoch));
    let mut resolver = ready_resolver();
    resolver.track_lock(3, b"r".to_vec());
    delegate.on_region_ready(resolver, region);
    let batch = CmdBatch {
        region_id: 1,
        index: 2,
        requests: vec![
            put("write", key_with_ts(b"r", 3), write_value(FLAG_ROLLBACK, 3, None)),
            put("write", key_with_ts(b"l", 4), write_value(FLAG_LOCK, 2, None)),
        ],
    };
    delegate.on_batch(batch).unwrap();
    let ds = delegate.take_deliveries();
    assert_eq!(only_entries(&ds[0]), vec![row(3, 0, b"r", b"", OpType::Unknown, LogType::Rollback)]);
    delegate.on_min_ts(50);
    assert_eq!(only_resolved_ts(&delegate.take_deliveries()[0]), 50);
}

#[test]
fn batch_errors() {
    let region = test_region(2);
    let new_delegate = || {
        let mut d = Delegate::new(1);
        d.subscribe(Downstream::new(DownstreamID::new(1), String::new(), region.region_epoch));
        d.on_region_ready(ready_resolver(), region);
        d
    };
    let batch = |requests: Vec<Request>| CmdBatch { region_id: 1, index: 1, requests };

    let mut d = new_delegate();
    let r = d.on_batch(batch(vec![put("raft", b"k".to_vec(), b"v".to_vec())]));
    assert_eq!(r, Err(IngestError::UnknownColumnFamily));

    let mut d = new_delegate();
    let r = d.on_batch(batch(vec![put("write", b"short".to_vec(), write_value(FLAG_PUT, 1, None))]));
    assert_eq!(r, Err(IngestError::Malformed));

    let mut d = new_delegate();
    let r = d.on_batch(batch(vec![put("lock", b"k".to_vec(), vec![b'Z', 1, 2])]));
    assert_eq!(r, Err(IngestError::Malformed));

    let mut d = new_delegate();
    let w = put("write", key_with_ts(b"k", 5), write_value(FLAG_PUT, 4, None));
    let r = d.on_batch(batch(vec![w.clone(), w]));
    assert_eq!(r, Err(IngestError::DuplicateWrite));
    assert!(d.take_deliveries().is_empty());

    let mut d = new_delegate();
    d.on_min_ts(10);
    d.take_deliveries();
    let r = d.on_batch(batch(vec![put("write", key_with_ts(b"k", 10), write_value(FLAG_PUT, 4, None))]));
    assert_eq!(r, Err(IngestError::CommitNotAfterResolvedTs));
    assert!(d.take_deliveries().is_empty());
}

#[test]
fn scan_for_unknown_downstream_is_dropped() {
    let mut delegate = Delegate::new(1);
    let region = test_region(2);
    delegate.on_region_ready(ready_resolver(), region);
    delegate.on_scan(DownstreamID::new(4), vec![None]).unwrap();
    assert!(delegate.take_deliveries().is_empty());
}

#[test]
fn pending_scans_flush_before_later_events() {
    let mut delegate = Delegate::new(1);
    let region = test_region(2);
    let id = DownstreamID::new(1);
    delegate.subscribe(Downstream::new(id, String::new(), region.region_epoch));
    delegate.on_scan(id, vec![None]).unwrap();
    delegate.on_scan(id, vec![None]).unwrap();
    delegate.on_region_ready(ready_resolver(), region);
    delegate.on_min_ts(3);
    let ds = delegate.take_deliveries();
    assert_eq!(ds.len(), 3);
    assert_eq!(only_entries(&ds[0]).len(), 1);
    assert_eq!(only_entries(&ds[1]).len(), 1);
    assert_eq!(only_resolved_ts(&ds[2]), 3);
}

#[test]
fn scan_of_malformed_entry_fails() {
    let mut delegate = Delegate::new(1);
    let entries = vec![Some(TxnEntry::Prewrite {
        default: (Vec::new(), Vec::new()),
        lock: (b"a".to_vec(), vec![FLAG_PUT]),
    })];
    assert_eq!(delegate.on_scan(DownstreamID::new(1), entries), Err(IngestError::Malformed));
    assert_eq!(delegate.num_pending_scans(), 0);
}

#[test]
fn failed_delegate_takes_nothing() {
    let mut delegate = Delegate::new(1);
    let region = test_region(2);
    delegate.on_region_ready(ready_resolver(), region);
    delegate.fail(Error::NotLeader);
    delegate.subscribe(Downstream::new(DownstreamID::new(1), String::new(), region.region_epoch));
    assert_eq!(delegate.num_downstreams(), 0);
    delegate.on_min_ts(5);
    assert!(delegate.take_deliveries().iter().all(|d| d.to.is_empty()));
}

#[test]
fn unsubscribe_while_pending() {
    let mut delegate = Delegate::new(1);
    delegate.subscribe(Downstream::new(DownstreamID::new(1), String::new(), RegionEpoch::default()));
    assert!(delegate.unsubscribe(DownstreamID::new(1), Some(Error::NotLeader)));
    let ds = delegate.take_deliveries();
    assert_eq!(ds.len(), 1);
    assert_eq!(ds[0].to, vec![DownstreamID::new(1)]);
    assert!(!delegate.enabled());
}

#[test]
fn unsubscribe_one_of_two_pending_keeps_enabled() {
    let mut delegate = Delegate::new(1);
    delegate.subscribe(Downstream::new(DownstreamID::new(1), String::new(), RegionEpoch::default()));
    delegate.subscribe(Downstream::new(DownstreamID::new(2), String::new(), RegionEpoch::default()));
    assert!(!delegate.unsubscribe(DownstreamID::new(1), None));
    assert!(delegate.enabled());
    assert!(delegate.unsubscribe(DownstreamID::new(2), None));
    assert!(!delegate.enabled());
}

#[test]
fn resolver_untracks_regardless_of_commit_ts() {
    let mut resolver = Resolver::new();
    resolver.init();
    resolver.track_lock(3, b"a".to_vec());
    assert_eq!(resolver.resolve(10), Some(3));
    resolver.untrack_lock(3, Some(2), b"a".to_vec());
    assert_eq!(resolver.num_locks(), 0);
}
