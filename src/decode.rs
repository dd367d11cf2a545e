use vstd::prelude::*;

use crate::event::{EventRow, IngestError, LogType, OpType, RowView};
use crate::mvcc::{
    copy_range, decode_ts_suffix, parse_lock, parse_lock_spec, parse_write, parse_write_spec,
    split_ts, LockType, WriteType,
};

verus! {

/// One entry of a snapshot scan: a key's pending prewrite, or its latest
/// commit, each with the default-CF pair that may hold its value.
pub enum TxnEntry {
    Prewrite { default: (Vec<u8>, Vec<u8>), lock: (Vec<u8>, Vec<u8>) },
    Commit { default: (Vec<u8>, Vec<u8>), write: (Vec<u8>, Vec<u8>) },
}

pub enum TxnEntryView {
    Prewrite { default: (Seq<u8>, Seq<u8>), lock: (Seq<u8>, Seq<u8>) },
    Commit { default: (Seq<u8>, Seq<u8>), write: (Seq<u8>, Seq<u8>) },
}

impl View for TxnEntry {
    type V = TxnEntryView;

    open spec fn view(&self) -> TxnEntryView {
        match self {
            TxnEntry::Prewrite { default, lock } => TxnEntryView::Prewrite {
                default: (default.0@, default.1@),
                lock: (lock.0@, lock.1@),
            },
            TxnEntry::Commit { default, write } => TxnEntryView::Commit {
                default: (default.0@, default.1@),
                write: (write.0@, write.1@),
            },
        }
    }
}

pub open spec fn entry_view(e: Option<TxnEntry>) -> Option<TxnEntryView> {
    match e {
        Some(t) => Some(t@),
        None => None,
    }
}

pub open spec fn entries_view(entries: Seq<Option<TxnEntry>>) -> Seq<Option<TxnEntryView>> {
    entries.map_values(|e: Option<TxnEntry>| entry_view(e))
}

/// The row that a write-CF pair stands for. `None`: the pair is malformed.
/// `Some(None)`: a write that carries no change (a lock-only write).
pub open spec fn write_row(key: Seq<u8>, value: Seq<u8>) -> Option<Option<RowView>> {
    match parse_write_spec(value) {
        None => None,
        Some(w) => if w.write_type == WriteType::Lock {
            Some(None)
        } else {
            match split_ts(key) {
                None => None,
                Some((raw, ts)) => Some(
                    Some(
                        RowView {
                            start_ts: w.start_ts,
                            commit_ts: if w.write_type == WriteType::Rollback {
                                0
                            } else {
                                ts
                            },
                            key: raw,
                            value: match w.short_value {
                                Some(v) => v,
                                None => Seq::empty(),
                            },
                            op_type: if w.write_type == WriteType::Put {
                                OpType::Put
                            } else if w.write_type == WriteType::Delete {
                                OpType::Delete
                            } else {
                                OpType::Unknown
                            },
                            log_type: if w.write_type == WriteType::Rollback {
                                LogType::Rollback
                            } else {
                                LogType::Commit
                            },
                        },
                    ),
                ),
            }
        },
    }
}

/// The row that a lock-CF pair stands for. `None`: the pair is malformed.
/// `Some(None)`: a lock that carries no change (a lock-only or pessimistic lock).
pub open spec fn lock_row(key: Seq<u8>, value: Seq<u8>) -> Option<Option<RowView>> {
    match parse_lock_spec(value) {
        None => None,
        Some(l) => if l.lock_type == LockType::Put || l.lock_type == LockType::Delete {
            Some(
                Some(
                    RowView {
                        start_ts: l.ts,
                        commit_ts: 0,
                        key,
                        value: match l.short_value {
                            Some(v) => v,
                            None => Seq::empty(),
                        },
                        op_type: if l.lock_type == LockType::Put {
                            OpType::Put
                        } else {
                            OpType::Delete
                        },
                        log_type: LogType::Prewrite,
                    },
                ),
            )
        } else {
            Some(None)
        },
    }
}

/// A row with the value of a default-CF pair, if that value is not empty.
pub open spec fn with_default(row: RowView, value: Seq<u8>) -> RowView {
    if value.len() > 0 {
        RowView { value, ..row }
    } else {
        row
    }
}

/// The row that ends a scan.
pub open spec fn initialized_row() -> RowView {
    RowView {
        start_ts: 0,
        commit_ts: 0,
        key: Seq::empty(),
        value: Seq::empty(),
        op_type: OpType::Unknown,
        log_type: LogType::Initialized,
    }
}

/// The rows that one scan entry gives: none or one. `None`: it is malformed.
/// A committed row is marked self-contained; a rollback is left out.
pub open spec fn scan_entry_rows(e: Option<TxnEntryView>) -> Option<Seq<RowView>> {
    match e {
        None => Some(seq![initialized_row()]),
        Some(TxnEntryView::Prewrite { default, lock }) => match lock_row(lock.0, lock.1) {
            None => None,
            Some(None) => Some(Seq::empty()),
            Some(Some(row)) => Some(seq![with_default(row, default.1)]),
        },
        Some(TxnEntryView::Commit { default, write }) => match write_row(write.0, write.1) {
            None => None,
            Some(None) => Some(Seq::empty()),
            Some(Some(row)) => if row.log_type == LogType::Rollback {
                Some(Seq::empty())
            } else {
                Some(seq![RowView { log_type: LogType::Committed, ..with_default(row, default.1) }])
            },
        },
    }
}

/// The rows of a scan, in scan order. `None`: some entry is malformed.
pub open spec fn scan_rows(entries: Seq<Option<TxnEntryView>>) -> Option<Seq<RowView>>
    decreases entries.len(),
{
    if entries.len() == 0 {
        Some(Seq::empty())
    } else {
        match (scan_rows(entries.drop_last()), scan_entry_rows(entries.last())) {
            (Some(a), Some(b)) => Some(a + b),
            _ => None,
        }
    }
}

/// Decodes a write-CF pair into a row.
pub fn decode_write(key: &[u8], value: &[u8]) -> (r: Result<Option<EventRow>, IngestError>)
    ensures
        match r {
            Ok(Some(row)) => write_row(key@, value@) == Some(Some(row@)),
            Ok(None) => write_row(key@, value@) == Some(None::<RowView>),
            Err(e) => write_row(key@, value@) is None && e == IngestError::Malformed,
        },
{
    let w = match parse_write(value) {
        Some(w) => w,
        None => return Err(IngestError::Malformed),
    };
    let (op_type, log_type) = match w.write_type {
        WriteType::Put => (OpType::Put, LogType::Commit),
        WriteType::Delete => (OpType::Delete, LogType::Commit),
        WriteType::Rollback => (OpType::Unknown, LogType::Rollback),
        WriteType::Lock => return Ok(None),
    };
    let (n, ts) = match decode_ts_suffix(key) {
        Some(x) => x,
        None => return Err(IngestError::Malformed),
    };
    let commit_ts = if w.write_type == WriteType::Rollback {
        0
    } else {
        ts
    };
    let raw = copy_range(key, 0, n);
    let short = match w.short_value {
        Some(v) => v,
        None => Vec::new(),
    };
    let row = EventRow { start_ts: w.start_ts, commit_ts, key: raw, value: short, op_type, log_type };
    assert(row@.value =~= write_row(key@, value@).unwrap().unwrap().value);
    Ok(Some(row))
}

/// Decodes a lock-CF pair into a row.
pub fn decode_lock(key: &[u8], value: &[u8]) -> (r: Result<Option<EventRow>, IngestError>)
    ensures
        match r {
            Ok(Some(row)) => lock_row(key@, value@) == Some(Some(row@)),
            Ok(None) => lock_row(key@, value@) == Some(None::<RowView>),
            Err(e) => lock_row(key@, value@) is None && e == IngestError::Malformed,
        },
{
    let l = match parse_lock(value) {
        Some(l) => l,
        None => return Err(IngestError::Malformed),
    };
    let op_type = match l.lock_type {
        LockType::Put => OpType::Put,
        LockType::Delete => OpType::Delete,
        _ => return Ok(None),
    };
    let raw = copy_range(key, 0, key.len());
    let short = match l.short_value {
        Some(v) => v,
        None => Vec::new(),
    };
    let row = EventRow {
        start_ts: l.ts,
        commit_ts: 0,
        key: raw,
        value: short,
        op_type,
        log_type: LogType::Prewrite,
    };
    assert(row@.key =~= key@);
    assert(row@.value =~= lock_row(key@, value@).unwrap().unwrap().value);
    Ok(Some(row))
}

/// Puts the value of a default-CF pair into a row, unless it is empty.
pub fn decode_default(value: Vec<u8>, row: &mut EventRow)
    ensures
        final(row)@ == with_default(old(row)@, value@),
{
    if value.len() > 0 {
        row.value = value;
    }
}

/// Decodes the entries of a snapshot scan into rows.
pub fn decode_scan(entries: &Vec<Option<TxnEntry>>) -> (r: Result<Vec<EventRow>, IngestError>)
    ensures
        match r {
            Ok(rows) => scan_rows(entries_view(entries@)) == Some(crate::event::rows_view(rows@)),
            Err(e) => scan_rows(entries_view(entries@)) is None && e == IngestError::Malformed,
        },
{
    let mut rows: Vec<EventRow> = Vec::new();
    let mut i: usize = 0;
    while i < entries.len()
        invariant
            i <= entries@.len(),
            scan_rows(entries_view(entries@.subrange(0, i as int))) == Some(
                crate::event::rows_view(rows@),
            ),
        decreases entries@.len() - i,
    {
        let ghost before = rows@;
        let ghost prefix = entries_view(entries@.subrange(0, i as int + 1));
        proof {
            assert(prefix =~= entries_view(entries@).subrange(0, i as int + 1));
            assert(prefix.drop_last() =~= entries_view(entries@.subrange(0, i as int)));
            assert(prefix.last() == entry_view(entries@[i as int]));
        }
        match &entries[i] {
            None => {
                let mut row = EventRow::new();
                set_log_type(&mut row, LogType::Initialized);
                rows.push(row);
            },
            Some(TxnEntry::Prewrite { default, lock }) => {
                match decode_lock(lock.0.as_slice(), lock.1.as_slice()) {
                    Err(e) => {
                        proof {
                            lemma_scan_rows_none_extends(entries_view(entries@), i as int + 1);
                        }
                        return Err(e);
                    },
                    Ok(None) => {},
                    Ok(Some(mut row)) => {
                        decode_default(default.1.clone(), &mut row);
                        rows.push(row);
                    },
                }
            },
            Some(TxnEntry::Commit { default, write }) => {
                match decode_write(write.0.as_slice(), write.1.as_slice()) {
                    Err(e) => {
                        proof {
                            lemma_scan_rows_none_extends(entries_view(entries@), i as int + 1);
                        }
                        return Err(e);
                    },
                    Ok(None) => {},
                    Ok(Some(mut row)) => {
                        decode_default(default.1.clone(), &mut row);
                        if row.log_type != LogType::Rollback {
                            set_log_type(&mut row, LogType::Committed);
                            rows.push(row);
                        }
                    },
                }
            },
        }
        i = i + 1;
        assert(crate::event::rows_view(rows@) =~= scan_rows(prefix).unwrap());
    }
    assert(entries@.subrange(0, entries@.len() as int) =~= entries@);
    Ok(rows)
}

proof fn lemma_scan_body_rows(entries: Seq<Option<TxnEntryView>>)
    requires
        forall|i: int| 0 <= i < entries.len() ==> (#[trigger] entries[i]) is Some,
    ensures
        scan_rows(entries) matches Some(rows) ==> forall|k: int|
            0 <= k < rows.len() ==> (#[trigger] rows[k]).log_type == LogType::Prewrite
                || rows[k].log_type == LogType::Committed,
    decreases entries.len(),
{
    if entries.len() > 0 {
        let pre = entries.drop_last();
        assert forall|i: int| 0 <= i < pre.len() implies (#[trigger] pre[i]) is Some by {
            assert(pre[i] == entries[i]);
        }
        lemma_scan_body_rows(pre);
        assert(entries.last() == entries[entries.len() - 1]);
        if let (Some(a), Some(b)) = (scan_rows(pre), scan_entry_rows(entries.last())) {
            let c = a + b;
            assert forall|k: int| 0 <= k < c.len() implies (#[trigger] c[k]).log_type
                == LogType::Prewrite || c[k].log_type == LogType::Committed by {
                if k < a.len() {
                    assert(c[k] == a[k]);
                } else {
                    assert(c[k] == b[k - a.len()]);
                }
            }
        }
    }
}

proof fn lemma_scan_rows_concat(x: Seq<Option<TxnEntryView>>, y: Seq<Option<TxnEntryView>>)
    ensures
        scan_rows(x + y) == match (scan_rows(x), scan_rows(y)) {
            (Some(a), Some(b)) => Some(a + b),
            _ => None::<Seq<RowView>>,
        },
    decreases y.len(),
{
    if y.len() == 0 {
        assert(x + y =~= x);
        if let Some(a) = scan_rows(x) {
            assert(a + Seq::<RowView>::empty() =~= a);
        }
    } else {
        lemma_scan_rows_concat(x, y.drop_last());
        assert((x + y).drop_last() =~= x + y.drop_last());
        assert((x + y).last() == y.last());
        if let (Some(a), Some(b0), Some(c)) = (
            scan_rows(x),
            scan_rows(y.drop_last()),
            scan_entry_rows(y.last()),
        ) {
            assert(a + b0 + c =~= a + (b0 + c));
        }
    }
}

/// A scan with one end marker, at position `k`, yields exactly one
/// initialized row: an all-zero row but for its type. The rows before it are
/// those of the entries before the marker, the rows after it those of the
/// entries after, and each of those is a prewrite or a self-contained commit,
/// never a live-tail commit or rollback.
pub proof fn lemma_scan_join(entries: Seq<Option<TxnEntryView>>, k: int)
    requires
        0 <= k < entries.len(),
        entries[k] is None,
        forall|i: int| 0 <= i < entries.len() && i != k ==> (#[trigger] entries[i]) is Some,
        scan_rows(entries) is Some,
    ensures
        scan_rows(entries.subrange(0, k)) is Some,
        scan_rows(entries.subrange(k + 1, entries.len() as int)) is Some,
        scan_rows(entries).unwrap() == scan_rows(entries.subrange(0, k)).unwrap() + seq![
            initialized_row(),
        ] + scan_rows(entries.subrange(k + 1, entries.len() as int)).unwrap(),
        forall|j: int|
            0 <= j < scan_rows(entries).unwrap().len() && j != scan_rows(
                entries.subrange(0, k),
            ).unwrap().len() ==> (#[trigger] scan_rows(entries).unwrap()[j]).log_type
                == LogType::Prewrite || scan_rows(entries).unwrap()[j].log_type == LogType::Committed,
{
    let x = entries.subrange(0, k);
    let y = entries.subrange(k + 1, entries.len() as int);
    let m = seq![entries[k]];
    assert(entries =~= x + m + y);
    lemma_scan_rows_concat(x + m, y);
    lemma_scan_rows_concat(x, m);
    assert(m.drop_last() =~= Seq::<Option<TxnEntryView>>::empty());
    assert(scan_rows(m.drop_last()) == Some(Seq::<RowView>::empty()));
    assert(m.last() == entries[k]);
    assert(scan_entry_rows(m.last()) == Some(seq![initialized_row()]));
    assert(scan_rows(m) == Some(Seq::<RowView>::empty() + seq![initialized_row()]));
    assert(Seq::<RowView>::empty() + seq![initialized_row()] =~= seq![initialized_row()]);
    assert forall|i: int| 0 <= i < x.len() implies (#[trigger] x[i]) is Some by {
        assert(x[i] == entries[i]);
    }
    assert forall|i: int| 0 <= i < y.len() implies (#[trigger] y[i]) is Some by {
        assert(y[i] == entries[k + 1 + i]);
    }
    lemma_scan_body_rows(x);
    lemma_scan_body_rows(y);
    let a = scan_rows(x).unwrap();
    let b = scan_rows(y).unwrap();
    let c = scan_rows(entries).unwrap();
    assert(c == a + seq![initialized_row()] + b);
    assert forall|j: int| 0 <= j < c.len() && j != a.len() implies (#[trigger] c[j]).log_type
        == LogType::Prewrite || c[j].log_type == LogType::Committed by {
        if j < a.len() {
            assert(c[j] == a[j]);
        } else {
            assert(c[j] == b[j - a.len() - 1]);
        }
    }
}

proof fn lemma_scan_rows_none_extends(s: Seq<Option<TxnEntryView>>, k: int)
    requires
        0 <= k <= s.len(),
        scan_rows(s.subrange(0, k)) is None,
    ensures
        scan_rows(s) is None,
    decreases s.len(),
{
    if s.len() == k {
        assert(s.subrange(0, k) =~= s);
    } else {
        assert(s.drop_last().subrange(0, k) =~= s.subrange(0, k));
        lemma_scan_rows_none_extends(s.drop_last(), k);
    }
}

fn set_log_type(row: &mut EventRow, ty: LogType)
    ensures
        final(row)@ == (RowView { log_type: ty, ..old(row)@ }),
{
    row.log_type = ty;
}

} // verus!
