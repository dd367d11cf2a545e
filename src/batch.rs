use vstd::prelude::*;

use crate::cmd::{CmdType, Request};
use crate::decode::{decode_default, decode_lock, decode_write, lock_row, with_default, write_row};
use crate::event::{empty_row, rows_view, EventRow, IngestError, LogType, OpType, RowView};
use crate::mvcc::{copy_range, decode_ts_suffix, split_ts};
use crate::resolver::{bytes_eq, commit_allowed, track_spec, untrack_spec, LockSeq, Resolver, ResolverView};

verus! {

/// The column families a put can name.
#[derive(Clone, Copy, Debug, PartialEq, Eq, Structural)]
pub enum CfKind {
    Default,
    Lock,
    Write,
    Other,
}

/// The column family that a name stands for; the empty name is the default one.
pub open spec fn cf_kind_spec(cf: Seq<char>) -> CfKind {
    if cf == "write"@ {
        CfKind::Write
    } else if cf == "lock"@ {
        CfKind::Lock
    } else if cf == "default"@ || cf.len() == 0 {
        CfKind::Default
    } else {
        CfKind::Other
    }
}

pub fn cf_kind(cf: &String) -> (r: CfKind)
    ensures
        r == cf_kind_spec(cf@),
{
    let write = "write".to_owned();
    let lock = "lock".to_owned();
    let default = "default".to_owned();
    if cf.eq(&write) {
        CfKind::Write
    } else if cf.eq(&lock) {
        CfKind::Lock
    } else if cf.eq(&default) || cf.as_str().is_empty() {
        CfKind::Default
    } else {
        CfKind::Other
    }
}

/// A change to the resolver's locks that a batch asks for.
pub enum LockOp {
    Track { start_ts: u64, key: Vec<u8> },
    Untrack { start_ts: u64, commit_ts: Option<u64>, key: Vec<u8> },
}

pub enum LockOpView {
    Track { start_ts: u64, key: Seq<u8> },
    Untrack { start_ts: u64, commit_ts: Option<u64>, key: Seq<u8> },
}

impl View for LockOp {
    type V = LockOpView;

    open spec fn view(&self) -> LockOpView {
        match self {
            LockOp::Track { start_ts, key } => LockOpView::Track { start_ts: *start_ts, key: key@ },
            LockOp::Untrack { start_ts, commit_ts, key } => LockOpView::Untrack {
                start_ts: *start_ts,
                commit_ts: *commit_ts,
                key: key@,
            },
        }
    }
}

pub open spec fn ops_view(ops: Seq<LockOp>) -> Seq<LockOpView> {
    ops.map_values(|o: LockOp| o@)
}

/// The locks after `ops`, in order.
pub open spec fn apply_ops(locks: LockSeq, ops: Seq<LockOpView>) -> LockSeq
    decreases ops.len(),
{
    if ops.len() == 0 {
        locks
    } else {
        let l = apply_ops(locks, ops.drop_last());
        match ops.last() {
            LockOpView::Track { start_ts, key } => track_spec(l, start_ts, key),
            LockOpView::Untrack { start_ts, commit_ts, key } => untrack_spec(l, start_ts, key),
        }
    }
}

pub struct RequestView {
    pub cmd_type: CmdType,
    pub cf: Seq<char>,
    pub key: Seq<u8>,
    pub value: Seq<u8>,
}

pub open spec fn request_view(r: Request) -> RequestView {
    RequestView { cmd_type: r.cmd_type, cf: r.put.cf@, key: r.put.key@, value: r.put.value@ }
}

pub open spec fn requests_view(rs: Seq<Request>) -> Seq<RequestView> {
    rs.map_values(|r: Request| request_view(r))
}

/// The rows of a batch so far, merged by key, and the lock changes so far.
pub struct BatchState {
    pub rows: Seq<RowView>,
    pub ops: Seq<LockOpView>,
}

/// The position of the last row on `key`, or -1.
pub open spec fn row_pos(rows: Seq<RowView>, key: Seq<u8>) -> int
    decreases rows.len(),
{
    if rows.len() == 0 {
        -1
    } else if rows.last().key == key {
        rows.len() - 1
    } else {
        row_pos(rows.drop_last(), key)
    }
}

/// `rows` with `row` in place of the row on its key, or added at the end.
pub open spec fn put_row(rows: Seq<RowView>, row: RowView) -> Seq<RowView> {
    let p = row_pos(rows, row.key);
    if p >= 0 {
        rows.update(p, row)
    } else {
        rows.push(row)
    }
}

/// Is this row a commit or a rollback?
pub open spec fn is_write_row(row: RowView) -> bool {
    row.log_type == LogType::Commit || row.log_type == LogType::Rollback
}

/// The commit timestamp that a write row reports to the resolver.
pub open spec fn commit_of(row: RowView) -> Option<u64> {
    if row.log_type == LogType::Commit {
        Some(row.commit_ts)
    } else {
        None
    }
}

/// One request taken into a batch. Only puts count. A write row untracks its
/// lock and may not meet another write on its key; a lock row tracks its lock
/// and keeps a value already seen for its key; a default value goes to the
/// row of its key, created if need be.
pub open spec fn apply_request(st: BatchState, req: RequestView, resolved_ts: Option<u64>) -> Result<
    BatchState,
    IngestError,
> {
    if req.cmd_type != CmdType::Put {
        Ok(st)
    } else {
        match cf_kind_spec(req.cf) {
            CfKind::Write => match write_row(req.key, req.value) {
                None => Err(IngestError::Malformed),
                Some(None) => Ok(st),
                Some(Some(row)) => if !commit_allowed(resolved_ts, commit_of(row)) {
                    Err(IngestError::CommitNotAfterResolvedTs)
                } else if row_pos(st.rows, row.key) >= 0 && is_write_row(
                    st.rows[row_pos(st.rows, row.key)],
                ) {
                    Err(IngestError::DuplicateWrite)
                } else {
                    Ok(
                        BatchState {
                            rows: put_row(st.rows, row),
                            ops: st.ops.push(
                                LockOpView::Untrack {
                                    start_ts: row.start_ts,
                                    commit_ts: commit_of(row),
                                    key: row.key,
                                },
                            ),
                        },
                    )
                },
            },
            CfKind::Lock => match lock_row(req.key, req.value) {
                None => Err(IngestError::Malformed),
                Some(None) => Ok(st),
                Some(Some(row)) => {
                    let p = row_pos(st.rows, row.key);
                    let merged = if p >= 0 && st.rows[p].value.len() > 0 {
                        RowView { value: st.rows[p].value, ..row }
                    } else {
                        row
                    };
                    Ok(
                        BatchState {
                            rows: put_row(st.rows, merged),
                            ops: st.ops.push(
                                LockOpView::Track { start_ts: row.start_ts, key: row.key },
                            ),
                        },
                    )
                },
            },
            CfKind::Default => match split_ts(req.key) {
                None => Err(IngestError::Malformed),
                Some((raw, _)) => {
                    let p = row_pos(st.rows, raw);
                    let base = if p >= 0 {
                        st.rows[p]
                    } else {
                        RowView { key: raw, ..empty_row() }
                    };
                    Ok(BatchState { rows: put_row(st.rows, with_default(base, req.value)), ..st })
                },
            },
            CfKind::Other => Err(IngestError::UnknownColumnFamily),
        }
    }
}

/// A whole batch, request by request.
pub open spec fn batch_spec(reqs: Seq<RequestView>, resolved_ts: Option<u64>) -> Result<
    BatchState,
    IngestError,
>
    decreases reqs.len(),
{
    if reqs.len() == 0 {
        Ok(BatchState { rows: Seq::empty(), ops: Seq::empty() })
    } else {
        match batch_spec(reqs.drop_last(), resolved_ts) {
            Err(e) => Err(e),
            Ok(st) => apply_request(st, reqs.last(), resolved_ts),
        }
    }
}

/// Every commit row lies above the resolved timestamp.
pub open spec fn commits_allowed(st: BatchState, resolved_ts: Option<u64>) -> bool {
    forall|k: int|
        0 <= k < st.rows.len() ==> commit_allowed(resolved_ts, commit_of(#[trigger] st.rows[k]))
}

fn find_row(rows: &Vec<EventRow>, key: &[u8]) -> (r: Option<usize>)
    ensures
        match r {
            Some(p) => p as int == row_pos(rows_view(rows@), key@) && p < rows@.len() && rows@[p as int]@.key
                == key@,
            None => row_pos(rows_view(rows@), key@) == -1,
        },
{
    proof {
        lemma_row_pos(rows_view(rows@), key@);
    }
    let ghost all = rows_view(rows@);
    let mut i: usize = rows.len();
    assert(all.subrange(0, i as int) =~= all);
    while i > 0
        invariant
            i <= rows@.len(),
            all == rows_view(rows@),
            row_pos(all, key@) == row_pos(all.subrange(0, i as int), key@),
        decreases i,
    {
        let ghost sub = all.subrange(0, i as int);
        assert(sub.last() == rows@[i - 1]@);
        if bytes_eq(rows[i - 1].key.as_slice(), key) {
            return Some(i - 1);
        }
        assert(sub.drop_last() =~= all.subrange(0, i - 1));
        i = i - 1;
    }
    None
}

fn clone_row(r: &EventRow) -> (c: EventRow)
    ensures
        c@ == r@,
{
    EventRow {
        start_ts: r.start_ts,
        commit_ts: r.commit_ts,
        key: r.key.clone(),
        value: r.value.clone(),
        op_type: r.op_type,
        log_type: r.log_type,
    }
}

/// Puts `row` in place of the row on its key, or at the end.
fn put_row_exec(rows: &mut Vec<EventRow>, row: EventRow, pos: Option<usize>)
    requires
        match pos {
            Some(p) => p as int == row_pos(rows_view(old(rows)@), row@.key) && p < old(rows)@.len(),
            None => row_pos(rows_view(old(rows)@), row@.key) == -1,
        },
    ensures
        rows_view(final(rows)@) == put_row(rows_view(old(rows)@), row@),
{
    let ghost rv = row@;
    match pos {
        Some(p) => {
            rows.set(p, row);
        },
        None => {
            rows.push(row);
        },
    }
    assert(rows_view(rows@) =~= put_row(rows_view(old(rows)@), rv));
}

/// Merges the puts of a batch into rows, one per key in order of first
/// appearance, and lists the lock changes they ask of the resolver.
pub fn batch_rows(requests: &Vec<Request>, resolved_ts: Option<u64>) -> (r: Result<
    (Vec<EventRow>, Vec<LockOp>),
    IngestError,
>)
    ensures
        match r {
            Ok((rows, ops)) => batch_spec(requests_view(requests@), resolved_ts) == Ok::<
                BatchState,
                IngestError,
            >(BatchState { rows: rows_view(rows@), ops: ops_view(ops@) }),
            Err(e) => batch_spec(requests_view(requests@), resolved_ts) == Err::<BatchState, IngestError>(e),
        },
        r matches Ok((rows, ops)) ==> commits_allowed(
            BatchState { rows: rows_view(rows@), ops: ops_view(ops@) },
            resolved_ts,
        ),
{
    let mut rows: Vec<EventRow> = Vec::new();
    let mut ops: Vec<LockOp> = Vec::new();
    let mut i: usize = 0;
    assert(requests_view(requests@.subrange(0, 0)) =~= Seq::<RequestView>::empty());
    assert(rows_view(rows@) =~= Seq::<RowView>::empty());
    assert(ops_view(ops@) =~= Seq::<LockOpView>::empty());
    while i < requests.len()
        invariant
            i <= requests@.len(),
            batch_spec(requests_view(requests@.subrange(0, i as int)), resolved_ts) == Ok::<
                BatchState,
                IngestError,
            >(BatchState { rows: rows_view(rows@), ops: ops_view(ops@) }),
            commits_allowed(BatchState { rows: rows_view(rows@), ops: ops_view(ops@) }, resolved_ts),
        decreases requests@.len() - i,
    {
        let ghost st = BatchState { rows: rows_view(rows@), ops: ops_view(ops@) };
        let ghost prefix = requests_view(requests@.subrange(0, i as int + 1));
        let ghost req = request_view(requests@[i as int]);
        proof {
            assert(prefix.drop_last() =~= requests_view(requests@.subrange(0, i as int)));
            assert(prefix.last() == req);
        }
        let ghost expected = apply_request(st, req, resolved_ts);
        let request = &requests[i];
        if request.cmd_type == CmdType::Put {
            match cf_kind(&request.put.cf) {
                CfKind::Write => {
                    match decode_write(request.put.key.as_slice(), request.put.value.as_slice()) {
                        Err(e) => {
                            proof {
                                assert(prefix =~= requests_view(requests@).subrange(0, i as int + 1));
                                assert(batch_spec(prefix, resolved_ts) is Err);
                                lemma_batch_err_extends(requests_view(requests@), i as int + 1, resolved_ts);
                            }
                            return Err(e);
                        },
                        Ok(None) => {},
                        Ok(Some(row)) => {
                            let commit = if row.log_type == LogType::Commit {
                                Some(row.commit_ts)
                            } else {
                                None
                            };
                            let allowed = match (resolved_ts, commit) {
                                (Some(rts), Some(c)) => c > rts,
                                _ => true,
                            };
                            if !allowed {
                                proof {
                                    assert(prefix =~= requests_view(requests@).subrange(0, i as int + 1));
                                    assert(batch_spec(prefix, resolved_ts) is Err);
                                    lemma_batch_err_extends(requests_view(requests@), i as int + 1, resolved_ts);
                                }
                                return Err(IngestError::CommitNotAfterResolvedTs);
                            }
                            let pos = find_row(&rows, row.key.as_slice());
                            match pos {
                                Some(p) => {
                                    if rows[p].log_type == LogType::Commit || rows[p].log_type
                                        == LogType::Rollback {
                                        proof {
                                            assert(rows_view(rows@)[p as int] == rows@[p as int]@);
                                            assert(prefix =~= requests_view(requests@).subrange(0, i as int + 1));
                                            assert(batch_spec(prefix, resolved_ts) is Err);
                                            lemma_batch_err_extends(requests_view(requests@), i as int + 1, resolved_ts);
                                        }
                                        return Err(IngestError::DuplicateWrite);
                                    }
                                },
                                None => {},
                            }
                            let op = LockOp::Untrack {
                                start_ts: row.start_ts,
                                commit_ts: commit,
                                key: row.key.clone(),
                            };
                            let ghost ops_before = ops_view(ops@);
                            let ghost opv = op@;
                            put_row_exec(&mut rows, row, pos);
                            ops.push(op);
                            assert(ops_view(ops@) =~= ops_before.push(opv));
                            assert(expected == Ok::<BatchState, IngestError>(
                                BatchState { rows: rows_view(rows@), ops: ops_view(ops@) },
                            ));
                        },
                    }
                },
                CfKind::Lock => {
                    match decode_lock(request.put.key.as_slice(), request.put.value.as_slice()) {
                        Err(e) => {
                            proof {
                                assert(prefix =~= requests_view(requests@).subrange(0, i as int + 1));
                                assert(batch_spec(prefix, resolved_ts) is Err);
                                lemma_batch_err_extends(requests_view(requests@), i as int + 1, resolved_ts);
                            }
                            return Err(e);
                        },
                        Ok(None) => {},
                        Ok(Some(row)) => {
                            let mut row = row;
                            let op = LockOp::Track { start_ts: row.start_ts, key: row.key.clone() };
                            let pos = find_row(&rows, row.key.as_slice());
                            match pos {
                                Some(p) => {
                                    if rows[p].value.len() > 0 {
                                        row.value = rows[p].value.clone();
                                    }
                                },
                                None => {},
                            }
                            let ghost ops_before = ops_view(ops@);
                            let ghost opv = op@;
                            let ghost rowv = row@;
                            put_row_exec(&mut rows, row, pos);
                            ops.push(op);
                            assert(ops_view(ops@) =~= ops_before.push(opv));
                            assert(expected == Ok::<BatchState, IngestError>(
                                BatchState { rows: rows_view(rows@), ops: ops_view(ops@) },
                            ));
                        },
                    }
                },
                CfKind::Default => {
                    let key = request.put.key.as_slice();
                    let (n, _) = match decode_ts_suffix(key) {
                        Some(x) => x,
                        None => {
                            proof {
                                assert(prefix =~= requests_view(requests@).subrange(0, i as int + 1));
                                assert(batch_spec(prefix, resolved_ts) is Err);
                                lemma_batch_err_extends(requests_view(requests@), i as int + 1, resolved_ts);
                            }
                            return Err(IngestError::Malformed);
                        },
                    };
                    let raw = copy_range(key, 0, n);
                    let pos = find_row(&rows, raw.as_slice());
                    let mut row = match pos {
                        Some(p) => clone_row(&rows[p]),
                        None => {
                            let mut r = EventRow::new();
                            r.key = raw;
                            r
                        },
                    };
                    decode_default(request.put.value.clone(), &mut row);
                    put_row_exec(&mut rows, row, pos);
                    assert(expected == Ok::<BatchState, IngestError>(
                        BatchState { rows: rows_view(rows@), ops: ops_view(ops@) },
                    ));
                },
                CfKind::Other => {
                    proof {
                        assert(prefix =~= requests_view(requests@).subrange(0, i as int + 1));
                        assert(batch_spec(prefix, resolved_ts) is Err);
                        lemma_batch_err_extends(requests_view(requests@), i as int + 1, resolved_ts);
                    }
                    return Err(IngestError::UnknownColumnFamily);
                },
            }
        }
        assert(expected == Ok::<BatchState, IngestError>(
            BatchState { rows: rows_view(rows@), ops: ops_view(ops@) },
        ));
        proof {
            lemma_commits_allowed_step(st, req, resolved_ts);
        }
        i = i + 1;
    }
    assert(requests@.subrange(0, i as int) =~= requests@);
    Ok((rows, ops))
}

/// Applies the lock changes of a batch to a resolver, in order.
pub fn apply_lock_ops(resolver: &mut Resolver, ops: &Vec<LockOp>)
    requires
        old(resolver).wf(),
    ensures
        final(resolver).wf(),
        final(resolver)@ == (ResolverView {
            locks: apply_ops(old(resolver)@.locks, ops_view(ops@)),
            ..old(resolver)@
        }),
{
    let ghost all = ops_view(ops@);
    let mut i: usize = 0;
    assert(all.subrange(0, 0) =~= Seq::<LockOpView>::empty());
    while i < ops.len()
        invariant
            i <= ops@.len(),
            all == ops_view(ops@),
            resolver.wf(),
            resolver@ == (ResolverView {
                locks: apply_ops(old(resolver)@.locks, all.subrange(0, i as int)),
                ..old(resolver)@
            }),
        decreases ops@.len() - i,
    {
        proof {
            assert(all.subrange(0, i as int + 1).drop_last() =~= all.subrange(0, i as int));
            assert(all.subrange(0, i as int + 1).last() == all[i as int]);
            assert(all[i as int] == ops@[i as int]@);
        }
        match &ops[i] {
            LockOp::Track { start_ts, key } => {
                resolver.track_lock(*start_ts, key.clone());
            },
            LockOp::Untrack { start_ts, commit_ts, key } => {
                resolver.untrack_lock(*start_ts, *commit_ts, key.clone());
            },
        }
        i = i + 1;
    }
    assert(all.subrange(0, i as int) =~= all);
}

proof fn lemma_batch_err_extends(reqs: Seq<RequestView>, k: int, resolved_ts: Option<u64>)
    requires
        0 <= k <= reqs.len(),
        batch_spec(reqs.subrange(0, k), resolved_ts) is Err,
    ensures
        batch_spec(reqs, resolved_ts) == batch_spec(reqs.subrange(0, k), resolved_ts),
    decreases reqs.len(),
{
    if reqs.len() == k {
        assert(reqs.subrange(0, k) =~= reqs);
    } else {
        assert(reqs.drop_last().subrange(0, k) =~= reqs.subrange(0, k));
        lemma_batch_err_extends(reqs.drop_last(), k, resolved_ts);
    }
}

proof fn lemma_row_pos(rows: Seq<RowView>, key: Seq<u8>)
    ensures
        -1 <= row_pos(rows, key) < rows.len(),
        row_pos(rows, key) >= 0 ==> rows[row_pos(rows, key)].key == key,
    decreases rows.len(),
{
    if rows.len() > 0 {
        lemma_row_pos(rows.drop_last(), key);
    }
}

proof fn lemma_put_row_elems(rows: Seq<RowView>, row: RowView)
    ensures
        forall|k: int|
            0 <= k < put_row(rows, row).len() ==> #[trigger] put_row(rows, row)[k] == row || (k
                < rows.len() && put_row(rows, row)[k] == rows[k]),
{
    lemma_row_pos(rows, row.key);
}

proof fn lemma_commits_allowed_step(st: BatchState, req: RequestView, resolved_ts: Option<u64>)
    requires
        commits_allowed(st, resolved_ts),
    ensures
        apply_request(st, req, resolved_ts) matches Ok(next) ==> commits_allowed(next, resolved_ts),
{
    if let Ok(next) = apply_request(st, req, resolved_ts) {
        if req.cmd_type == CmdType::Put {
            let kind = cf_kind_spec(req.cf);
            if kind == CfKind::Write {
                if let Some(Some(row)) = write_row(req.key, req.value) {
                    lemma_put_row_elems(st.rows, row);
                }
            } else if kind == CfKind::Lock {
                if let Some(Some(row)) = lock_row(req.key, req.value) {
                    let p = row_pos(st.rows, row.key);
                    let merged = if p >= 0 && st.rows[p].value.len() > 0 {
                        RowView { value: st.rows[p].value, ..row }
                    } else {
                        row
                    };
                    lemma_put_row_elems(st.rows, merged);
                }
            } else if kind == CfKind::Default {
                if let Some((raw, _)) = split_ts(req.key) {
                    let p = row_pos(st.rows, raw);
                    lemma_row_pos(st.rows, raw);
                    let base = if p >= 0 {
                        st.rows[p]
                    } else {
                        RowView { key: raw, ..empty_row() }
                    };
                    assert(commit_allowed(resolved_ts, commit_of(base)));
                    lemma_put_row_elems(st.rows, with_default(base, req.value));
                }
            }
        }
        assert forall|k: int| 0 <= k < next.rows.len() implies commit_allowed(
            resolved_ts,
            commit_of(#[trigger] next.rows[k]),
        ) by {
            if k < st.rows.len() && next.rows[k] == st.rows[k] {
            }
        }
    }
}

} // verus!
