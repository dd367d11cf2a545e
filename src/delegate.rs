use vstd::prelude::*;

use crate::batch::{apply_lock_ops, apply_ops, batch_rows, batch_spec, commit_of, requests_view, RequestView};
use crate::cmd::{AdminCmdType, AdminRequest, AdminResponse, CmdBatch, Request};
use crate::resolver::commit_allowed;
use crate::decode::{decode_scan, entries_view, initialized_row, scan_entry_rows, scan_rows, TxnEntry, TxnEntryView};
use crate::event::{
    envelope, make_envelope, rows_view, ChangeDataEvent, Error, ErrorView, EventKind,
    EventKindView, EventRow, EventView, IngestError, LogType, Region, RegionEpoch, RowView,
};
use crate::resolver::{resolve_spec, Resolver, ResolverView};

verus! {

/// A unique identifier of a downstream.
#[derive(Clone, Copy, Debug, PartialEq, Eq, Hash, Structural)]
pub struct DownstreamID(pub usize);

impl DownstreamID {
    /// The identifier with the given number; the caller hands out each number once.
    pub fn new(id: usize) -> (r: DownstreamID)
        ensures
            r.0 == id,
    {
        DownstreamID(id)
    }
}

/// A subscriber of a region's changes.
pub struct Downstream {
    /// A unique identifier of the downstream.
    pub id: DownstreamID,
    peer: String,
    region_epoch: RegionEpoch,
}

pub struct DownstreamView {
    pub id: DownstreamID,
    pub peer: Seq<char>,
    pub region_epoch: RegionEpoch,
}

impl View for Downstream {
    type V = DownstreamView;

    closed spec fn view(&self) -> DownstreamView {
        DownstreamView { id: self.id, peer: self.peer@, region_epoch: self.region_epoch }
    }
}

impl Downstream {
    /// A downstream at address `peer` that expects the region at `region_epoch`.
    pub fn new(id: DownstreamID, peer: String, region_epoch: RegionEpoch) -> (r: Downstream)
        ensures
            r@ == (DownstreamView { id, peer: peer@, region_epoch }),
    {
        Downstream { id, peer, region_epoch }
    }

    pub fn region_epoch(&self) -> (r: RegionEpoch)
        ensures
            r == self@.region_epoch,
    {
        self.region_epoch
    }
}

/// An envelope and the downstreams it goes to.
pub struct Delivery {
    pub to: Vec<DownstreamID>,
    pub change_data: ChangeDataEvent,
}

pub struct DeliveryView {
    pub to: Seq<DownstreamID>,
    pub events: Seq<EventView>,
}

impl View for Delivery {
    type V = DeliveryView;

    open spec fn view(&self) -> DeliveryView {
        DeliveryView { to: self.to@, events: self.change_data@ }
    }
}

pub open spec fn deliveries_view(ds: Seq<Delivery>) -> Seq<DeliveryView> {
    ds.map_values(|d: Delivery| d@)
}

/// Scan rows that wait for the region to become ready.
pub struct PendingScan {
    pub downstream_id: DownstreamID,
    pub rows: Vec<EventRow>,
}

pub struct PendingScanView {
    pub downstream_id: DownstreamID,
    pub rows: Seq<RowView>,
}

impl View for PendingScan {
    type V = PendingScanView;

    open spec fn view(&self) -> PendingScanView {
        PendingScanView { downstream_id: self.downstream_id, rows: rows_view(self.rows@) }
    }
}

/// What arrives before the region is ready.
struct Pending {
    downstreams: Vec<Downstream>,
    scans: Vec<PendingScan>,
}

pub struct PendingView {
    pub downstreams: Seq<DownstreamView>,
    pub scans: Seq<PendingScanView>,
}

pub open spec fn downstreams_view(ds: Seq<Downstream>) -> Seq<DownstreamView> {
    ds.map_values(|d: Downstream| d@)
}

pub open spec fn scans_view(s: Seq<PendingScan>) -> Seq<PendingScanView> {
    s.map_values(|p: PendingScan| p@)
}

/// The state of a delegate. `sent` records every delivery ever made, and
/// `outbox` those not yet taken.
pub struct DelegateView {
    pub region_id: u64,
    pub region: Option<Region>,
    pub downstreams: Seq<DownstreamView>,
    pub resolver: Option<ResolverView>,
    pub pending: Option<PendingView>,
    pub enabled: bool,
    pub failed: bool,
    pub sent: Seq<DeliveryView>,
    pub outbox: Seq<DeliveryView>,
}

/// The resolved timestamp that a delivery carries, if it carries one.
pub open spec fn rts_of(d: DeliveryView) -> Option<u64> {
    if d.events.len() == 1 && d.events[0].event is ResolvedTs {
        Some(d.events[0].event->ResolvedTs_0)
    } else {
        None
    }
}

/// Does delivery `d` carry a live commit row at or below `ts`?
pub open spec fn has_commit_at_or_below(d: DeliveryView, ts: u64) -> bool {
    exists|e: int, k: int|
        0 <= e < d.events.len() && #[trigger] d.events[e].event is Entries && 0 <= k
            < d.events[e].event->Entries_0.len() && (#[trigger] d.events[e].event->Entries_0[k]).log_type
            == LogType::Commit && d.events[e].event->Entries_0[k].commit_ts <= ts
}

/// Resolved timestamps are sent in strictly increasing order.
pub open spec fn resolved_ts_increasing(sent: Seq<DeliveryView>) -> bool {
    forall|i: int, j: int|
        0 <= i < j < sent.len() && #[trigger] rts_of(sent[i]) is Some && #[trigger] rts_of(
            sent[j],
        ) is Some ==> rts_of(sent[i]).unwrap() < rts_of(sent[j]).unwrap()
}

/// No commit at or below a resolved timestamp is sent after it.
pub open spec fn commits_above_resolved_ts(sent: Seq<DeliveryView>) -> bool {
    forall|i: int, j: int|
        0 <= i < j < sent.len() && #[trigger] rts_of(sent[i]) is Some ==> !has_commit_at_or_below(
            #[trigger] sent[j],
            rts_of(sent[i]).unwrap(),
        )
}

/// Every resolved timestamp sent is at most the resolver's.
pub open spec fn sent_within_resolver(v: DelegateView) -> bool {
    forall|i: int|
        0 <= i < v.sent.len() && #[trigger] rts_of(v.sent[i]) is Some ==> v.resolver is Some
            && v.resolver.unwrap().resolved_ts is Some && rts_of(v.sent[i]).unwrap()
            <= v.resolver.unwrap().resolved_ts.unwrap()
}

impl DelegateView {
    /// The invariant of a delegate.
    pub open spec fn inv(self) -> bool {
        &&& (self.pending is Some) == (self.region is None)
        &&& (self.pending is Some) == (self.resolver is None)
        &&& self.pending is Some ==> self.downstreams.len() == 0
        &&& self.failed ==> !self.enabled
        &&& self.resolver is Some ==> crate::resolver::keys_unique(self.resolver.unwrap().locks)
        &&& resolved_ts_increasing(self.sent)
        &&& commits_above_resolved_ts(self.sent)
        &&& sent_within_resolver(self)
        &&& self.pending is Some ==> forall|i: int|
            0 <= i < self.pending.unwrap().scans.len() ==> no_commit_rows(
                #[trigger] self.pending.unwrap().scans[i].rows,
            )
    }

    /// Ready and not failed.
    pub open spec fn is_active(self) -> bool {
        self.pending is None && !self.failed
    }

    /// The downstreams that a broadcast reaches: the queued ones before the
    /// region is ready, the subscribed ones after.
    pub open spec fn targets(self) -> Seq<DownstreamView> {
        if self.pending is Some {
            self.pending.unwrap().downstreams
        } else {
            self.downstreams
        }
    }

    /// The state with `ds` delivered.
    pub open spec fn emit(self, ds: Seq<DeliveryView>) -> DelegateView {
        DelegateView { sent: self.sent + ds, outbox: self.outbox + ds, ..self }
    }

    /// The state with `events` delivered to every target.
    pub open spec fn broadcast(self, events: Seq<EventView>) -> DelegateView {
        self.emit(seq![DeliveryView { to: ids(self.targets()), events }])
    }

    pub open spec fn error_envelope(self, e: ErrorView) -> Seq<EventView> {
        envelope(self.region_id, 0, EventKindView::Error(e))
    }
}

pub open spec fn ids(ds: Seq<DownstreamView>) -> Seq<DownstreamID> {
    ds.map_values(|d: DownstreamView| d.id)
}

/// A CDC delegate of a region peer: it turns the region's changes into
/// events, tracks transactions in flight to compute the resolved timestamp,
/// and delivers both to the downstreams.
pub struct Delegate {
    pub region_id: u64,
    region: Option<Region>,
    downstreams: Vec<Downstream>,
    resolver: Option<Resolver>,
    pending: Option<Pending>,
    enabled: bool,
    failed: bool,
    sent: Ghost<Seq<DeliveryView>>,
    outbox: Vec<Delivery>,
}

impl View for Delegate {
    type V = DelegateView;

    closed spec fn view(&self) -> DelegateView {
        DelegateView {
            region_id: self.region_id,
            region: self.region,
            downstreams: downstreams_view(self.downstreams@),
            resolver: match self.resolver {
                Some(r) => Some(r@),
                None => None,
            },
            pending: match self.pending {
                Some(p) => Some(
                    PendingView {
                        downstreams: downstreams_view(p.downstreams@),
                        scans: scans_view(p.scans@),
                    },
                ),
                None => None,
            },
            enabled: self.enabled,
            failed: self.failed,
            sent: self.sent@,
            outbox: deliveries_view(self.outbox@),
        }
    }
}

impl Delegate {
    pub open spec fn wf(&self) -> bool {
        self@.inv()
    }

    /// A delegate of region `region_id`, waiting for the region to be ready.
    pub fn new(region_id: u64) -> (r: Delegate)
        ensures
            r.wf(),
            r@ == (DelegateView {
                region_id,
                region: None,
                downstreams: Seq::empty(),
                resolver: None,
                pending: Some(PendingView { downstreams: Seq::empty(), scans: Seq::empty() }),
                enabled: true,
                failed: false,
                sent: Seq::empty(),
                outbox: Seq::empty(),
            }),
    {
        let r = Delegate {
            region_id,
            region: None,
            downstreams: Vec::new(),
            resolver: None,
            pending: Some(Pending { downstreams: Vec::new(), scans: Vec::new() }),
            enabled: true,
            failed: false,
            sent: Ghost(Seq::empty()),
            outbox: Vec::new(),
        };
        assert(r@.downstreams =~= Seq::empty());
        assert(r@.pending.unwrap().downstreams =~= Seq::empty());
        assert(r@.pending.unwrap().scans =~= Seq::empty());
        assert(r@.outbox =~= Seq::empty());
        r
    }

    /// True while some downstream is subscribed; false once the last one has
    /// left or the delegate has failed.
    pub fn enabled(&self) -> (r: bool)
        ensures
            r == self@.enabled,
    {
        self.enabled
    }

    /// Whether the region is ready: a resolver and a region are installed.
    pub fn is_ready(&self) -> (r: bool)
        ensures
            r == (self@.pending is None),
    {
        self.pending.is_none()
    }

    pub fn has_failed(&self) -> (r: bool)
        ensures
            r == self@.failed,
    {
        self.failed
    }

    /// The number of scans waiting for the region to become ready.
    pub fn num_pending_scans(&self) -> (r: usize)
        ensures
            r == match self@.pending {
                Some(p) => p.scans.len(),
                None => 0,
            },
    {
        match &self.pending {
            Some(p) => p.scans.len(),
            None => 0,
        }
    }

    /// The number of subscribed downstreams.
    pub fn num_downstreams(&self) -> (r: usize)
        ensures
            r == self@.downstreams.len(),
    {
        self.downstreams.len()
    }

    /// Hands out the deliveries made since the last call.
    pub fn take_deliveries(&mut self) -> (r: Vec<Delivery>)
        requires
            old(self).wf(),
        ensures
            final(self).wf(),
            deliveries_view(r@) == old(self)@.outbox,
            final(self)@ == (DelegateView { outbox: Seq::empty(), ..old(self)@ }),
    {
        let mut r: Vec<Delivery> = Vec::new();
        std::mem::swap(&mut self.outbox, &mut r);
        assert(self@.outbox =~= Seq::empty());
        r
    }

    fn emit(&mut self, d: Delivery)
        requires
            old(self).wf(),
            emit_allowed(old(self)@, d@),
        ensures
            final(self).wf(),
            final(self)@ == old(self)@.emit(seq![d@]),
    {
        let ghost dv = d@;
        proof {
            lemma_emit_keeps_inv(self@, dv);
        }
        self.outbox.push(d);
        self.sent = Ghost(self.sent@.push(dv));
        assert(self@.outbox =~= old(self)@.outbox + seq![dv]);
        assert(self@.sent =~= old(self)@.sent + seq![dv]);
    }

    fn target_ids(&self) -> (r: Vec<DownstreamID>)
        ensures
            r@ == ids(self@.targets()),
    {
        let list = match &self.pending {
            Some(p) => &p.downstreams,
            None => &self.downstreams,
        };
        assert(downstreams_view(list@) == self@.targets());
        let mut r: Vec<DownstreamID> = Vec::new();
        let mut i: usize = 0;
        while i < list.len()
            invariant
                i <= list@.len(),
                r@ == ids(downstreams_view(list@.subrange(0, i as int))),
            decreases list@.len() - i,
        {
            r.push(list[i].id);
            i = i + 1;
            assert(r@ =~= ids(downstreams_view(list@.subrange(0, i as int))));
        }
        assert(list@.subrange(0, i as int) =~= list@);
        r
    }

    fn broadcast(&mut self, change_data: ChangeDataEvent)
        requires
            old(self).wf(),
            emit_allowed(old(self)@, DeliveryView { to: ids(old(self)@.targets()), events: change_data@ }),
        ensures
            final(self).wf(),
            final(self)@ == old(self)@.broadcast(change_data@),
    {
        let to = self.target_ids();
        self.emit(Delivery { to, change_data });
    }

    /// The envelope that reports `err` to a downstream.
    pub fn error_event(&self, err: Error) -> (r: ChangeDataEvent)
        ensures
            r@ == self@.error_envelope(err@),
    {
        make_envelope(self.region_id, 0, EventKind::Error(err))
    }

    /// Adds a downstream. Before the region is ready it waits in the queue.
    /// Once ready, a downstream whose epoch version differs from the region's
    /// gets one epoch-not-match error and is dropped. A failed delegate takes
    /// no one.
    pub fn subscribe(&mut self, downstream: Downstream)
        requires
            old(self).wf(),
        ensures
            final(self).wf(),
            final(self)@ == subscribe_spec(old(self)@, downstream@),
    {
        if self.failed {
            return;
        }
        if self.pending.is_some() {
            let mut p = self.pending.take().unwrap();
            p.downstreams.push(downstream);
            self.pending = Some(p);
            assert(self@.pending.unwrap().downstreams =~= old(self)@.pending.unwrap().downstreams.push(
                downstream@,
            ));
            return;
        }
        let region = self.region.unwrap();
        if downstream.region_epoch.version != region.region_epoch.version {
            let mut regions: Vec<Region> = Vec::new();
            regions.push(region);
            let change_data = self.error_event(Error::EpochNotMatch(regions));
            let mut to: Vec<DownstreamID> = Vec::new();
            to.push(downstream.id);
            assert(change_data@ == old(self)@.error_envelope(ErrorView::EpochNotMatch(seq![region])));
            assert(to@ =~= seq![downstream@.id]);
            self.emit(Delivery { to, change_data });
            return;
        }
        self.downstreams.push(downstream);
        assert(self@.downstreams =~= old(self)@.downstreams.push(downstream@));
    }

    /// Drops the downstreams with identifier `id`, from the queue before the
    /// region is ready and from the subscribers after, sending `err` to them
    /// first if given. Returns whether that list is now empty, that is whether
    /// the last downstream has left; the delegate is then disabled.
    pub fn unsubscribe(&mut self, id: DownstreamID, err: Option<Error>) -> (r: bool)
        requires
            old(self).wf(),
        ensures
            final(self).wf(),
            (final(self)@, r) == unsubscribe_spec(old(self)@, id, opt_error_view(err)),
    {
        let ghost v0 = self@;
        let found = if self.pending.is_some() {
            let mut p = self.pending.take().unwrap();
            let found = remove_id(&mut p.downstreams, id);
            self.pending = Some(p);
            found
        } else {
            remove_id(&mut self.downstreams, id)
        };
        let ghost v1 = self@;
        assert(v1 == v0.with_targets(v0.targets().filter(|d: DownstreamView| d.id != id)));
        match err {
            Some(e) => if found {
                let change_data = self.error_event(e);
                let mut to: Vec<DownstreamID> = Vec::new();
                to.push(id);
                assert(to@ =~= seq![id]);
                self.emit(Delivery { to, change_data });
            },
            None => {},
        }
        let is_last = match &self.pending {
            Some(p) => p.downstreams.len() == 0,
            None => self.downstreams.len() == 0,
        };
        if is_last {
            self.enabled = false;
        }
        is_last
    }

    /// Fails the delegate: the region met an error that CDC cannot recover
    /// from. It disables the delegate and sends the error to every target.
    pub fn fail(&mut self, err: Error)
        requires
            old(self).wf(),
        ensures
            final(self).wf(),
            final(self)@ == fail_spec(old(self)@, err@),
    {
        self.enabled = false;
        let change_data = self.error_event(err);
        self.broadcast(change_data);
        self.failed = true;
    }

    /// Advances the resolved timestamp with `min_ts` and, if it moved, sends
    /// it to every subscriber. Does nothing unless ready and not failed.
    pub fn on_min_ts(&mut self, min_ts: u64)
        requires
            old(self).wf(),
        ensures
            final(self).wf(),
            final(self)@ == min_ts_spec(old(self)@, min_ts),
    {
        if self.failed || self.resolver.is_none() {
            return;
        }
        let ghost v0 = self@;
        let mut resolver = self.resolver.take().unwrap();
        let out = resolver.resolve(min_ts);
        self.resolver = Some(resolver);
        match out {
            Some(ts) => {
                let change_data = make_envelope(self.region_id, 0, EventKind::ResolvedTs(ts));
                proof {
                    lemma_no_commit_in_resolved_ts(change_data@, self.region_id, ts);
                }
                self.broadcast(change_data);
            },
            None => {},
        }
    }

    fn has_downstream(&self, id: DownstreamID) -> (r: bool)
        ensures
            r == ids(self@.downstreams).contains(id),
    {
        let mut i: usize = 0;
        while i < self.downstreams.len()
            invariant
                i <= self.downstreams@.len(),
                forall|j: int| 0 <= j < i ==> ids(self@.downstreams)[j] != id,
            decreases self.downstreams@.len() - i,
        {
            if self.downstreams[i].id == id {
                assert(ids(self@.downstreams)[i as int] == id);
                return true;
            }
            i = i + 1;
        }
        false
    }

    fn deliver_scan(&mut self, downstream_id: DownstreamID, rows: Vec<EventRow>)
        requires
            old(self).wf(),
            old(self)@.pending is None,
            no_commit_rows(rows_view(rows@)),
        ensures
            final(self).wf(),
            final(self)@ == deliver_scan_spec(old(self)@, downstream_id, rows_view(rows@)),
    {
        if !self.has_downstream(downstream_id) {
            return;
        }
        let ghost rv = rows_view(rows@);
        let change_data = make_envelope(self.region_id, 0, EventKind::Entries(rows));
        let mut to: Vec<DownstreamID> = Vec::new();
        to.push(downstream_id);
        assert(to@ =~= seq![downstream_id]);
        proof {
            lemma_no_commit_entries(change_data@, self.region_id, rv);
        }
        self.emit(Delivery { to, change_data });
    }

    /// Takes in the result of a snapshot scan for one downstream. Before the
    /// region is ready the rows wait; once ready they go to that downstream
    /// alone, if it is subscribed. A failed delegate takes nothing.
    pub fn on_scan(&mut self, downstream_id: DownstreamID, entries: Vec<Option<TxnEntry>>) -> (r:
        Result<(), IngestError>)
        requires
            old(self).wf(),
        ensures
            final(self).wf(),
            match scan_spec(old(self)@, downstream_id, entries_view(entries@)) {
                Ok(v) => r is Ok && final(self)@ == v,
                Err(e) => r == Err::<(), IngestError>(e) && final(self)@ == old(self)@,
            },
    {
        if self.failed {
            return Ok(());
        }
        let rows = match decode_scan(&entries) {
            Ok(rows) => rows,
            Err(e) => return Err(e),
        };
        proof {
            lemma_scan_rows_no_commit(entries_view(entries@));
        }
        if self.pending.is_some() {
            let mut p = self.pending.take().unwrap();
            let ghost rv = rows_view(rows@);
            p.scans.push(PendingScan { downstream_id, rows });
            self.pending = Some(p);
            assert(self@.pending.unwrap().scans =~= old(self)@.pending.unwrap().scans.push(
                PendingScanView { downstream_id, rows: rv },
            ));
            return Ok(());
        }
        self.deliver_scan(downstream_id, rows);
        Ok(())
    }

    /// Installs the resolver and the region: the delegate becomes ready. The
    /// queued downstreams then subscribe again, in order, and the queued scans
    /// are delivered, in order, before anything else can happen.
    pub fn on_region_ready(&mut self, resolver: Resolver, region: Region)
        requires
            old(self).wf(),
            old(self)@.pending is Some,
            !old(self)@.failed,
            resolver.wf(),
        ensures
            final(self).wf(),
            final(self)@ == ready_spec(old(self)@, resolver@, region),
    {
        let p = self.pending.take().unwrap();
        let ghost pv = old(self)@.pending.unwrap();
        self.resolver = Some(resolver);
        self.region = Some(region);
        let ghost v1 = self@;
        assert(v1 == (DelegateView {
            resolver: Some(resolver@),
            region: Some(region),
            pending: None,
            ..old(self)@
        }));
        let Pending { downstreams, scans } = p;
        let mut ds = downstreams;
        let ghost dorig = downstreams_view(ds@);
        let ghost n = ds@.len();
        assert(dorig.subrange(0, 0) =~= Seq::<DownstreamView>::empty());
        while ds.len() > 0
            invariant
                self.wf(),
                self@.pending is None,
                !self@.failed,
                n == dorig.len(),
                ds@.len() <= n,
                downstreams_view(ds@) == dorig.subrange(n - ds@.len(), n as int),
                self@ == subscribe_all(v1, dorig.subrange(0, n - ds@.len())),
            decreases ds@.len(),
        {
            let ghost k = n - ds@.len();
            let ghost before = ds@;
            let d = ds.remove(0);
            proof {
                assert(downstreams_view(before)[0] == before[0]@);
                assert(dorig.subrange(k, n as int)[0] == dorig[k]);
                assert forall|j: int| 0 <= j < ds@.len() implies downstreams_view(ds@)[j]
                    == dorig[k + 1 + j] by {
                    assert(ds@[j] == before[j + 1]);
                    assert(downstreams_view(before)[j + 1] == before[j + 1]@);
                    assert(dorig.subrange(k, n as int)[j + 1] == dorig[k + 1 + j]);
                }
                assert(downstreams_view(ds@) =~= dorig.subrange(k + 1, n as int));
                assert(dorig.subrange(0, k + 1).drop_last() =~= dorig.subrange(0, k));
            }
            self.subscribe(d);
        }
        assert(dorig.subrange(0, n as int) =~= dorig);
        let ghost v2 = self@;
        let mut ss = scans;
        let ghost sorig = scans_view(ss@);
        let ghost m = ss@.len();
        assert(sorig.subrange(0, 0) =~= Seq::<PendingScanView>::empty());
        while ss.len() > 0
            invariant
                self.wf(),
                self@.pending is None,
                m == sorig.len(),
                ss@.len() <= m,
                scans_view(ss@) == sorig.subrange(m - ss@.len(), m as int),
                forall|i: int| 0 <= i < sorig.len() ==> no_commit_rows(#[trigger] sorig[i].rows),
                self@ == flush_scans(v2, sorig.subrange(0, m - ss@.len())),
            decreases ss@.len(),
        {
            let ghost k = m - ss@.len();
            let ghost before = ss@;
            let s = ss.remove(0);
            proof {
                assert(scans_view(before)[0] == before[0]@);
                assert(sorig.subrange(k, m as int)[0] == sorig[k]);
                assert forall|j: int| 0 <= j < ss@.len() implies scans_view(ss@)[j] == sorig[k + 1
                    + j] by {
                    assert(ss@[j] == before[j + 1]);
                    assert(scans_view(before)[j + 1] == before[j + 1]@);
                    assert(sorig.subrange(k, m as int)[j + 1] == sorig[k + 1 + j]);
                }
                assert(scans_view(ss@) =~= sorig.subrange(k + 1, m as int));
                assert(sorig.subrange(0, k + 1).drop_last() =~= sorig.subrange(0, k));
                assert(s@ == sorig[k]);
            }
            let PendingScan { downstream_id, rows } = s;
            self.deliver_scan(downstream_id, rows);
        }
        assert(sorig.subrange(0, m as int) =~= sorig);
    }

    /// Takes in a batch of applied commands. While ready, enabled and not
    /// failed, its puts become one envelope of rows, merged by key and sent
    /// to every subscriber, and its locks update the resolver; otherwise
    /// nothing happens. No commit row it sends lies at or below a resolved
    /// timestamp sent before.
    ///
    /// A put into an unknown column family, a second write on one key, a
    /// malformed record and a commit at or below the resolved timestamp are
    /// fatal to the store: they mean corruption or a bug upstream. They come
    /// back as errors, and the delegate is left as it was.
    pub fn on_batch(&mut self, batch: CmdBatch) -> (r: Result<(), IngestError>)
        requires
            old(self).wf(),
        ensures
            final(self).wf(),
            forall|i: int, j: int|
                0 <= i < old(self)@.sent.len() <= j < final(self)@.sent.len() && #[trigger] rts_of(
                    final(self)@.sent[i],
                ) is Some ==> !has_commit_at_or_below(
                    #[trigger] final(self)@.sent[j],
                    rts_of(final(self)@.sent[i]).unwrap(),
                ),
            match batch_delegate_spec(old(self)@, batch.index, requests_view(batch.requests@)) {
                Ok(v) => r is Ok && final(self)@ == v,
                Err(e) => r == Err::<(), IngestError>(e) && final(self)@ == old(self)@,
            },
    {
        if !self.enabled || self.failed || self.pending.is_some() {
            return Ok(());
        }
        let CmdBatch { region_id: _, index, requests } = batch;
        self.sink_data(index, requests)
    }

    fn sink_data(&mut self, index: u64, requests: Vec<Request>) -> (r: Result<(), IngestError>)
        requires
            old(self).wf(),
            old(self)@.enabled,
            old(self)@.is_active(),
        ensures
            final(self).wf(),
            match batch_delegate_spec(old(self)@, index, requests_view(requests@)) {
                Ok(v) => r is Ok && final(self)@ == v,
                Err(e) => r == Err::<(), IngestError>(e) && final(self)@ == old(self)@,
            },
    {
        let resolved_ts = self.resolver.as_ref().unwrap().resolved_ts();
        let (rows, ops) = match batch_rows(&requests, resolved_ts) {
            Ok(x) => x,
            Err(e) => return Err(e),
        };
        let mut resolver = self.resolver.take().unwrap();
        apply_lock_ops(&mut resolver, &ops);
        self.resolver = Some(resolver);
        let ghost rv = rows_view(rows@);
        let change_data = make_envelope(self.region_id, index, EventKind::Entries(rows));
        proof {
            lemma_batch_emit_allowed(
                self@,
                DeliveryView { to: ids(self@.targets()), events: change_data@ },
                rv,
                index,
            );
        }
        self.broadcast(change_data);
        Ok(())
    }

    /// Takes in an observed admin command. A split fails the delegate with
    /// epoch-not-match carrying the new regions; a merge, with epoch-not-match
    /// carrying none; any other command is ignored.
    pub fn sink_admin(&mut self, request: AdminRequest, response: AdminResponse)
        requires
            old(self).wf(),
        ensures
            final(self).wf(),
            final(self)@ == admin_spec(
                old(self)@,
                request.cmd_type,
                response.split.left,
                response.split.right,
                response.splits.regions@,
            ),
    {
        let err = match request.cmd_type {
            AdminCmdType::Split => {
                let mut regions: Vec<Region> = Vec::new();
                regions.push(response.split.left);
                regions.push(response.split.right);
                assert(regions@ =~= seq![response.split.left, response.split.right]);
                Error::EpochNotMatch(regions)
            },
            AdminCmdType::BatchSplit => Error::EpochNotMatch(response.splits.regions),
            AdminCmdType::PrepareMerge | AdminCmdType::CommitMerge | AdminCmdType::RollbackMerge => {
                let regions: Vec<Region> = Vec::new();
                assert(regions@ =~= Seq::<Region>::empty());
                Error::EpochNotMatch(regions)
            },
            _ => return ,
        };
        self.fail(err);
    }
}

fn remove_id(list: &mut Vec<Downstream>, id: DownstreamID) -> (found: bool)
    ensures
        downstreams_view(final(list)@) == downstreams_view(old(list)@).filter(
            |d: DownstreamView| d.id != id,
        ),
        found == (final(list)@.len() < old(list)@.len()),
{
    let ghost orig = downstreams_view(list@);
    let ghost pred = |d: DownstreamView| d.id != id;
    let mut rest: Vec<Downstream> = Vec::new();
    std::mem::swap(list, &mut rest);
    let ghost n = rest@.len();
    let mut found = false;
    while rest.len() > 0
        invariant
            n == orig.len(),
            pred == (|d: DownstreamView| d.id != id),
            rest@.len() <= n,
            downstreams_view(rest@) == orig.subrange(n - rest@.len(), n as int),
            downstreams_view(list@) == orig.subrange(0, n - rest@.len()).filter(pred),
            found == (list@.len() < n - rest@.len()),
            list@.len() <= n - rest@.len(),
        decreases rest@.len(),
    {
        let ghost k = n - rest@.len();
        let ghost before = rest@;
        let ghost list_before = list@;
        let d = rest.remove(0);
        let ghost pre = orig.subrange(0, k + 1);
        proof {
            assert(downstreams_view(before)[0] == before[0]@);
            assert(orig.subrange(k, n as int)[0] == orig[k]);
            assert(orig[k] == d@);
            assert(rest@ =~= before.subrange(1, before.len() as int));
            assert forall|j: int| 0 <= j < rest@.len() implies downstreams_view(rest@)[j] == orig[k
                + 1 + j] by {
                assert(downstreams_view(before)[j + 1] == before[j + 1]@);
                assert(orig.subrange(k, n as int)[j + 1] == orig[k + 1 + j]);
            }
            assert(downstreams_view(rest@) =~= orig.subrange(k + 1, n as int));
            assert(pre.drop_last() =~= orig.subrange(0, k));
            assert(pre.last() == d@);
            reveal(Seq::filter);
            assert(pre.filter(pred) == if pred(d@) {
                orig.subrange(0, k).filter(pred).push(d@)
            } else {
                orig.subrange(0, k).filter(pred)
            });
        }
        assert(d@.id == d.id);
        assert(pred(d@) == (d@.id != id));
        if d.id != id {
            list.push(d);
            assert(downstreams_view(list@) =~= downstreams_view(list_before).push(d@));
            assert(pre.filter(pred) == orig.subrange(0, k).filter(pred).push(d@));
        } else {
            found = true;
            assert(pre.filter(pred) == orig.subrange(0, k).filter(pred));
        }
        assert(downstreams_view(list@) =~= pre.filter(pred));
    }
    assert(orig.subrange(0, n as int) =~= orig);
    found
}

pub open spec fn opt_error_view(e: Option<Error>) -> Option<ErrorView> {
    match e {
        Some(x) => Some(x@),
        None => None,
    }
}

impl DelegateView {
    /// The state with its targets replaced by `ds`.
    pub open spec fn with_targets(self, ds: Seq<DownstreamView>) -> DelegateView {
        if self.pending is Some {
            DelegateView {
                pending: Some(PendingView { downstreams: ds, ..self.pending.unwrap() }),
                ..self
            }
        } else {
            DelegateView { downstreams: ds, ..self }
        }
    }
}

/// What `subscribe` does.
pub open spec fn subscribe_spec(v: DelegateView, d: DownstreamView) -> DelegateView {
    if v.failed {
        v
    } else if v.pending is Some {
        v.with_targets(v.pending.unwrap().downstreams.push(d))
    } else if d.region_epoch.version != v.region.unwrap().region_epoch.version {
        v.emit(
            seq![DeliveryView { to: seq![d.id], events: v.error_envelope(ErrorView::EpochNotMatch(seq![v.region.unwrap()])) }],
        )
    } else {
        DelegateView { downstreams: v.downstreams.push(d), ..v }
    }
}

/// What `unsubscribe` does, and what it returns.
pub open spec fn unsubscribe_spec(v: DelegateView, id: DownstreamID, err: Option<ErrorView>) -> (
    DelegateView,
    bool,
) {
    let kept = v.targets().filter(|d: DownstreamView| d.id != id);
    let found = kept.len() < v.targets().len();
    let v1 = v.with_targets(kept);
    let v2 = match err {
        Some(e) => if found {
            v1.emit(seq![DeliveryView { to: seq![id], events: v.error_envelope(e) }])
        } else {
            v1
        },
        None => v1,
    };
    let is_last = v2.targets().len() == 0;
    (if is_last {
        DelegateView { enabled: false, ..v2 }
    } else {
        v2
    }, is_last)
}

/// What `fail` does.
pub open spec fn fail_spec(v: DelegateView, e: ErrorView) -> DelegateView {
    let v1 = DelegateView { enabled: false, ..v }.broadcast(v.error_envelope(e));
    DelegateView { failed: true, ..v1 }
}

/// What `on_min_ts` does.
pub open spec fn min_ts_spec(v: DelegateView, min_ts: u64) -> DelegateView {
    if v.failed || v.resolver is None {
        v
    } else {
        let (r, out) = resolve_spec(v.resolver.unwrap(), min_ts);
        let v1 = DelegateView { resolver: Some(r), ..v };
        match out {
            Some(ts) => v1.broadcast(envelope(v.region_id, 0, EventKindView::ResolvedTs(ts))),
            None => v1,
        }
    }
}

/// May `d` be delivered in state `v` without breaking the order of resolved
/// timestamps and commits? A resolved timestamp must be the resolver's and
/// above all sent before; a commit must lie above all sent before.
pub open spec fn emit_allowed(v: DelegateView, d: DeliveryView) -> bool {
    &&& rts_of(d) is Some ==> {
        &&& v.resolver is Some
        &&& v.resolver.unwrap().resolved_ts == rts_of(d)
        &&& forall|i: int|
            0 <= i < v.sent.len() && #[trigger] rts_of(v.sent[i]) is Some ==> rts_of(
                v.sent[i],
            ).unwrap() < rts_of(d).unwrap()
    }
    &&& forall|i: int|
        0 <= i < v.sent.len() && #[trigger] rts_of(v.sent[i]) is Some ==> !has_commit_at_or_below(
            d,
            rts_of(v.sent[i]).unwrap(),
        )
}

proof fn lemma_emit_keeps_inv(v: DelegateView, d: DeliveryView)
    requires
        v.inv(),
        emit_allowed(v, d),
    ensures
        v.emit(seq![d]).inv(),
{
    let w = v.emit(seq![d]);
    assert forall|i: int| 0 <= i < v.sent.len() implies w.sent[i] == v.sent[i] by {}
    assert(w.sent[v.sent.len() as int] == d);
    assert(w.sent.len() == v.sent.len() + 1);
}

proof fn lemma_no_commit_in_resolved_ts(events: Seq<EventView>, region_id: u64, ts: u64)
    requires
        events == envelope(region_id, 0, EventKindView::ResolvedTs(ts)),
    ensures
        forall|t: u64|
            !has_commit_at_or_below(DeliveryView { to: Seq::empty(), events }, t),
{
}

/// No row reports a live commit.
pub open spec fn no_commit_rows(rows: Seq<RowView>) -> bool {
    forall|k: int| 0 <= k < rows.len() ==> (#[trigger] rows[k]).log_type != LogType::Commit
}

/// Sends scan rows to downstream `id`, if it is subscribed.
pub open spec fn deliver_scan_spec(v: DelegateView, id: DownstreamID, rows: Seq<RowView>) -> DelegateView {
    if ids(v.downstreams).contains(id) {
        v.emit(
            seq![DeliveryView { to: seq![id], events: envelope(v.region_id, 0, EventKindView::Entries(rows)) }],
        )
    } else {
        v
    }
}

/// What `on_scan` does.
pub open spec fn scan_spec(v: DelegateView, id: DownstreamID, entries: Seq<Option<TxnEntryView>>) -> Result<
    DelegateView,
    IngestError,
> {
    if v.failed {
        Ok(v)
    } else {
        match scan_rows(entries) {
            None => Err(IngestError::Malformed),
            Some(rows) => if v.pending is Some {
                let p = v.pending.unwrap();
                Ok(
                    DelegateView {
                        pending: Some(
                            PendingView {
                                scans: p.scans.push(PendingScanView { downstream_id: id, rows }),
                                ..p
                            },
                        ),
                        ..v
                    },
                )
            } else {
                Ok(deliver_scan_spec(v, id, rows))
            },
        }
    }
}

/// Subscribes each of `ds`, in order.
pub open spec fn subscribe_all(v: DelegateView, ds: Seq<DownstreamView>) -> DelegateView
    decreases ds.len(),
{
    if ds.len() == 0 {
        v
    } else {
        subscribe_spec(subscribe_all(v, ds.drop_last()), ds.last())
    }
}

/// Delivers each of `scans`, in order.
pub open spec fn flush_scans(v: DelegateView, scans: Seq<PendingScanView>) -> DelegateView
    decreases scans.len(),
{
    if scans.len() == 0 {
        v
    } else {
        let w = flush_scans(v, scans.drop_last());
        deliver_scan_spec(w, scans.last().downstream_id, scans.last().rows)
    }
}

/// What `on_region_ready` does.
pub open spec fn ready_spec(v: DelegateView, r: ResolverView, region: Region) -> DelegateView {
    let p = v.pending.unwrap();
    let v1 = DelegateView { resolver: Some(r), region: Some(region), pending: None, ..v };
    flush_scans(subscribe_all(v1, p.downstreams), p.scans)
}

/// What `sink_admin` does.
pub open spec fn admin_spec(
    v: DelegateView,
    cmd: AdminCmdType,
    left: Region,
    right: Region,
    regions: Seq<Region>,
) -> DelegateView {
    match cmd {
        AdminCmdType::Split => fail_spec(v, ErrorView::EpochNotMatch(seq![left, right])),
        AdminCmdType::BatchSplit => fail_spec(v, ErrorView::EpochNotMatch(regions)),
        AdminCmdType::PrepareMerge | AdminCmdType::CommitMerge | AdminCmdType::RollbackMerge => fail_spec(
            v,
            ErrorView::EpochNotMatch(Seq::empty()),
        ),
        _ => v,
    }
}

proof fn lemma_scan_rows_no_commit(entries: Seq<Option<TxnEntryView>>)
    ensures
        scan_rows(entries) matches Some(rows) ==> no_commit_rows(rows),
    decreases entries.len(),
{
    if entries.len() > 0 {
        lemma_scan_rows_no_commit(entries.drop_last());
        match (scan_rows(entries.drop_last()), scan_entry_rows(entries.last())) {
            (Some(a), Some(b)) => {
                assert(no_commit_rows(b));
                let c = a + b;
                assert forall|k: int| 0 <= k < c.len() implies (#[trigger] c[k]).log_type
                    != LogType::Commit by {
                    if k < a.len() {
                        assert(c[k] == a[k]);
                    } else {
                        assert(c[k] == b[k - a.len()]);
                    }
                }
            },
            _ => {},
        }
    }
}

proof fn lemma_no_commit_entries(events: Seq<EventView>, region_id: u64, rows: Seq<RowView>)
    requires
        events == envelope(region_id, 0, EventKindView::Entries(rows)),
        no_commit_rows(rows),
    ensures
        forall|t: u64, to: Seq<DownstreamID>|
            !has_commit_at_or_below(DeliveryView { to, events }, t),
        forall|to: Seq<DownstreamID>| rts_of(DeliveryView { to, events }) is None,
{
}

/// What `on_batch` does.
pub open spec fn batch_delegate_spec(v: DelegateView, index: u64, reqs: Seq<RequestView>) -> Result<
    DelegateView,
    IngestError,
> {
    if !v.enabled || !v.is_active() {
        Ok(v)
    } else {
        let r = v.resolver.unwrap();
        match batch_spec(reqs, r.resolved_ts) {
            Err(e) => Err(e),
            Ok(st) => Ok(
                DelegateView {
                    resolver: Some(ResolverView { locks: apply_ops(r.locks, st.ops), ..r }),
                    ..v
                }.broadcast(envelope(v.region_id, index, EventKindView::Entries(st.rows))),
            ),
        }
    }
}

proof fn lemma_batch_emit_allowed(v: DelegateView, d: DeliveryView, rows: Seq<RowView>, index: u64)
    requires
        v.inv(),
        v.resolver is Some,
        d.events == envelope(v.region_id, index, EventKindView::Entries(rows)),
        forall|k: int|
            0 <= k < rows.len() ==> commit_allowed(
                v.resolver.unwrap().resolved_ts,
                commit_of(#[trigger] rows[k]),
            ),
    ensures
        emit_allowed(v, d),
{
    assert forall|i: int| 0 <= i < v.sent.len() && #[trigger] rts_of(v.sent[i]) is Some implies !has_commit_at_or_below(
        d,
        rts_of(v.sent[i]).unwrap(),
    ) by {
        let a = rts_of(v.sent[i]).unwrap();
        if has_commit_at_or_below(d, a) {
            let (e, k) = choose|e: int, k: int|
                0 <= e < d.events.len() && #[trigger] d.events[e].event is Entries && 0 <= k
                    < d.events[e].event->Entries_0.len() && (#[trigger] d.events[e].event->Entries_0[k]).log_type
                    == LogType::Commit && d.events[e].event->Entries_0[k].commit_ts <= a;
            assert(e == 0);
            assert(commit_allowed(v.resolver.unwrap().resolved_ts, commit_of(rows[k])));
        }
    }
}

/// The envelopes, in order, that the deliveries `ds` bring to downstream `id`.
pub open spec fn received(ds: Seq<DeliveryView>, id: DownstreamID) -> Seq<Seq<EventView>>
    decreases ds.len(),
{
    if ds.len() == 0 {
        Seq::empty()
    } else if ds.last().to.contains(id) {
        received(ds.drop_last(), id).push(ds.last().events)
    } else {
        received(ds.drop_last(), id)
    }
}

/// The deliveries that state `w` has made since state `v`.
pub open spec fn sent_since(v: DelegateView, w: DelegateView) -> Seq<DeliveryView> {
    w.sent.subrange(v.sent.len() as int, w.sent.len() as int)
}

/// Resolved timestamps leave a delegate in strictly increasing order, and no
/// commit at or below one of them is sent after it.
pub proof fn lemma_resolved_ts_order(d: &Delegate)
    requires
        d.wf(),
    ensures
        resolved_ts_increasing(d@.sent),
        commits_above_resolved_ts(d@.sent),
{
}

/// A resolved timestamp that `on_min_ts` sends is strictly larger than every
/// one sent before it.
pub proof fn lemma_min_ts_strictly_increases(v: DelegateView, min_ts: u64)
    requires
        v.inv(),
    ensures
        min_ts_spec(v, min_ts).inv(),
        forall|i: int, j: int|
            0 <= i < v.sent.len() <= j < min_ts_spec(v, min_ts).sent.len() && #[trigger] rts_of(
                min_ts_spec(v, min_ts).sent[i],
            ) is Some && #[trigger] rts_of(min_ts_spec(v, min_ts).sent[j]) is Some ==> rts_of(
                min_ts_spec(v, min_ts).sent[i],
            ).unwrap() < rts_of(min_ts_spec(v, min_ts).sent[j]).unwrap(),
{
    let w = min_ts_spec(v, min_ts);
    if !v.failed && v.resolver is Some {
        let (r, out) = resolve_spec(v.resolver.unwrap(), min_ts);
        if let Some(ts) = out {
            let v1 = DelegateView { resolver: Some(r), ..v };
            let d = DeliveryView {
                to: ids(v1.targets()),
                events: envelope(v.region_id, 0, EventKindView::ResolvedTs(ts)),
            };
            assert(emit_allowed(v1, d));
            lemma_emit_keeps_inv(v1, d);
        }
    }
}

proof fn lemma_received_append(ds: Seq<DeliveryView>, d: DeliveryView, id: DownstreamID)
    ensures
        received(ds + seq![d], id) == if d.to.contains(id) {
            received(ds, id).push(d.events)
        } else {
            received(ds, id)
        },
{
    assert((ds + seq![d]).drop_last() =~= ds);
}

/// Once the last subscriber has left, the delegate is disabled and a batch
/// changes nothing and sends nothing.
pub proof fn lemma_last_unsubscribe_disables(
    v: DelegateView,
    id: DownstreamID,
    err: Option<ErrorView>,
    index: u64,
    reqs: Seq<RequestView>,
)
    requires
        v.inv(),
        unsubscribe_spec(v, id, err).1,
    ensures
        !unsubscribe_spec(v, id, err).0.enabled,
        batch_delegate_spec(unsubscribe_spec(v, id, err).0, index, reqs) == Ok::<
            DelegateView,
            IngestError,
        >(unsubscribe_spec(v, id, err).0),
{
}

/// A ready delegate answers a downstream whose epoch version lags the
/// region's with exactly one epoch-not-match error, and does not keep it, so
/// no later broadcast reaches it.
pub proof fn lemma_epoch_gate(v: DelegateView, d: DownstreamView)
    requires
        v.inv(),
        v.is_active(),
        d.region_epoch.version < v.region.unwrap().region_epoch.version,
        !ids(v.downstreams).contains(d.id),
    ensures
        sent_since(v, subscribe_spec(v, d)) == seq![
            DeliveryView {
                to: seq![d.id],
                events: v.error_envelope(ErrorView::EpochNotMatch(seq![v.region.unwrap()])),
            },
        ],
        received(sent_since(v, subscribe_spec(v, d)), d.id).len() == 1,
        !ids(subscribe_spec(v, d).targets()).contains(d.id),
{
    let w = subscribe_spec(v, d);
    let e = DeliveryView {
        to: seq![d.id],
        events: v.error_envelope(ErrorView::EpochNotMatch(seq![v.region.unwrap()])),
    };
    assert(sent_since(v, w) =~= seq![e]);
    lemma_received_append(Seq::empty(), e, d.id);
    assert(Seq::<DeliveryView>::empty() + seq![e] =~= seq![e]);
    assert(e.to[0] == d.id);
}

proof fn lemma_flush_scans(v: DelegateView, scans: Seq<PendingScanView>)
    ensures
        flush_scans(v, scans).downstreams == v.downstreams,
        flush_scans(v, scans).pending == v.pending,
        flush_scans(v, scans).sent.len() >= v.sent.len(),
        flush_scans(v, scans).sent.subrange(0, v.sent.len() as int) == v.sent,
        forall|i: int|
            0 <= i < scans.len() && ids(v.downstreams).contains(#[trigger] scans[i].downstream_id)
                ==> received(sent_since(v, flush_scans(v, scans)), scans[i].downstream_id).contains(
                envelope(v.region_id, 0, EventKindView::Entries(scans[i].rows)),
            ),
    decreases scans.len(),
{
    if scans.len() > 0 {
        let pre = scans.drop_last();
        lemma_flush_scans(v, pre);
        let w = flush_scans(v, pre);
        let s = scans.last();
        let x = flush_scans(v, scans);
        assert(x == deliver_scan_spec(w, s.downstream_id, s.rows));
        assert(w.region_id == v.region_id) by {
            lemma_flush_region_id(v, pre);
        }
        assert forall|i: int|
            0 <= i < scans.len() && ids(v.downstreams).contains(#[trigger] scans[i].downstream_id)
                implies received(sent_since(v, x), scans[i].downstream_id).contains(
            envelope(v.region_id, 0, EventKindView::Entries(scans[i].rows)),
        ) by {
            let id = scans[i].downstream_id;
            let ev = envelope(v.region_id, 0, EventKindView::Entries(scans[i].rows));
            if ids(w.downstreams).contains(s.downstream_id) {
                let d = DeliveryView {
                    to: seq![s.downstream_id],
                    events: envelope(v.region_id, 0, EventKindView::Entries(s.rows)),
                };
                assert(sent_since(v, x) =~= sent_since(v, w) + seq![d]);
                lemma_received_append(sent_since(v, w), d, id);
                if i < scans.len() - 1 {
                    assert(pre[i] == scans[i]);
                    let r0 = received(sent_since(v, w), id);
                    assert(r0.contains(ev));
                    let k = choose|k: int| 0 <= k < r0.len() && r0[k] == ev;
                    if d.to.contains(id) {
                        assert(r0.push(d.events)[k] == ev);
                    }
                } else {
                    assert(d.to[0] == id);
                    assert(d.to.contains(id));
                    assert(received(sent_since(v, x), id).last() == ev);
                }
            } else {
                assert(x == w);
                assert(i < scans.len() - 1);
                assert(pre[i] == scans[i]);
            }
        }
        assert(x.sent.subrange(0, v.sent.len() as int) =~= v.sent);
    }
}

proof fn lemma_flush_region_id(v: DelegateView, scans: Seq<PendingScanView>)
    ensures
        flush_scans(v, scans).region_id == v.region_id,
    decreases scans.len(),
{
    if scans.len() > 0 {
        lemma_flush_region_id(v, scans.drop_last());
    }
}

/// The deliveries that flushing `scans` makes while `ds` are subscribed: one
/// per scan whose downstream is among them, to it alone, in scan order.
pub open spec fn scan_deliveries(region_id: u64, ds: Seq<DownstreamView>, scans: Seq<PendingScanView>) -> Seq<
    DeliveryView,
>
    decreases scans.len(),
{
    if scans.len() == 0 {
        Seq::empty()
    } else {
        let pre = scan_deliveries(region_id, ds, scans.drop_last());
        let s = scans.last();
        if ids(ds).contains(s.downstream_id) {
            pre.push(
                DeliveryView {
                    to: seq![s.downstream_id],
                    events: envelope(region_id, 0, EventKindView::Entries(s.rows)),
                },
            )
        } else {
            pre
        }
    }
}

proof fn lemma_flush_exact(v: DelegateView, scans: Seq<PendingScanView>)
    ensures
        flush_scans(v, scans).sent == v.sent + scan_deliveries(v.region_id, v.downstreams, scans),
        flush_scans(v, scans).downstreams == v.downstreams,
        flush_scans(v, scans).region_id == v.region_id,
    decreases scans.len(),
{
    if scans.len() == 0 {
        assert(v.sent + Seq::<DeliveryView>::empty() =~= v.sent);
    } else {
        lemma_flush_exact(v, scans.drop_last());
        let w = flush_scans(v, scans.drop_last());
        let pre = scan_deliveries(v.region_id, v.downstreams, scans.drop_last());
        let s = scans.last();
        if ids(v.downstreams).contains(s.downstream_id) {
            let d = DeliveryView {
                to: seq![s.downstream_id],
                events: envelope(v.region_id, 0, EventKindView::Entries(s.rows)),
            };
            assert(w.sent + seq![d] =~= v.sent + pre.push(d));
        }
    }
}

/// Once the region is ready nothing waits any more. Inside
/// `on_region_ready`, so before anything that arrives later, the queued
/// downstreams subscribe again and then every queued scan whose downstream is
/// subscribed is delivered to it exactly once, in arrival order.
pub proof fn lemma_pending_flush(v: DelegateView, r: ResolverView, region: Region)
    requires
        v.inv(),
        v.pending is Some,
    ensures
        ready_spec(v, r, region).pending is None,
        ready_spec(v, r, region).sent == subscribe_all(
            DelegateView { resolver: Some(r), region: Some(region), pending: None, ..v },
            v.pending.unwrap().downstreams,
        ).sent + scan_deliveries(
            v.region_id,
            ready_spec(v, r, region).downstreams,
            v.pending.unwrap().scans,
        ),
        forall|i: int|
            0 <= i < v.pending.unwrap().scans.len() && ids(ready_spec(v, r, region).downstreams).contains(
                #[trigger] v.pending.unwrap().scans[i].downstream_id,
            ) ==> received(
                sent_since(v, ready_spec(v, r, region)),
                v.pending.unwrap().scans[i].downstream_id,
            ).contains(
                envelope(
                    v.region_id,
                    0,
                    EventKindView::Entries(v.pending.unwrap().scans[i].rows),
                ),
            ),
{
    let p = v.pending.unwrap();
    let v1 = DelegateView { resolver: Some(r), region: Some(region), pending: None, ..v };
    let v2 = subscribe_all(v1, p.downstreams);
    lemma_subscribe_all(v1, p.downstreams);
    lemma_flush_scans(v2, p.scans);
    lemma_flush_exact(v2, p.scans);
    let w = ready_spec(v, r, region);
    assert forall|i: int|
        0 <= i < p.scans.len() && ids(w.downstreams).contains(#[trigger] p.scans[i].downstream_id)
            implies received(sent_since(v, w), p.scans[i].downstream_id).contains(
        envelope(v.region_id, 0, EventKindView::Entries(p.scans[i].rows)),
    ) by {
        let id = p.scans[i].downstream_id;
        lemma_received_split(sent_since(v, v2), sent_since(v2, w), id);
        assert(sent_since(v, w) =~= sent_since(v, v2) + sent_since(v2, w));
        let r2 = received(sent_since(v2, w), id);
        let ev = envelope(v.region_id, 0, EventKindView::Entries(p.scans[i].rows));
        assert(r2.contains(ev));
        let k = choose|k: int| 0 <= k < r2.len() && r2[k] == ev;
        let r1 = received(sent_since(v, v2), id);
        assert((r1 + r2)[r1.len() + k] == ev);
    }
}

proof fn lemma_subscribe_all(v: DelegateView, ds: Seq<DownstreamView>)
    requires
        v.pending is None,
    ensures
        subscribe_all(v, ds).pending is None,
        subscribe_all(v, ds).region_id == v.region_id,
        subscribe_all(v, ds).sent.len() >= v.sent.len(),
        subscribe_all(v, ds).sent.subrange(0, v.sent.len() as int) == v.sent,
    decreases ds.len(),
{
    if ds.len() > 0 {
        lemma_subscribe_all(v, ds.drop_last());
        let w = subscribe_all(v, ds.drop_last());
        assert(subscribe_all(v, ds).sent.subrange(0, v.sent.len() as int) =~= v.sent);
    }
}

proof fn lemma_received_split(a: Seq<DeliveryView>, b: Seq<DeliveryView>, id: DownstreamID)
    ensures
        received(a + b, id) == received(a, id) + received(b, id),
    decreases b.len(),
{
    if b.len() == 0 {
        assert(a + b =~= a);
        assert(received(a, id) + Seq::empty() =~= received(a, id));
    } else {
        lemma_received_split(a, b.drop_last(), id);
        assert((a + b).drop_last() =~= a + b.drop_last());
        assert((a + b).last() == b.last());
        if b.last().to.contains(id) {
            assert(received(a, id) + received(b.drop_last(), id).push(b.last().events) =~= (
            received(a, id) + received(b.drop_last(), id)).push(b.last().events));
        }
    }
}

/// An input of the live tail: a resolved-timestamp tick or a batch.
pub enum TailInput {
    MinTs(u64),
    Batch(u64, Seq<RequestView>),
}

/// One input of the live tail taken in; a batch that fails changes nothing.
pub open spec fn tail_step(v: DelegateView, input: TailInput) -> DelegateView {
    match input {
        TailInput::MinTs(ts) => min_ts_spec(v, ts),
        TailInput::Batch(index, reqs) => match batch_delegate_spec(v, index, reqs) {
            Ok(w) => w,
            Err(_) => v,
        },
    }
}

/// The live-tail inputs taken in, in order.
pub open spec fn run_tail(v: DelegateView, inputs: Seq<TailInput>) -> DelegateView
    decreases inputs.len(),
{
    if inputs.len() == 0 {
        v
    } else {
        tail_step(run_tail(v, inputs.drop_last()), inputs.last())
    }
}

proof fn lemma_run_tail_shape(v: DelegateView, inputs: Seq<TailInput>)
    requires
        v.pending is None,
    ensures
        run_tail(v, inputs).pending is None,
        run_tail(v, inputs).downstreams == v.downstreams,
        run_tail(v, inputs).sent.len() >= v.sent.len(),
        run_tail(v, inputs).sent.subrange(0, v.sent.len() as int) == v.sent,
    decreases inputs.len(),
{
    if inputs.len() > 0 {
        lemma_run_tail_shape(v, inputs.drop_last());
        let w = run_tail(v, inputs.drop_last());
        let x = run_tail(v, inputs);
        assert(x.sent.subrange(0, w.sent.len() as int) =~= w.sent);
        assert(x.sent.subrange(0, v.sent.len() as int) =~= w.sent.subrange(0, v.sent.len() as int));
    }
}

/// Any two subscribers of a ready delegate receive the very same envelopes,
/// in the same order, from any run of resolved-timestamp ticks and batches.
pub proof fn lemma_fan_out_fidelity_run(
    v: DelegateView,
    inputs: Seq<TailInput>,
    a: DownstreamID,
    b: DownstreamID,
)
    requires
        v.pending is None,
        ids(v.downstreams).contains(a),
        ids(v.downstreams).contains(b),
    ensures
        received(sent_since(v, run_tail(v, inputs)), a) == received(
            sent_since(v, run_tail(v, inputs)),
            b,
        ),
    decreases inputs.len(),
{
    let x = run_tail(v, inputs);
    lemma_run_tail_shape(v, inputs);
    if inputs.len() == 0 {
        assert(sent_since(v, x) =~= Seq::<DeliveryView>::empty());
    } else {
        let pre = inputs.drop_last();
        lemma_fan_out_fidelity_run(v, pre, a, b);
        lemma_run_tail_shape(v, pre);
        let w = run_tail(v, pre);
        assert(x == tail_step(w, inputs.last()));
        let added = x.sent.subrange(w.sent.len() as int, x.sent.len() as int);
        assert(sent_since(v, x) =~= sent_since(v, w) + added) by {
            assert(x.sent.subrange(0, w.sent.len() as int) =~= w.sent);
        }
        lemma_received_split(sent_since(v, w), added, a);
        lemma_received_split(sent_since(v, w), added, b);
        if x == w {
            assert(added =~= Seq::<DeliveryView>::empty());
        } else {
            let t = ids(w.targets());
            assert(w.targets() == v.downstreams);
            let d = x.sent.last();
            assert(x.sent == w.sent.push(d)) by {
                match inputs.last() {
                    TailInput::MinTs(ts) => {},
                    TailInput::Batch(index, reqs) => {},
                }
            }
            assert(d.to == t) by {
                match inputs.last() {
                    TailInput::MinTs(ts) => {},
                    TailInput::Batch(index, reqs) => {},
                }
            }
            assert(added =~= seq![d]);
            lemma_received_append(Seq::empty(), d, a);
            lemma_received_append(Seq::empty(), d, b);
            assert(Seq::<DeliveryView>::empty() + seq![d] =~= seq![d]);
        }
    }
}

} // verus!
