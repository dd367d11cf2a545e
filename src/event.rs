use vstd::prelude::*;

verus! {

/// The version fingerprint of a region's topology.
#[derive(Clone, Copy, Debug, Default, PartialEq, Eq, Structural)]
pub struct RegionEpoch {
    pub conf_ver: u64,
    pub version: u64,
}

/// A contiguous key-range partition, as far as change capture needs it.
#[derive(Clone, Copy, Debug, Default, PartialEq, Eq, Structural)]
pub struct Region {
    pub id: u64,
    pub region_epoch: RegionEpoch,
}

/// What a row does to its key.
#[derive(Clone, Copy, Debug, PartialEq, Eq, Structural)]
pub enum OpType {
    Unknown,
    Put,
    Delete,
}

/// Which phase of a transaction a row reports.
#[derive(Clone, Copy, Debug, PartialEq, Eq, Structural)]
pub enum LogType {
    Unknown,
    Prewrite,
    Commit,
    Rollback,
    Committed,
    Initialized,
}

/// A region-level error, as sent to downstreams.
#[derive(Clone, Debug, PartialEq, Eq)]
pub enum Error {
    NotLeader,
    RegionNotFound,
    EpochNotMatch(Vec<Region>),
}

/// Why a batch or a scan could not be taken in.
#[derive(Clone, Copy, Debug, PartialEq, Eq, Structural)]
pub enum IngestError {
    /// A key or a record does not follow its format.
    Malformed,
    /// A put names a column family that holds no change data.
    UnknownColumnFamily,
    /// One batch holds two write records for one key.
    DuplicateWrite,
    /// A commit at or below the resolved timestamp already sent.
    CommitNotAfterResolvedTs,
}

/// One row-level change.
#[derive(Clone, Debug, PartialEq, Eq)]
pub struct EventRow {
    pub start_ts: u64,
    pub commit_ts: u64,
    pub key: Vec<u8>,
    pub value: Vec<u8>,
    pub op_type: OpType,
    pub log_type: LogType,
}

/// The payload of an event.
#[derive(Clone, Debug, PartialEq, Eq)]
pub enum EventKind {
    Entries(Vec<EventRow>),
    ResolvedTs(u64),
    Error(Error),
}

/// An event of one region.
#[derive(Clone, Debug, PartialEq, Eq)]
pub struct Event {
    pub region_id: u64,
    pub index: u64,
    pub event: EventKind,
}

/// The envelope pushed to a downstream.
#[derive(Clone, Debug, PartialEq, Eq)]
pub struct ChangeDataEvent {
    pub events: Vec<Event>,
}

/// The mathematical value of an [`EventRow`].
pub struct RowView {
    pub start_ts: u64,
    pub commit_ts: u64,
    pub key: Seq<u8>,
    pub value: Seq<u8>,
    pub op_type: OpType,
    pub log_type: LogType,
}

pub enum ErrorView {
    NotLeader,
    RegionNotFound,
    EpochNotMatch(Seq<Region>),
}

pub enum EventKindView {
    Entries(Seq<RowView>),
    ResolvedTs(u64),
    Error(ErrorView),
}

pub struct EventView {
    pub region_id: u64,
    pub index: u64,
    pub event: EventKindView,
}

/// The all-zero row.
pub open spec fn empty_row() -> RowView {
    RowView {
        start_ts: 0,
        commit_ts: 0,
        key: Seq::empty(),
        value: Seq::empty(),
        op_type: OpType::Unknown,
        log_type: LogType::Unknown,
    }
}

pub open spec fn rows_view(rows: Seq<EventRow>) -> Seq<RowView> {
    rows.map_values(|r: EventRow| r@)
}

impl View for EventRow {
    type V = RowView;

    open spec fn view(&self) -> RowView {
        RowView {
            start_ts: self.start_ts,
            commit_ts: self.commit_ts,
            key: self.key@,
            value: self.value@,
            op_type: self.op_type,
            log_type: self.log_type,
        }
    }
}

impl View for Error {
    type V = ErrorView;

    open spec fn view(&self) -> ErrorView {
        match self {
            Error::NotLeader => ErrorView::NotLeader,
            Error::RegionNotFound => ErrorView::RegionNotFound,
            Error::EpochNotMatch(regions) => ErrorView::EpochNotMatch(regions@),
        }
    }
}

impl View for EventKind {
    type V = EventKindView;

    open spec fn view(&self) -> EventKindView {
        match self {
            EventKind::Entries(rows) => EventKindView::Entries(rows_view(rows@)),
            EventKind::ResolvedTs(ts) => EventKindView::ResolvedTs(*ts),
            EventKind::Error(e) => EventKindView::Error(e@),
        }
    }
}

impl View for Event {
    type V = EventView;

    open spec fn view(&self) -> EventView {
        EventView { region_id: self.region_id, index: self.index, event: self.event@ }
    }
}

impl View for ChangeDataEvent {
    type V = Seq<EventView>;

    open spec fn view(&self) -> Seq<EventView> {
        self.events@.map_values(|e: Event| e@)
    }
}

impl EventRow {
    /// The all-zero row.
    pub fn new() -> (r: EventRow)
        ensures
            r@ == empty_row(),
    {
        EventRow {
            start_ts: 0,
            commit_ts: 0,
            key: Vec::new(),
            value: Vec::new(),
            op_type: OpType::Unknown,
            log_type: LogType::Unknown,
        }
    }
}

/// Sets the log type of a row, leaving its other fields alone.
pub fn set_event_row_type(row: &mut EventRow, ty: LogType)
    ensures
        final(row)@ == (RowView { log_type: ty, ..old(row)@ }),
{
    row.log_type = ty;
}

/// An envelope holding the one event `event` of region `region_id`.
pub open spec fn envelope(region_id: u64, index: u64, event: EventKindView) -> Seq<EventView> {
    seq![EventView { region_id, index, event }]
}

/// Wraps one event into an envelope.
pub fn make_envelope(region_id: u64, index: u64, event: EventKind) -> (r: ChangeDataEvent)
    ensures
        r@ == envelope(region_id, index, event@),
{
    let mut events: Vec<Event> = Vec::new();
    events.push(Event { region_id, index, event });
    let r = ChangeDataEvent { events };
    assert(r@ =~= envelope(region_id, index, event@));
    r
}

} // verus!
