//! Change data capture for one region of a replicated MVCC key-value store.
//!
//! A [`Delegate`] turns the committed changes of a region into row events,
//! tracks the transactions in flight with a [`Resolver`] to compute the
//! resolved timestamp, joins the snapshot scans of new subscribers with the
//! live tail, and fans everything out to its downstreams.

use vstd::prelude::*;

pub mod batch;
pub mod cmd;
pub mod decode;
pub mod delegate;
pub mod event;
pub mod mvcc;
pub mod options;
pub mod resolver;
pub mod table_properties;

pub use cmd::{
    AdminCmdType, AdminRequest, AdminResponse, BatchSplitResponse, CmdBatch, CmdType, PutRequest,
    Request, SplitResponse,
};
pub use decode::{decode_default, decode_lock, decode_scan, decode_write, TxnEntry};
pub use delegate::{Delegate, Delivery, Downstream, DownstreamID};
pub use event::{
    set_event_row_type, ChangeDataEvent, Error, Event, EventKind, EventRow, IngestError, LogType,
    OpType, Region, RegionEpoch,
};
pub use options::{CFOptions, IterOptions, KeyBound, ReadOptions, SeekMode, WriteOptions};
pub use resolver::Resolver;

verus! {

} // verus!
