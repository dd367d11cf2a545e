use vstd::prelude::*;

use crate::event::Region;

verus! {

/// The kind of a raft command request.
#[derive(Clone, Copy, Debug, PartialEq, Eq, Structural)]
pub enum CmdType {
    Invalid,
    Get,
    Put,
    Delete,
    Snap,
    Prewrite,
    DeleteRange,
    IngestSst,
    ReadIndex,
}

/// A put into a column family.
#[derive(Clone, Debug, Default, PartialEq, Eq)]
pub struct PutRequest {
    pub cf: String,
    pub key: Vec<u8>,
    pub value: Vec<u8>,
}

/// One request of a command batch; only a put carries change data.
#[derive(Clone, Debug, PartialEq, Eq)]
pub struct Request {
    pub cmd_type: CmdType,
    pub put: PutRequest,
}

/// The requests that one applied raft log entry carries.
#[derive(Clone, Debug, PartialEq, Eq)]
pub struct CmdBatch {
    pub region_id: u64,
    pub index: u64,
    pub requests: Vec<Request>,
}

/// The kind of an admin command.
#[derive(Clone, Copy, Debug, PartialEq, Eq, Structural)]
pub enum AdminCmdType {
    InvalidAdmin,
    ChangePeer,
    Split,
    CompactLog,
    TransferLeader,
    ComputeHash,
    VerifyHash,
    PrepareMerge,
    CommitMerge,
    RollbackMerge,
    BatchSplit,
}

#[derive(Clone, Copy, Debug, PartialEq, Eq)]
pub struct AdminRequest {
    pub cmd_type: AdminCmdType,
}

#[derive(Clone, Copy, Debug, Default, PartialEq, Eq)]
pub struct SplitResponse {
    pub left: Region,
    pub right: Region,
}

#[derive(Clone, Debug, Default, PartialEq, Eq)]
pub struct BatchSplitResponse {
    pub regions: Vec<Region>,
}

/// The outcome of an admin command: the regions a split produced.
#[derive(Clone, Debug, Default, PartialEq, Eq)]
pub struct AdminResponse {
    pub split: SplitResponse,
    pub splits: BatchSplitResponse,
}

impl AdminRequest {
    pub fn new(cmd_type: AdminCmdType) -> (r: AdminRequest)
        ensures
            r.cmd_type == cmd_type,
    {
        AdminRequest { cmd_type }
    }
}

} // verus!
