use vstd::prelude::*;
use crate::hash::CodeHash;
use crate::word::{Address, Word};

verus! {

/// Whether an operation reads or writes its resource.
#[derive(Clone, Copy, Debug, PartialEq, Eq, Structural)]
pub enum Rw {
    Read,
    Write,
}

/// A field of a call frame's context.
#[derive(Clone, Copy, Debug, PartialEq, Eq, Structural)]
pub enum CallContextField {
    IsSuccess,
    CallerId,
    CalleeAddress,
    RwCounterEndOfReversion,
    IsPersistent,
    ReturnDataOffset,
    ReturnDataLength,
    IsRoot,
    IsCreate,
    LastCalleeId,
    LastCalleeReturnDataOffset,
    LastCalleeReturnDataLength,
}

/// A field of an account.
#[derive(Clone, Copy, Debug, PartialEq, Eq, Structural)]
pub enum AccountField {
    CodeHash,
}

/// The resource an operation touches, and the value it carries.
#[derive(Clone, Copy, Debug, PartialEq, Eq)]
#[allow(inconsistent_fields)]
pub enum Target {
    Stack { call_id: usize, address: usize, value: Word },
    Memory { call_id: usize, address: usize, byte: u8 },
    CallContext { call_id: usize, field: CallContextField, value: Word },
    Account { address: Address, field: AccountField, value: CodeHash, value_prev: CodeHash },
}

/// One read or write of one resource, numbered by the block's counter.
/// A reversible write is undone if its frame fails.
#[derive(Clone, Copy, Debug, PartialEq, Eq)]
pub struct Operation {
    pub rwc: usize,
    pub rw: Rw,
    pub reversible: bool,
    pub target: Target,
}

/// The kind of region a copy reads from or writes to.
#[derive(Clone, Copy, Debug, PartialEq, Eq, Structural)]
pub enum CopyDataType {
    Memory,
    Bytecode,
}

/// What identifies a copy region: a call id, or a bytecode's hash.
#[derive(Clone, Copy, Debug, PartialEq, Eq)]
pub enum CopyId {
    Number(usize),
    Hash(CodeHash),
}

/// A contiguous byte transfer between two regions, with the bytes moved.
#[derive(Clone, Debug, PartialEq, Eq)]
pub struct CopyEvent {
    pub rw_counter_start: usize,
    pub src_type: CopyDataType,
    pub src_id: CopyId,
    pub src_addr: usize,
    pub src_addr_end: usize,
    pub dst_type: CopyDataType,
    pub dst_id: CopyId,
    pub dst_addr: usize,
    pub log_id: Option<u64>,
    pub bytes: Vec<u8>,
}

/// The records of one instruction: its operations in order, its copy events,
/// and the caller whose context it restored, if any.
#[derive(Clone, Debug, PartialEq, Eq)]
pub struct ExecStep {
    pub ops: Vec<Operation>,
    pub copy_events: Vec<CopyEvent>,
    pub restored_caller: Option<usize>,
}

impl Operation {
    pub open spec fn is_memory(self) -> bool {
        self.target is Memory
    }

    pub open spec fn is_account(self) -> bool {
        self.target is Account
    }

    pub open spec fn is_call_context(self) -> bool {
        self.target is CallContext
    }
}

impl ExecStep {
    pub fn new() -> (r: ExecStep)
        ensures
            r.ops@.len() == 0,
            r.copy_events@.len() == 0,
            r.restored_caller is None,
    {
        ExecStep { ops: Vec::new(), copy_events: Vec::new(), restored_caller: None }
    }
}

} // verus!
