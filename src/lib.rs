//! Bus-mapping records for the call-terminating RETURN and REVERT
//! instructions: stack, memory, call-context and account operations, copy
//! events, and the memory and code-store effects of ending a call.

mod call_end;
mod copy;
mod hash;
mod memory;
mod operation;
mod return_revert;
mod state;
mod word;

pub use hash::{code_hash, empty_code_hash, hash_eq, keccak_of, CodeHash};
pub use word::{address_word, u64_to_usize, Address, Word};
pub use operation::{
    AccountField, CallContextField, CopyDataType, CopyEvent, CopyId, ExecStep, Operation, Rw,
    Target,
};
pub use state::{AccountCode, Call, CallContext, CircuitInputState, CodeEntry};
pub use memory::{extend_at_least, extended, memory_slice, write_memory};
pub use copy::{
    copied_bytes, copy_event_from_memory, handle_copy, handle_create, memory_op, min_nat,
    Destination, Source,
};
pub use call_end::{
    call_context_op, finalize_return, restore_caller_context, restore_ops, word_of, word_of_bool,
    zero_word,
};
pub use return_revert::{
    caller_memory_after, copy_length, deploys, end_of_deployment, is_code_hash_write,
    length_operand, memory_after, no_account_ops, no_memory_ops, numbered, offset_operand,
    op_count, return_error, returns_to_caller, stack_op, Error, InvariantViolation, ReturnRevert,
    TraceError, TraceStep, COUNTER_HEADROOM, INVALID_INIT_CODE_FIRST_BYTE, STACK_LIMIT,
};
