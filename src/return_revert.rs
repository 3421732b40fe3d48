use vstd::prelude::*;
use crate::call_end::{
    call_context_op, finalize_return, restore_caller_context, restore_ops, word_of, word_of_bool,
};
use crate::copy::{
    copy_event_from_memory, handle_copy, handle_create, memory_op, min_nat, Destination, Source,
};
use crate::hash::{empty_code_hash, keccak_of};
use crate::memory::{extend_at_least, extended, memory_slice, write_memory};
use crate::operation::{
    AccountField, CallContextField, CopyDataType, CopyId, ExecStep, Operation, Rw, Target,
};
use crate::state::{Call, CircuitInputState, CodeEntry};
use crate::word::{address_word, u64_to_usize, Address, Word};

verus! {

/// The leading byte that deployed code may not start with (EIP-3541).
pub const INVALID_INIT_CODE_FIRST_BYTE: u8 = 0xef;

/// The deepest a machine stack can be.
pub const STACK_LIMIT: usize = 1024;

/// Headroom the operation counter must have beyond two per returned byte.
pub const COUNTER_HEADROOM: usize = 16;

/// A malformed or inconsistent trace.
#[derive(Clone, Copy, Debug, PartialEq, Eq, Structural)]
pub enum TraceError {
    /// Fewer than two words on the stack.
    StackUnderflow,
    /// More words on the stack than it can hold.
    StackOverflow,
    /// An offset or length that does not fit a native index.
    AddressOverflow,
    /// The operation counter would run past its largest value.
    CounterOverflow,
    /// The caller's return region lies outside the caller's memory.
    ReturnRegionOutOfBounds,
}

/// A condition that earlier stages guarantee, found broken.
#[derive(Clone, Copy, Debug, PartialEq, Eq, Structural)]
pub enum InvariantViolation {
    /// Deployed code that starts with the banned leading byte.
    BannedInitCodeFirstByte,
}

#[derive(Clone, Copy, Debug, PartialEq, Eq, Structural)]
pub enum Error {
    Trace(TraceError),
    Invariant(InvariantViolation),
}

/// What the tracer saw at one instruction: the stack, bottom first.
#[derive(Clone, Debug, PartialEq, Eq)]
pub struct TraceStep {
    pub stack: Vec<Word>,
}

/// The RETURN and REVERT instructions.
#[derive(Clone, Copy, Debug, PartialEq, Eq, Structural)]
pub struct ReturnRevert;

/// A non-reversible stack operation.
pub open spec fn stack_op(rwc: int, call_id: usize, address: int, value: Word) -> Operation {
    Operation {
        rwc: rwc as usize,
        rw: Rw::Read,
        reversible: false,
        target: Target::Stack { call_id, address: address as usize, value },
    }
}

/// `op` is the reversible write of `address`'s code hash from `prev` to `value`.
pub open spec fn is_code_hash_write(
    op: Operation,
    rwc: int,
    address: Address,
    value: Seq<u8>,
    prev: Seq<u8>,
) -> bool {
    &&& op.rwc == rwc
    &&& op.rw == Rw::Write
    &&& op.reversible
    &&& match op.target {
        Target::Account { address: a, field, value: v, value_prev: p } => {
            &&& a == address
            &&& field == AccountField::CodeHash
            &&& v@ == value
            &&& p@ == prev
        },
        _ => false,
    }
}

/// The offset operand: the top of the stack.
pub open spec fn offset_operand(stack: Seq<Word>) -> Word {
    stack[stack.len() - 1]
}

/// The length operand: just below the top of the stack.
pub open spec fn length_operand(stack: Seq<Word>) -> Word {
    stack[stack.len() - 2]
}

/// The active frame's memory once it covers the returned region.
pub open spec fn memory_after(state: CircuitInputState, offset: nat, length: nat) -> Seq<u8> {
    let mem = state.contexts@[state.current as int].memory@;
    if length > 0 {
        extended(mem, offset + length)
    } else {
        mem
    }
}

/// Whether the call deploys the returned bytes as code.
pub open spec fn deploys(call: Call, length: nat) -> bool {
    call.is_create && call.is_success && length > 0
}

/// Whether the returned bytes go back to a caller as return data.
pub open spec fn returns_to_caller(call: Call) -> bool {
    !call.is_root && !call.is_create
}

/// How many returned bytes land in the caller's return region.
pub open spec fn copy_length(call: Call, length: nat) -> nat {
    if returns_to_caller(call) {
        min_nat(call.return_data_length as nat, length)
    } else {
        0
    }
}

/// Where the operations after the deployment records start.
pub open spec fn end_of_deployment(call: Call, length: nat) -> int {
    (3 + (if deploys(call, length) { length + 6 } else { 0 })) as int
}

/// How many operations a successful step emits.
pub open spec fn op_count(call: Call, length: nat) -> nat {
    3 + (if deploys(call, length) { length + 6 } else { 0 }) + (if call.is_root { 1nat } else { 6nat })
        + (if returns_to_caller(call) { 2 + 2 * copy_length(call, length) } else { 0 })
}

/// The error the instruction ends in on `stack`, if any.
pub open spec fn return_error(state: CircuitInputState, stack: Seq<Word>) -> Option<Error> {
    let call = state.call();
    if stack.len() < 2 {
        Some(Error::Trace(TraceError::StackUnderflow))
    } else if stack.len() > STACK_LIMIT {
        Some(Error::Trace(TraceError::StackOverflow))
    } else {
        let offset = offset_operand(stack);
        let length = length_operand(stack);
        let len = length.low() as nat;
        if !length.high_is_zero() || (len > 0 && offset.low() + len > usize::MAX) || (
        returns_to_caller(call) && call.return_data_length > usize::MAX) {
            Some(Error::Trace(TraceError::AddressOverflow))
        } else if state.rwc + 2 * len + COUNTER_HEADROOM > usize::MAX {
            Some(Error::Trace(TraceError::CounterOverflow))
        } else if deploys(call, len) && memory_after(state, offset.low() as nat, len)[offset.low() as int]
            == INVALID_INIT_CODE_FIRST_BYTE {
            Some(Error::Invariant(InvariantViolation::BannedInitCodeFirstByte))
        } else if copy_length(call, len) > 0 && call.return_data_offset + copy_length(call, len)
            > state.contexts@[call.caller_id as int].memory@.len() {
            Some(Error::Trace(TraceError::ReturnRegionOutOfBounds))
        } else {
            None
        }
    }
}

pub open spec fn no_memory_ops(ops: Seq<Operation>) -> bool {
    forall|i: int| 0 <= i < ops.len() ==> !(#[trigger] ops[i]).is_memory()
}

pub open spec fn no_account_ops(ops: Seq<Operation>) -> bool {
    forall|i: int| 0 <= i < ops.len() ==> !(#[trigger] ops[i]).is_account()
}

/// The caller's memory once `count` returned bytes, taken from `returned` at
/// `offset`, stand in its return region.
pub open spec fn caller_memory_after(
    caller_memory: Seq<u8>,
    return_offset: nat,
    returned: Seq<u8>,
    offset: nat,
    count: nat,
) -> Seq<u8> {
    caller_memory.subrange(0, return_offset as int) + returned.subrange(offset as int, (offset + count) as int)
        + caller_memory.subrange((return_offset + count) as int, caller_memory.len() as int)
}

/// Each operation of `ops` is numbered one past the one before, from `start`.
pub open spec fn numbered(ops: Seq<Operation>, start: int) -> bool {
    forall|i: int| 0 <= i < ops.len() ==> (#[trigger] ops[i]).rwc == start + i
}

proof fn lemma_numbered_extend(a: Seq<Operation>, b: Seq<Operation>, start: int)
    requires
        numbered(a, start),
        a.len() <= b.len(),
        b.subrange(0, a.len() as int) == a,
        forall|i: int| a.len() <= i < b.len() ==> (#[trigger] b[i]).rwc == start + i,
    ensures
        numbered(b, start),
        forall|j: int| 0 <= j < a.len() ==> b[j] == a[j],
{
    assert forall|j: int| 0 <= j < a.len() implies b[j] == a[j] by {
        assert(b[j] == b.subrange(0, a.len() as int)[j]);
    }
}

/// Records the deployment of the returned bytes by a successful creation:
/// a read of the first returned byte, the bytes recorded as bytecode, reads
/// of the callee's caller id, address, reversion counter and persistence,
/// and a reversible write of the callee's code hash from the empty-code hash
/// to the bytes' hash. Returns the bytes with their hash, to be committed
/// when the call ends.
fn record_deployment(state: &mut CircuitInputState, step: &mut ExecStep, offset: usize, length: usize) -> (r:
    CodeEntry)
    requires
        old(state).current < old(state).contexts@.len(),
        offset + length <= old(state).contexts@[old(state).current as int].memory@.len(),
        length > 0,
        old(state).rwc + length + 6 <= usize::MAX,
    ensures
        ({
            let call = old(state).call();
            let rwc = old(state).rwc as int;
            let mem = old(state).contexts@[old(state).current as int].memory@;
            let code = mem.subrange(offset as int, offset + length);
            let base = old(step).ops@.len() as int;
            let ops = final(step).ops@;
            let events = final(step).copy_events@;
            &&& *final(state) == (CircuitInputState {
                rwc: (old(state).rwc + length + 6) as usize,
                ..*old(state)
            })
            &&& ops.len() == base + length + 6
            &&& ops.subrange(0, base) == old(step).ops@
            &&& forall|i: int| base <= i < ops.len() ==> (#[trigger] ops[i]).rwc == rwc + (i - base)
            &&& ops[base] == memory_op(rwc, Rw::Read, call.call_id, offset as int, mem[offset as int])
            &&& forall|k: int|
                0 <= k < length ==> #[trigger] ops[base + 1 + k] == memory_op(
                    rwc + 1 + k,
                    Rw::Read,
                    call.call_id,
                    offset + k,
                    code[k],
                )
            &&& ops[base + length + 1] == call_context_op(
                rwc + length + 1,
                Rw::Read,
                call.call_id,
                CallContextField::CallerId,
                word_of(call.caller_id as nat),
            )
            &&& ops[base + length + 2] == call_context_op(
                rwc + length + 2,
                Rw::Read,
                call.call_id,
                CallContextField::CalleeAddress,
                address_word(call.address),
            )
            &&& ops[base + length + 3] == call_context_op(
                rwc + length + 3,
                Rw::Read,
                call.call_id,
                CallContextField::RwCounterEndOfReversion,
                word_of(call.rw_counter_end_of_reversion as nat),
            )
            &&& ops[base + length + 4] == call_context_op(
                rwc + length + 4,
                Rw::Read,
                call.call_id,
                CallContextField::IsPersistent,
                word_of_bool(call.is_persistent),
            )
            &&& is_code_hash_write(
                ops[base + length + 5],
                rwc + length + 5,
                call.address,
                keccak_of(code),
                keccak_of(Seq::empty()),
            )
            &&& events.len() == old(step).copy_events@.len() + 1
            &&& events.subrange(0, old(step).copy_events@.len() as int) == old(step).copy_events@
            &&& events.last().dst_id is Hash
            &&& events.last().dst_id->Hash_0@ == keccak_of(code)
            &&& copy_event_from_memory(
                events.last(),
                rwc + 1,
                Source { id: call.call_id, offset, length },
                CopyDataType::Bytecode,
                events.last().dst_id,
                0,
                code,
            )
            &&& final(step).restored_caller == old(step).restored_caller
            &&& r.hash@ == keccak_of(code)
            &&& r.code@ == code
        }),
{
    let cur = state.current;
    let call = state.contexts[cur].call;
    let ghost base = step.ops@.len() as int;
    let ghost rwc0 = state.rwc as int;
    let first = state.contexts[cur].memory[offset];
    state.push_op(
        step,
        Rw::Read,
        false,
        Target::Memory { call_id: call.call_id, address: offset, byte: first },
    );
    let source = Source { id: call.call_id, offset: offset, length: length };
    let ghost before = step.ops@;
    let code_hash = handle_create(state, step, source);
    let ghost after_create = step.ops@;
    state.push_op(
        step,
        Rw::Read,
        false,
        Target::CallContext {
            call_id: call.call_id,
            field: CallContextField::CallerId,
            value: Word::from_u64(call.caller_id as u64),
        },
    );
    state.push_op(
        step,
        Rw::Read,
        false,
        Target::CallContext {
            call_id: call.call_id,
            field: CallContextField::CalleeAddress,
            value: Word::from_address(call.address),
        },
    );
    state.push_op(
        step,
        Rw::Read,
        false,
        Target::CallContext {
            call_id: call.call_id,
            field: CallContextField::RwCounterEndOfReversion,
            value: Word::from_u64(call.rw_counter_end_of_reversion as u64),
        },
    );
    state.push_op(
        step,
        Rw::Read,
        false,
        Target::CallContext {
            call_id: call.call_id,
            field: CallContextField::IsPersistent,
            value: Word::from_bool(call.is_persistent),
        },
    );
    let empty = empty_code_hash();
    state.push_op(
        step,
        Rw::Write,
        true,
        Target::Account {
            address: call.address,
            field: AccountField::CodeHash,
            value: code_hash,
            value_prev: empty,
        },
    );
    let code = memory_slice(&state.contexts[cur].memory, offset, length);
    proof {
        assert forall|i: int| 0 <= i < after_create.len() implies step.ops@[i] == after_create[i] by {}
        assert forall|i: int| 0 <= i < before.len() implies after_create[i] == before[i] by {
            assert(after_create[i] == after_create.subrange(0, before.len() as int)[i]);
        }
        assert forall|i: int| base <= i < step.ops@.len() implies (#[trigger] step.ops@[i]).rwc == rwc0
            + (i - base) by {
            if i == base {
                assert(step.ops@[i] == before[i]);
            } else if i <= base + length {
                let k = i - base - 1;
                assert(after_create[before.len() + k].rwc == rwc0 + 1 + k);
            }
        }
        assert forall|k: int| 0 <= k < length implies #[trigger] step.ops@[base + 1 + k] == after_create[base + 1 + k] by {}
        assert forall|i: int| 0 <= i < base implies step.ops@[i] == old(step).ops@[i] by {
            assert(step.ops@[i] == before[i]);
        }
        assert(step.ops@.subrange(0, base) =~= old(step).ops@);
    }
    CodeEntry { hash: code_hash, code }
}

/// Hands the returned bytes back to the caller of a message call: reads the
/// call's return region, then, where any byte lands in it, copies as many
/// bytes as both the region and the returned data hold into the caller's
/// memory and records the copy.
fn return_to_caller(
    state: &mut CircuitInputState,
    step: &mut ExecStep,
    offset: usize,
    length: usize,
    return_offset: usize,
    return_data_length: usize,
)
    requires
        old(state).current < old(state).contexts@.len(),
        old(state).call().call_id == old(state).current,
        old(state).call().caller_id < old(state).contexts@.len(),
        old(state).call().caller_id != old(state).current,
        return_data_length == old(state).call().return_data_length,
        offset + length <= usize::MAX,
        old(state).rwc + 2 + 2 * min_nat(return_data_length as nat, length as nat) <= usize::MAX,
        min_nat(return_data_length as nat, length as nat) > 0 ==> {
            &&& return_offset == old(state).call().return_data_offset
            &&& offset + length <= old(state).contexts@[old(state).current as int].memory@.len()
            &&& return_offset + min_nat(return_data_length as nat, length as nat)
                <= old(state).contexts@[old(state).call().caller_id as int].memory@.len()
        },
    ensures
        ({
            let call = old(state).call();
            let cl = min_nat(return_data_length as nat, length as nat);
            let rwc = old(state).rwc as int;
            let caller = call.caller_id as int;
            let mem = old(state).contexts@[old(state).current as int].memory@;
            let base = old(step).ops@.len() as int;
            let ops = final(step).ops@;
            &&& final(state).rwc == rwc + 2 + 2 * cl
            &&& final(state).current == old(state).current
            &&& final(state).code_db == old(state).code_db
            &&& final(state).account_codes == old(state).account_codes
            &&& final(state).contexts@.len() == old(state).contexts@.len()
            &&& forall|k: int|
                0 <= k < old(state).contexts@.len() && (k != caller || cl == 0)
                    ==> #[trigger] final(state).contexts@[k] == old(state).contexts@[k]
            &&& final(state).contexts@[caller].call == old(state).contexts@[caller].call
            &&& final(state).contexts@[caller].memory@ == (if cl > 0 {
                caller_memory_after(
                    old(state).contexts@[caller].memory@,
                    call.return_data_offset as nat,
                    mem,
                    offset as nat,
                    cl,
                )
            } else {
                old(state).contexts@[caller].memory@
            })
            &&& ops.len() == base + 2 + 2 * cl
            &&& ops.subrange(0, base) == old(step).ops@
            &&& forall|i: int| base <= i < ops.len() ==> (#[trigger] ops[i]).rwc == rwc + (i - base)
            &&& forall|i: int| base <= i < ops.len() ==> !(#[trigger] ops[i]).is_account()
            &&& ops[base] == call_context_op(
                rwc,
                Rw::Read,
                call.call_id,
                CallContextField::ReturnDataOffset,
                word_of(call.return_data_offset as nat),
            )
            &&& ops[base + 1] == call_context_op(
                rwc + 1,
                Rw::Read,
                call.call_id,
                CallContextField::ReturnDataLength,
                word_of(call.return_data_length as nat),
            )
            &&& forall|k: int|
                0 <= k < cl ==> {
                    &&& #[trigger] ops[base + 2 + 2 * k] == memory_op(
                        rwc + 2 + 2 * k,
                        Rw::Read,
                        call.call_id,
                        offset + k,
                        mem[offset + k],
                    )
                    &&& ops[base + 3 + 2 * k] == memory_op(
                        rwc + 3 + 2 * k,
                        Rw::Write,
                        call.caller_id,
                        call.return_data_offset + k,
                        mem[offset + k],
                    )
                }
            &&& cl == 0 ==> final(step).copy_events == old(step).copy_events
            &&& cl > 0 ==> {
                &&& final(step).copy_events@.len() == old(step).copy_events@.len() + 1
                &&& final(step).copy_events@.subrange(0, old(step).copy_events@.len() as int)
                    == old(step).copy_events@
                &&& copy_event_from_memory(
                    final(step).copy_events@.last(),
                    rwc + 2,
                    Source { id: call.call_id, offset, length },
                    CopyDataType::Memory,
                    CopyId::Number(call.caller_id),
                    call.return_data_offset as int,
                    mem.subrange(offset as int, offset + cl),
                )
            }
            &&& final(step).restored_caller == old(step).restored_caller
        }),
{
    let cur = state.current;
    let call = state.contexts[cur].call;
    let ghost base = step.ops@.len() as int;
    let ghost rwc0 = state.rwc as int;
    let copy_len: usize = if return_data_length <= length {
        return_data_length
    } else {
        length
    };
    state.push_op(
        step,
        Rw::Read,
        false,
        Target::CallContext {
            call_id: call.call_id,
            field: CallContextField::ReturnDataOffset,
            value: Word::from_u64(call.return_data_offset),
        },
    );
    state.push_op(
        step,
        Rw::Read,
        false,
        Target::CallContext {
            call_id: call.call_id,
            field: CallContextField::ReturnDataLength,
            value: Word::from_u64(call.return_data_length),
        },
    );
    let ghost two = step.ops@;
    if copy_len > 0 {
        let caller_size = state.contexts[call.caller_id].memory.len();
        assert(return_offset + copy_len <= caller_size);
        let returned = memory_slice(&state.contexts[cur].memory, offset, copy_len);
        write_memory(&mut state.contexts[call.caller_id].memory, return_offset, &returned);
        let ghost before = step.ops@;
        let ghost rwc_before = state.rwc as int;
        handle_copy(
            state,
            step,
            Source { id: call.call_id, offset: offset, length: length },
            Destination {
                id: call.caller_id,
                offset: return_offset,
                length: return_data_length,
            },
        );
        proof {
            assert forall|i: int| 0 <= i < before.len() implies step.ops@[i] == before[i] by {
                assert(step.ops@[i] == step.ops@.subrange(0, before.len() as int)[i]);
            }
            assert forall|i: int| before.len() <= i < step.ops@.len() implies (#[trigger] step.ops@[i]).rwc
                == rwc0 + (i - base) && !step.ops@[i].is_account() by {
                let k = (i - before.len()) / 2;
                assert(step.ops@[before.len() + 2 * k].rwc == rwc_before + 2 * k);
                assert(step.ops@[before.len() + 2 * k + 1].rwc == rwc_before + 2 * k + 1);
            }
        }
    }
    proof {
        assert forall|i: int| base <= i < step.ops@.len() implies (#[trigger] step.ops@[i]).rwc == rwc0
            + (i - base) && !step.ops@[i].is_account() by {
            if i < base + 2 {
                assert(step.ops@[i] == two[i]);
                assert(two[i].is_call_context());
            }
        }
        assert(step.ops@[base] == two[base] && step.ops@[base + 1] == two[base + 1]);
        assert(step.ops@.subrange(0, base) =~= old(step).ops@);
    }
}

impl ReturnRevert {
    /// Records one RETURN or REVERT: reads its two stack operands, grows the
    /// active memory over the returned region, reads the call's success flag,
    /// deploys the returned bytes when a creation succeeds, restores the
    /// caller of a nested call, hands return data back to a caller of a
    /// message call, and ends the call.
    #[verifier::rlimit(50)]
    pub fn gen_associated_ops(state: &mut CircuitInputState, steps: &[TraceStep]) -> (r: Result<
        Vec<ExecStep>,
        Error,
    >)
        requires
            old(state).wf(),
            steps@.len() > 0,
        ensures
            r is Err <==> return_error(*old(state), steps@[0].stack@) is Some,
            r is Err ==> r->Err_0 == return_error(*old(state), steps@[0].stack@)->0 && *final(state)
                == *old(state),
            r is Ok ==> ({
                let call = old(state).call();
                let rwc = old(state).rwc as int;
                let stack = steps@[0].stack@;
                let len = length_operand(stack).low() as nat;
                let s = r->Ok_0@[0];
                let ops = s.ops@;
                &&& r->Ok_0@.len() == 1
                &&& final(state).wf()
                &&& ops.len() == op_count(call, len)
                &&& final(state).rwc == rwc + ops.len()
                &&& forall|i: int| 0 <= i < ops.len() ==> (#[trigger] ops[i]).rwc == rwc + i
                &&& ops[0] == stack_op(rwc, call.call_id, STACK_LIMIT - stack.len(), offset_operand(stack))
                &&& ops[1] == stack_op(rwc + 1, call.call_id, STACK_LIMIT - stack.len() + 1, length_operand(stack))
                &&& ops[2] == call_context_op(
                    rwc + 2,
                    Rw::Read,
                    call.call_id,
                    CallContextField::IsSuccess,
                    word_of_bool(call.is_success),
                )
                &&& s.restored_caller == (if call.is_root { None } else { Some(call.caller_id) })
                &&& call.is_root ==> ops[end_of_deployment(call, len)] == call_context_op(
                    rwc + end_of_deployment(call, len),
                    Rw::Read,
                    call.call_id,
                    CallContextField::IsPersistent,
                    word_of_bool(call.is_persistent),
                )
                &&& !call.is_root ==> ops.subrange(end_of_deployment(call, len), end_of_deployment(call, len) + 6)
                    == restore_ops(
                    call,
                    old(state).contexts@[call.caller_id as int].call,
                    rwc + end_of_deployment(call, len),
                    offset_operand(stack),
                    length_operand(stack),
                )
                &&& final(state).current == (if call.is_root { old(state).current } else { call.caller_id })
            }),
            r is Ok ==> ({
                let call = old(state).call();
                let stack = steps@[0].stack@;
                let off = offset_operand(stack).low() as nat;
                let len = length_operand(stack).low() as nat;
                let mem = memory_after(*old(state), off, len);
                let cl = copy_length(call, len);
                let caller = call.caller_id as int;
                let s = r->Ok_0@[0];
                &&& final(state).contexts@.len() == old(state).contexts@.len()
                &&& forall|k: int|
                    0 <= k < old(state).contexts@.len() ==> (#[trigger] final(state).contexts@[k]).call
                        == old(state).contexts@[k].call
                &&& final(state).contexts@[old(state).current as int].memory@ == mem
                &&& forall|k: int|
                    0 <= k < old(state).contexts@.len() && k != old(state).current && !(cl > 0 && k
                        == caller) ==> #[trigger] final(state).contexts@[k] == old(state).contexts@[k]
                &&& cl > 0 ==> final(state).contexts@[caller].memory@ == caller_memory_after(
                    old(state).contexts@[caller].memory@,
                    call.return_data_offset as nat,
                    mem,
                    off,
                    cl,
                )
                &&& forall|k: int|
                    0 <= k < cl ==> #[trigger] final(state).contexts@[caller].memory@[call.return_data_offset
                        + k] == mem[off + k]
                &&& len == 0 ==> s.copy_events@.len() == 0 && no_memory_ops(s.ops@) && no_account_ops(s.ops@)
            }),
            r is Ok ==> ({
                let call = old(state).call();
                let rwc = old(state).rwc as int;
                let stack = steps@[0].stack@;
                let off = offset_operand(stack).low() as nat;
                let len = length_operand(stack).low() as nat;
                let mem = memory_after(*old(state), off, len);
                let code = mem.subrange(off as int, (off + len) as int);
                let s = r->Ok_0@[0];
                let ops = s.ops@;
                deploys(call, len) ==> {
                    &&& ops[3] == memory_op(rwc + 3, Rw::Read, call.call_id, off as int, mem[off as int])
                    &&& forall|k: int|
                        0 <= k < len ==> #[trigger] ops[4 + k] == memory_op(
                            rwc + 4 + k,
                            Rw::Read,
                            call.call_id,
                            off + k,
                            code[k],
                        )
                    &&& s.copy_events@.len() == 1
                    &&& s.copy_events@[0].dst_id is Hash
                    &&& s.copy_events@[0].dst_id->Hash_0@ == keccak_of(code)
                    &&& copy_event_from_memory(
                        s.copy_events@[0],
                        rwc + 4,
                        Source { id: call.call_id, offset: off as usize, length: len as usize },
                        CopyDataType::Bytecode,
                        s.copy_events@[0].dst_id,
                        0,
                        code,
                    )
                    &&& ops[(len + 4) as int] == call_context_op(
                        rwc + len + 4,
                        Rw::Read,
                        call.call_id,
                        CallContextField::CallerId,
                        word_of(call.caller_id as nat),
                    )
                    &&& ops[(len + 5) as int] == call_context_op(
                        rwc + len + 5,
                        Rw::Read,
                        call.call_id,
                        CallContextField::CalleeAddress,
                        address_word(call.address),
                    )
                    &&& ops[(len + 6) as int] == call_context_op(
                        rwc + len + 6,
                        Rw::Read,
                        call.call_id,
                        CallContextField::RwCounterEndOfReversion,
                        word_of(call.rw_counter_end_of_reversion as nat),
                    )
                    &&& ops[(len + 7) as int] == call_context_op(
                        rwc + len + 7,
                        Rw::Read,
                        call.call_id,
                        CallContextField::IsPersistent,
                        word_of_bool(call.is_persistent),
                    )
                    &&& is_code_hash_write(
                        ops[(len + 8) as int],
                        rwc + len + 8,
                        call.address,
                        keccak_of(code),
                        keccak_of(Seq::empty()),
                    )
                    &&& final(state).stores(keccak_of(code), code)
                    &&& final(state).has_code_hash(call.address, keccak_of(code))
                }
            }),
            r is Ok ==> ({
                let call = old(state).call();
                let len = length_operand(steps@[0].stack@).low() as nat;
                !deploys(call, len) ==> {
                    &&& no_account_ops(r->Ok_0@[0].ops@)
                    &&& final(state).code_db == old(state).code_db
                    &&& final(state).account_codes == old(state).account_codes
                }
            }),
            r is Ok ==> ({
                let call = old(state).call();
                let rwc = old(state).rwc as int;
                let stack = steps@[0].stack@;
                let off = offset_operand(stack).low() as nat;
                let len = length_operand(stack).low() as nat;
                let mem = memory_after(*old(state), off, len);
                let cl = copy_length(call, len);
                let s = r->Ok_0@[0];
                let ops = s.ops@;
                returns_to_caller(call) ==> {
                    &&& ops[9] == call_context_op(
                        rwc + 9,
                        Rw::Read,
                        call.call_id,
                        CallContextField::ReturnDataOffset,
                        word_of(call.return_data_offset as nat),
                    )
                    &&& ops[10] == call_context_op(
                        rwc + 10,
                        Rw::Read,
                        call.call_id,
                        CallContextField::ReturnDataLength,
                        word_of(call.return_data_length as nat),
                    )
                    &&& forall|k: int|
                        0 <= k < cl ==> {
                            &&& #[trigger] ops[11 + 2 * k] == memory_op(
                                rwc + 11 + 2 * k,
                                Rw::Read,
                                call.call_id,
                                off + k,
                                mem[off + k],
                            )
                            &&& ops[12 + 2 * k] == memory_op(
                                rwc + 12 + 2 * k,
                                Rw::Write,
                                call.caller_id,
                                call.return_data_offset + k,
                                mem[off + k],
                            )
                        }
                    &&& s.copy_events@.len() == (if cl > 0 { 1nat } else { 0nat })
                    &&& cl > 0 ==> copy_event_from_memory(
                        s.copy_events@[0],
                        rwc + 11,
                        Source { id: call.call_id, offset: off as usize, length: len as usize },
                        CopyDataType::Memory,
                        CopyId::Number(call.caller_id),
                        call.return_data_offset as int,
                        mem.subrange(off as int, (off + cl) as int),
                    )
                }
            }),
    {
        let stack = &steps[0].stack;
        let n = stack.len();
        if n < 2 {
            return Err(Error::Trace(TraceError::StackUnderflow));
        }
        if n > STACK_LIMIT {
            return Err(Error::Trace(TraceError::StackOverflow));
        }
        let offset = stack[n - 1];
        let length = stack[n - 2];
        let cur = state.current;
        let call = state.contexts[cur].call;
        let length_u64 = match length.to_u64() {
            Some(x) => x,
            None => {
                return Err(Error::Trace(TraceError::AddressOverflow));
            },
        };
        let offset_low = offset.low_u64();
        let mut offset_us: usize = 0;
        let mut length_us: usize = 0;
        let mut end: usize = 0;
        if length_u64 > 0 {
            if offset_low > u64::MAX - length_u64 {
                return Err(Error::Trace(TraceError::AddressOverflow));
            }
            match u64_to_usize(offset_low + length_u64) {
                Some(e) => {
                    end = e;
                    offset_us = offset_low as usize;
                    length_us = length_u64 as usize;
                },
                None => {
                    return Err(Error::Trace(TraceError::AddressOverflow));
                },
            }
        }
        let to_caller = !call.is_root && !call.is_create;
        let mut return_data_length: usize = 0;
        if to_caller {
            match u64_to_usize(call.return_data_length) {
                Some(l) => {
                    return_data_length = l;
                },
                None => {
                    return Err(Error::Trace(TraceError::AddressOverflow));
                },
            }
        }
        if state.rwc > usize::MAX - COUNTER_HEADROOM || length_us > (usize::MAX - COUNTER_HEADROOM
            - state.rwc) / 2 {
            return Err(Error::Trace(TraceError::CounterOverflow));
        }
        let deploy = call.is_create && call.is_success && length_us > 0;
        if deploy {
            let mem_len = state.contexts[cur].memory.len();
            let first = if offset_us < mem_len {
                state.contexts[cur].memory[offset_us]
            } else {
                0u8
            };
            if first == INVALID_INIT_CODE_FIRST_BYTE {
                return Err(Error::Invariant(InvariantViolation::BannedInitCodeFirstByte));
            }
        }
        let copy_len: usize = if to_caller {
            if return_data_length <= length_us {
                return_data_length
            } else {
                length_us
            }
        } else {
            0
        };
        let mut return_offset: usize = 0;
        if copy_len > 0 {
            let caller_len = state.contexts[call.caller_id].memory.len();
            if call.return_data_offset > caller_len as u64 || copy_len > caller_len
                - call.return_data_offset as usize {
                return Err(Error::Trace(TraceError::ReturnRegionOutOfBounds));
            }
            return_offset = call.return_data_offset as usize;
        }
        let ghost rwc0 = state.rwc as int;
        let mut exec_step = ExecStep::new();
        state.push_op(
            &mut exec_step,
            Rw::Read,
            false,
            Target::Stack { call_id: call.call_id, address: STACK_LIMIT - n, value: offset },
        );
        state.push_op(
            &mut exec_step,
            Rw::Read,
            false,
            Target::Stack { call_id: call.call_id, address: STACK_LIMIT - n + 1, value: length },
        );
        if length_us > 0 {
            extend_at_least(&mut state.contexts[cur].memory, end);
        }
        state.push_op(
            &mut exec_step,
            Rw::Read,
            false,
            Target::CallContext {
                call_id: call.call_id,
                field: CallContextField::IsSuccess,
                value: Word::from_bool(call.is_success),
            },
        );
        let ghost head = exec_step.ops@;
        assert(numbered(head, rwc0));
        assert(no_account_ops(head));
        let mut deployed: Option<CodeEntry> = None;
        if deploy {
            let entry = record_deployment(state, &mut exec_step, offset_us, length_us);
            proof {
                lemma_numbered_extend(head, exec_step.ops@, rwc0);
            }
            deployed = Some(entry);
        }
        let ghost mid = exec_step.ops@;
        if call.is_root {
            state.push_op(
                &mut exec_step,
                Rw::Read,
                false,
                Target::CallContext {
                    call_id: call.call_id,
                    field: CallContextField::IsPersistent,
                    value: Word::from_bool(call.is_persistent),
                },
            );
        } else {
            let ghost before = exec_step.ops@;
            restore_caller_context(state, &mut exec_step, offset, length);
            proof {
                assert(exec_step.ops@.subrange(0, before.len() as int) =~= before);
                lemma_numbered_extend(before, exec_step.ops@, rwc0);
                if !deploy {
                    assert forall|i: int| 0 <= i < exec_step.ops@.len() implies !(
                    #[trigger] exec_step.ops@[i]).is_account() by {
                        if i >= before.len() {
                            assert(exec_step.ops@[i].is_call_context());
                        }
                    }
                }
            }
        }
        let ghost tail_start = mid.len() as int;
        let ghost after_c = exec_step.ops@;
        assert(!deploy ==> no_account_ops(exec_step.ops@));
        if to_caller {
            let ghost before = exec_step.ops@;
            return_to_caller(
                state,
                &mut exec_step,
                offset_us,
                length_us,
                return_offset,
                return_data_length,
            );
            proof {
                lemma_numbered_extend(before, exec_step.ops@, rwc0);
                assert forall|i: int| 0 <= i < exec_step.ops@.len() implies !(
                #[trigger] exec_step.ops@[i]).is_account() by {
                    if i < before.len() {
                        assert(exec_step.ops@[i] == before[i]);
                    }
                }
            }
        }
        assert(numbered(exec_step.ops@, rwc0));
        assert forall|i: int| 0 <= i < after_c.len() implies exec_step.ops@[i] == after_c[i] by {}
        assert(call.is_root ==> exec_step.ops@[tail_start] == after_c[tail_start]);
        assert(!call.is_root ==> exec_step.ops@.subrange(tail_start, tail_start + 6) =~= after_c.subrange(tail_start, tail_start + 6));
        assert(exec_step.ops@[0] == head[0] && exec_step.ops@[1] == head[1] && exec_step.ops@[2] == head[2]);
        finalize_return(state, deployed);
        Ok(vec![exec_step])
    }
}

} // verus!
