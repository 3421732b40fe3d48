use vstd::prelude::*;
use crate::hash::keccak_of;
use crate::operation::{CallContextField, ExecStep, Operation, Rw, Target};
use crate::state::{Call, CircuitInputState, CodeEntry};
use crate::word::{Address, Word};

verus! {

/// A non-reversible call-context operation.
pub open spec fn call_context_op(
    rwc: int,
    rw: Rw,
    call_id: usize,
    field: CallContextField,
    value: Word,
) -> Operation {
    Operation {
        rwc: rwc as usize,
        rw,
        reversible: false,
        target: Target::CallContext { call_id, field, value },
    }
}

pub open spec fn word_of(x: nat) -> Word {
    Word { w0: x as u64, w1: 0, w2: 0, w3: 0 }
}

pub open spec fn word_of_bool(b: bool) -> Word {
    word_of(if b { 1 } else { 0 })
}

pub open spec fn zero_word() -> Word {
    word_of(0)
}

/// The operations that hand control back from `callee` to its caller,
/// numbered from `rwc`: the callee's caller id is read, the caller's kind
/// is read, and the caller learns which call ended and where its return
/// data lies. A successful creation hands back no return data.
pub open spec fn restore_ops(
    callee: Call,
    caller: Call,
    rwc: int,
    offset: Word,
    length: Word,
) -> Seq<Operation> {
    let deployed = callee.is_create && callee.is_success;
    seq![
        call_context_op(rwc, Rw::Read, callee.call_id, CallContextField::CallerId, word_of(callee.caller_id as nat)),
        call_context_op(rwc + 1, Rw::Read, caller.call_id, CallContextField::IsRoot, word_of_bool(caller.is_root)),
        call_context_op(rwc + 2, Rw::Read, caller.call_id, CallContextField::IsCreate, word_of_bool(caller.is_create)),
        call_context_op(rwc + 3, Rw::Write, caller.call_id, CallContextField::LastCalleeId, word_of(callee.call_id as nat)),
        call_context_op(
            rwc + 4,
            Rw::Write,
            caller.call_id,
            CallContextField::LastCalleeReturnDataOffset,
            if deployed { zero_word() } else { offset },
        ),
        call_context_op(
            rwc + 5,
            Rw::Write,
            caller.call_id,
            CallContextField::LastCalleeReturnDataLength,
            if deployed { zero_word() } else { length },
        ),
    ]
}

/// Emits the operations that resume the caller of the active, non-root call,
/// and marks the step as having restored that caller.
pub fn restore_caller_context(
    state: &mut CircuitInputState,
    step: &mut ExecStep,
    offset: Word,
    length: Word,
)
    requires
        old(state).wf(),
        !old(state).call().is_root,
        old(state).rwc + 6 <= usize::MAX,
    ensures
        *final(state) == (CircuitInputState { rwc: (old(state).rwc + 6) as usize, ..*old(state) }),
        final(step).ops@ == old(step).ops@ + restore_ops(
            old(state).call(),
            old(state).contexts@[old(state).call().caller_id as int].call,
            old(state).rwc as int,
            offset,
            length,
        ),
        final(step).copy_events == old(step).copy_events,
        final(step).restored_caller == Some(old(state).call().caller_id),
{
    let callee = state.contexts[state.current].call;
    let caller = state.contexts[callee.caller_id].call;
    let deployed = callee.is_create && callee.is_success;
    let rwc = state.rwc;
    let ghost ops0 = step.ops@;
    state.push_op(
        step,
        Rw::Read,
        false,
        Target::CallContext {
            call_id: callee.call_id,
            field: CallContextField::CallerId,
            value: Word::from_u64(callee.caller_id as u64),
        },
    );
    state.push_op(
        step,
        Rw::Read,
        false,
        Target::CallContext {
            call_id: caller.call_id,
            field: CallContextField::IsRoot,
            value: Word::from_bool(caller.is_root),
        },
    );
    state.push_op(
        step,
        Rw::Read,
        false,
        Target::CallContext {
            call_id: caller.call_id,
            field: CallContextField::IsCreate,
            value: Word::from_bool(caller.is_create),
        },
    );
    state.push_op(
        step,
        Rw::Write,
        false,
        Target::CallContext {
            call_id: caller.call_id,
            field: CallContextField::LastCalleeId,
            value: Word::from_u64(callee.call_id as u64),
        },
    );
    let zero = Word::from_u64(0);
    state.push_op(
        step,
        Rw::Write,
        false,
        Target::CallContext {
            call_id: caller.call_id,
            field: CallContextField::LastCalleeReturnDataOffset,
            value: if deployed { zero } else { offset },
        },
    );
    state.push_op(
        step,
        Rw::Write,
        false,
        Target::CallContext {
            call_id: caller.call_id,
            field: CallContextField::LastCalleeReturnDataLength,
            value: if deployed { zero } else { length },
        },
    );
    step.restored_caller = Some(callee.caller_id);
    assert(step.ops@ =~= ops0 + restore_ops(
        old(state).call(),
        old(state).contexts@[old(state).call().caller_id as int].call,
        rwc as int,
        offset,
        length,
    ));
}

/// Ends the active call: commits deployed code, if any, to the code store and
/// to the callee's account, and makes the caller active again unless the call
/// is the root.
pub fn finalize_return(state: &mut CircuitInputState, deployed: Option<CodeEntry>)
    requires
        old(state).wf(),
        deployed is Some ==> deployed->0.hash@ == keccak_of(deployed->0.code@),
    ensures
        final(state).wf(),
        final(state).rwc == old(state).rwc,
        final(state).contexts == old(state).contexts,
        final(state).current == (if old(state).call().is_root {
            old(state).current
        } else {
            old(state).call().caller_id
        }),
        deployed is None ==> final(state).code_db == old(state).code_db
            && final(state).account_codes == old(state).account_codes,
        deployed is Some ==> final(state).stores(deployed->0.hash@, deployed->0.code@),
        deployed is Some ==> final(state).has_code_hash(old(state).call().address, deployed->0.hash@),
        deployed is Some ==> forall|h: Seq<u8>, c: Seq<u8>|
            h != deployed->0.hash@ && old(state).stores(h, c) ==> final(state).stores(h, c),
        deployed is Some ==> forall|a: Address, h: Seq<u8>|
            a != old(state).call().address ==> (final(state).has_code_hash(a, h)
                == old(state).has_code_hash(a, h)),
        deployed is Some ==> forall|a: Address|
            a != old(state).call().address ==> (final(state).has_no_code_hash(a)
                == old(state).has_no_code_hash(a)),
{
    let call = state.contexts[state.current].call;
    if !call.is_root {
        state.current = call.caller_id;
    }
    match deployed {
        Some(entry) => {
            let hash = entry.hash;
            assert forall|h: Seq<u8>, c: Seq<u8>| old(state).stores(h, c) implies state.stores(h, c) by {
                let k = choose|k: int|
                    0 <= k < old(state).code_db@.len() && (#[trigger] old(state).code_db@[k]).hash@ == h
                        && old(state).code_db@[k].code@ == c;
                assert(state.code_db@[k] == old(state).code_db@[k]);
            }
            state.insert_code(hash, entry.code);
            state.set_code_hash(call.address, hash);
        },
        None => {},
    }
}

} // verus!
