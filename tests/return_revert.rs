use return_revert::{
    code_hash, empty_code_hash, Address, Call, CallContext, CallContextField,
    CircuitInputState, CopyDataType, CopyId, Error, ExecStep, InvariantViolation, ReturnRevert,
    Rw, Target, TraceError, TraceStep, Word,
};

fn word(x: u64) -> Word {
    Word { w0: x, w1: 0, w2: 0, w3: 0 }
}

fn addr(x: u64) -> Address {
    Address { lo: x, mid: 0, hi: 0 }
}

fn root_call() -> Call {
    Call {
        call_id: 0,
        caller_id: 0,
        address: addr(0xaa),
        is_root: true,
        is_create: false,
        is_success: true,
        is_persistent: true,
        rw_counter_end_of_reversion: 0,
        return_data_offset: 0,
        return_data_length: 0,
    }
}

fn sub_call(is_create: bool, is_success: bool, ret_offset: u64, ret_length: u64) -> Call {
    Call {
        call_id: 1,
        caller_id: 0,
        address: addr(0xbb),
        is_root: false,
        is_create,
        is_success,
        is_persistent: is_success,
        rw_counter_end_of_reversion: 77,
        return_data_offset: ret_offset,
        return_data_length: ret_length,
    }
}

fn state_with(callee: Call, callee_memory: Vec<u8>, caller_memory: Vec<u8>) -> CircuitInputState {
    CircuitInputState {
        rwc: 10,
        current: 1,
        contexts: vec![
            CallContext { call: root_call(), memory: caller_memory },
            CallContext { call: callee, memory: callee_memory },
        ],
        code_db: vec![],
        account_codes: vec![],
    }
}

fn root_state(call: Call, memory: Vec<u8>) -> CircuitInputState {
    CircuitInputState {
        rwc: 10,
        current: 0,
        contexts: vec![CallContext { call, memory }],
        code_db: vec![],
        account_codes: vec![],
    }
}

/// A stack whose top is `offset` and whose next word is `length`.
fn trace(offset: Word, length: Word) -> Vec<TraceStep> {
    vec![TraceStep { stack: vec![word(0x1234), length, offset] }]
}

fn run(state: &mut CircuitInputState, offset: Word, length: Word) -> Result<ExecStep, Error> {
    let steps = trace(offset, length);
    ReturnRevert::gen_associated_ops(state, &steps).map(|mut v| {
        assert_eq!(v.len(), 1);
        v.remove(0)
    })
}

fn assert_numbered(step: &ExecStep, start: usize, end: usize) {
    for (i, op) in step.ops.iter().enumerate() {
        assert_eq!(op.rwc, start + i);
    }
    assert_eq!(end, start + step.ops.len());
}

fn memory_ops(step: &ExecStep) -> usize {
    step.ops.iter().filter(|op| matches!(op.target, Target::Memory { .. })).count()
}

fn account_ops(step: &ExecStep) -> usize {
    step.ops.iter().filter(|op| matches!(op.target, Target::Account { .. })).count()
}

fn deployed_body() -> Vec<u8> {
    (0u8..0x15).map(|i| 0x60u8.wrapping_add(i.wrapping_mul(7))).collect()
}

fn hex32(s: &str) -> [u8; 32] {
    let mut out = [0u8; 32];
    for i in 0..32 {
        out[i] = u8::from_str_radix(&s[2 * i..2 * i + 2], 16).unwrap();
    }
    out
}

#[test]
fn test_ok() {
    // The constructor left its 0x15-byte body in the low bytes of its first
    // memory word and returns it.
    let body = deployed_body();
    let mut memory = vec![0u8; 0xb];
    memory.extend_from_slice(&body);
    let mut state = state_with(sub_call(true, true, 0, 0), memory.clone(), vec![0u8; 0x40]);
    let step = run(&mut state, word(0xb), word(0x15)).unwrap();

    assert_numbered(&step, 10, state.rwc);
    assert_eq!(step.ops.len(), 3 + 0x15 + 6 + 6);
    assert_eq!(step.copy_events.len(), 1);
    let event = &step.copy_events[0];
    assert_eq!(event.src_type, CopyDataType::Memory);
    assert_eq!(event.dst_type, CopyDataType::Bytecode);
    assert_eq!(event.bytes.len(), 0x15);
    assert_eq!(event.bytes, body);
    assert_eq!(event.dst_id, CopyId::Hash(code_hash(&body)));
    assert_eq!(event.dst_addr, 0);
    assert_eq!(event.rw_counter_start, 14);

    let write = step.ops[0x15 + 8];
    assert_eq!(write.rw, Rw::Write);
    assert!(write.reversible);
    assert_eq!(
        write.target,
        Target::Account {
            address: addr(0xbb),
            field: return_revert::AccountField::CodeHash,
            value: code_hash(&body),
            value_prev: empty_code_hash(),
        }
    );
    assert_eq!(step.restored_caller, Some(0));
    assert_eq!(state.current, 0);
    // A later call into the deployed address finds the body.
    assert_eq!(state.code_of(addr(0xbb)), Some(body));
}

#[test]
fn test_revert() {
    // A message call reverts with 0x20 bytes; the caller asked for them at 0x20.
    let data: Vec<u8> = (0u8..0x20).map(|i| i + 1).collect();
    let mut state = state_with(sub_call(false, false, 0x20, 0x20), data.clone(), vec![0u8; 0x40]);
    let step = run(&mut state, word(0), word(0x20)).unwrap();

    assert_numbered(&step, 10, state.rwc);
    assert_eq!(step.ops.len(), 3 + 6 + 2 + 2 * 0x20);
    assert_eq!(
        step.ops[2].target,
        Target::CallContext { call_id: 1, field: CallContextField::IsSuccess, value: word(0) }
    );
    assert_eq!(memory_ops(&step), 2 * 0x20);
    assert_eq!(account_ops(&step), 0);
    assert_eq!(&state.contexts[0].memory[0x20..0x40], &data[..]);
    assert_eq!(&state.contexts[0].memory[..0x20], &[0u8; 0x20][..]);
    for k in 0..0x20 {
        assert_eq!(
            step.ops[11 + 2 * k].target,
            Target::Memory { call_id: 1, address: k, byte: data[k] }
        );
        assert_eq!(step.ops[11 + 2 * k].rw, Rw::Read);
        assert_eq!(
            step.ops[12 + 2 * k].target,
            Target::Memory { call_id: 0, address: 0x20 + k, byte: data[k] }
        );
        assert_eq!(step.ops[12 + 2 * k].rw, Rw::Write);
    }
    assert_eq!(step.copy_events.len(), 1);
    let event = &step.copy_events[0];
    assert_eq!(event.rw_counter_start, 21);
    assert_eq!(event.src_id, CopyId::Number(1));
    assert_eq!(event.dst_id, CopyId::Number(0));
    assert_eq!(event.dst_type, CopyDataType::Memory);
    assert_eq!(event.src_addr, 0);
    assert_eq!(event.src_addr_end, 0x20);
    assert_eq!(event.dst_addr, 0x20);
    assert_eq!(event.bytes, data);
    assert_eq!(step.restored_caller, Some(0));
}

#[test]
fn failed_creation_deploys_nothing() {
    let data = vec![0x42u8; 0x20];
    let mut state = state_with(sub_call(true, false, 0, 0), data, vec![0u8; 0x40]);
    let step = run(&mut state, word(0), word(0x20)).unwrap();
    assert_eq!(account_ops(&step), 0);
    assert_eq!(step.copy_events.len(), 0);
    assert_eq!(
        step.ops[2].target,
        Target::CallContext { call_id: 1, field: CallContextField::IsSuccess, value: word(0) }
    );
    assert!(state.code_db.is_empty());
    assert_eq!(state.code_of(addr(0xbb)), None);
    assert_eq!(step.restored_caller, Some(0));
}

#[test]
fn zero_length_with_wide_offset_is_accepted() {
    let wide = Word { w0: 5, w1: 9, w2: 0, w3: 1 };
    for call in [sub_call(true, true, 0, 0), sub_call(false, true, 0, 8)] {
        let mut state = state_with(call, vec![1u8; 8], vec![0u8; 8]);
        let step = run(&mut state, wide, word(0)).unwrap();
        assert_eq!(memory_ops(&step), 0);
        assert_eq!(account_ops(&step), 0);
        assert!(step.copy_events.is_empty());
        assert_eq!(state.contexts[1].memory, vec![1u8; 8]);
        assert_eq!(state.contexts[0].memory, vec![0u8; 8]);
    }
    let mut state = root_state(Call { is_create: true, ..root_call() }, vec![]);
    let step = run(&mut state, wide, word(0)).unwrap();
    assert_eq!(step.ops.len(), 4);
    assert_eq!(account_ops(&step), 0);
    assert!(step.copy_events.is_empty());
}

#[test]
fn root_return_reads_persistence_and_restores_nothing() {
    let mut state = root_state(root_call(), vec![7u8; 4]);
    let step = run(&mut state, word(0), word(4)).unwrap();
    assert_eq!(step.ops.len(), 4);
    assert_eq!(step.restored_caller, None);
    assert_eq!(
        step.ops[3].target,
        Target::CallContext { call_id: 0, field: CallContextField::IsPersistent, value: word(1) }
    );
    assert_eq!(
        step.ops[0].target,
        Target::Stack { call_id: 0, address: 1021, value: word(0) }
    );
    assert_eq!(
        step.ops[1].target,
        Target::Stack { call_id: 0, address: 1022, value: word(4) }
    );
    assert_eq!(state.current, 0);
    assert_numbered(&step, 10, state.rwc);
}

#[test]
fn root_creation_writes_code_hash_of_returned_bytes() {
    let body = vec![0x60u8, 0x00, 0x60, 0x00, 0xf3];
    let mut memory = vec![0u8; 3];
    memory.extend_from_slice(&body);
    let mut state = root_state(Call { is_create: true, ..root_call() }, memory);
    let step = run(&mut state, word(3), word(5)).unwrap();
    assert_eq!(step.ops.len(), 3 + 5 + 6 + 1);
    assert_eq!(
        step.ops[5 + 8].target,
        Target::Account {
            address: addr(0xaa),
            field: return_revert::AccountField::CodeHash,
            value: code_hash(&body),
            value_prev: empty_code_hash(),
        }
    );
    assert_eq!(state.code_of(addr(0xaa)), Some(body));
}

#[test]
fn copy_length_is_the_smaller_of_both_lengths() {
    let data: Vec<u8> = (0u8..16).collect();
    let mut state = state_with(sub_call(false, true, 4, 3), data.clone(), vec![0xffu8; 10]);
    let step = run(&mut state, word(2), word(10)).unwrap();
    assert_eq!(memory_ops(&step), 6);
    assert_eq!(state.contexts[0].memory, vec![0xff, 0xff, 0xff, 0xff, 2, 3, 4, 0xff, 0xff, 0xff]);
    assert_eq!(step.copy_events[0].bytes, vec![2, 3, 4]);
    assert_eq!(step.copy_events[0].src_addr_end, 12);

    let mut state = state_with(sub_call(false, true, 0, 100), data, vec![0u8; 100]);
    let step = run(&mut state, word(0), word(3)).unwrap();
    assert_eq!(memory_ops(&step), 6);
    assert_eq!(&state.contexts[0].memory[..4], &[0, 1, 2, 0][..]);
}

#[test]
fn memory_grows_with_zeros_over_the_returned_region() {
    let mut state = state_with(sub_call(false, true, 0, 6), vec![9u8; 2], vec![0xeeu8; 6]);
    let step = run(&mut state, word(1), word(5)).unwrap();
    assert_eq!(state.contexts[1].memory, vec![9, 9, 0, 0, 0, 0]);
    assert_eq!(state.contexts[0].memory, vec![9, 0, 0, 0, 0, 0xee]);
    assert_eq!(step.copy_events[0].bytes, vec![9, 0, 0, 0, 0]);
}

#[test]
fn stack_underflow_is_an_error() {
    let mut state = root_state(root_call(), vec![]);
    let before = state.clone();
    let steps = vec![TraceStep { stack: vec![word(1)] }];
    let r = ReturnRevert::gen_associated_ops(&mut state, &steps);
    assert_eq!(r, Err(Error::Trace(TraceError::StackUnderflow)));
    assert_eq!(state, before);
}

#[test]
fn stack_overflow_is_an_error() {
    let mut state = root_state(root_call(), vec![]);
    let steps = vec![TraceStep { stack: vec![word(0); 1025] }];
    let r = ReturnRevert::gen_associated_ops(&mut state, &steps);
    assert_eq!(r, Err(Error::Trace(TraceError::StackOverflow)));
}

#[test]
fn wide_length_is_an_address_overflow() {
    let mut state = root_state(root_call(), vec![]);
    let r = run(&mut state, word(0), Word { w0: 1, w1: 1, w2: 0, w3: 0 });
    assert_eq!(r, Err(Error::Trace(TraceError::AddressOverflow)));
    let r = run(&mut state, word(u64::MAX), word(2));
    assert_eq!(r, Err(Error::Trace(TraceError::AddressOverflow)));
}

#[test]
fn counter_overflow_is_an_error() {
    let mut state = root_state(root_call(), vec![0u8; 4]);
    state.rwc = usize::MAX - 20;
    let r = run(&mut state, word(0), word(4));
    assert_eq!(r, Err(Error::Trace(TraceError::CounterOverflow)));
    assert_eq!(state.rwc, usize::MAX - 20);
}

#[test]
fn banned_first_byte_is_an_invariant_violation() {
    let mut state = state_with(sub_call(true, true, 0, 0), vec![0xef, 0, 0], vec![]);
    let r = run(&mut state, word(0), word(3));
    assert_eq!(r, Err(Error::Invariant(InvariantViolation::BannedInitCodeFirstByte)));
    // A failed creation never deploys, so the byte is not examined.
    let mut state = state_with(sub_call(true, false, 0, 0), vec![0xef, 0, 0], vec![]);
    assert!(run(&mut state, word(0), word(3)).is_ok());
}

#[test]
fn return_region_outside_caller_memory_is_an_error() {
    let mut state = state_with(sub_call(false, true, 8, 4), vec![1u8; 4], vec![0u8; 10]);
    let r = run(&mut state, word(0), word(4));
    assert_eq!(r, Err(Error::Trace(TraceError::ReturnRegionOutOfBounds)));
}

#[test]
fn empty_code_hash_is_keccak_of_nothing() {
    assert_eq!(
        empty_code_hash(),
        hex32("c5d2460186f7233c927e7db2dcc703c0e500b653ca82273b7bfad8045d85a470")
    );
    assert_eq!(code_hash(&[]), empty_code_hash());
    assert_ne!(code_hash(&[0u8]), empty_code_hash());
}

#[test]
fn inserting_code_twice_keeps_one_entry() {
    let mut state = root_state(root_call(), vec![]);
    let code = vec![1u8, 2, 3];
    state.insert_code(code_hash(&code), code.clone());
    state.insert_code(code_hash(&code), code.clone());
    assert_eq!(state.code_db.len(), 1);
    assert_eq!(state.code_db[0].code, code);
    state.set_code_hash(addr(5), code_hash(&code));
    assert_eq!(state.code_of(addr(5)), Some(code));
    assert_eq!(state.code_of(addr(6)), None);
}
