use vstd::prelude::*;
use crate::hash::{code_hash, keccak_of, CodeHash};
use crate::memory::memory_slice;
use crate::operation::{CopyDataType, CopyEvent, CopyId, ExecStep, Operation, Rw, Target};
use crate::state::CircuitInputState;

verus! {

/// The region a copy reads: `length` bytes of call `id`'s memory from `offset`.
#[derive(Clone, Copy, Debug, PartialEq, Eq, Structural)]
pub struct Source {
    pub id: usize,
    pub offset: usize,
    pub length: usize,
}

/// The region a copy writes: `length` bytes of call `id`'s memory from `offset`.
#[derive(Clone, Copy, Debug, PartialEq, Eq, Structural)]
pub struct Destination {
    pub id: usize,
    pub offset: usize,
    pub length: usize,
}

pub open spec fn min_nat(a: nat, b: nat) -> nat {
    if a <= b {
        a
    } else {
        b
    }
}

/// A non-reversible memory operation.
pub open spec fn memory_op(rwc: int, rw: Rw, call_id: usize, address: int, byte: u8) -> Operation {
    Operation {
        rwc: rwc as usize,
        rw,
        reversible: false,
        target: Target::Memory { call_id, address: address as usize, byte },
    }
}

/// The bytes a copy moves: those of the active frame's memory in the source
/// region, as many as both regions hold.
pub open spec fn copied_bytes(state: CircuitInputState, source: Source, destination: Destination) -> Seq<u8> {
    state.contexts@[state.current as int].memory@.subrange(
        source.offset as int,
        source.offset + min_nat(source.length as nat, destination.length as nat),
    )
}

/// `e` is the copy event of a transfer that starts at counter `rwc` and reads
/// `bytes` from memory of call `source.id`.
pub open spec fn copy_event_from_memory(
    e: CopyEvent,
    rwc: int,
    source: Source,
    dst_type: CopyDataType,
    dst_id: CopyId,
    dst_addr: int,
    bytes: Seq<u8>,
) -> bool {
    &&& e.rw_counter_start == rwc
    &&& e.src_type == CopyDataType::Memory
    &&& e.src_id == CopyId::Number(source.id)
    &&& e.src_addr == source.offset
    &&& e.src_addr_end == source.offset + source.length
    &&& e.dst_type == dst_type
    &&& e.dst_id == dst_id
    &&& e.dst_addr == dst_addr
    &&& e.log_id is None
    &&& e.bytes@ == bytes
}

/// Records a memory-to-memory copy whose bytes already stand in both
/// regions: for each byte in order a read of the source and a write of the
/// destination, then one copy event starting at the first of them.
pub fn handle_copy(
    state: &mut CircuitInputState,
    step: &mut ExecStep,
    source: Source,
    destination: Destination,
)
    requires
        old(state).current < old(state).contexts@.len(),
        source.offset + min_nat(source.length as nat, destination.length as nat)
            <= old(state).contexts@[old(state).current as int].memory@.len(),
        source.offset + source.length <= usize::MAX,
        destination.offset + min_nat(source.length as nat, destination.length as nat)
            <= usize::MAX,
        old(state).rwc + 2 * min_nat(source.length as nat, destination.length as nat)
            <= usize::MAX,
    ensures
        ({
            let n = min_nat(source.length as nat, destination.length as nat);
            let bytes = copied_bytes(*old(state), source, destination);
            let base = old(step).ops@.len();
            &&& *final(state) == (CircuitInputState {
                rwc: (old(state).rwc + 2 * n) as usize,
                ..*old(state)
            })
            &&& final(step).ops@.len() == base + 2 * n
            &&& final(step).ops@.subrange(0, base as int) == old(step).ops@
            &&& forall|k: int|
                0 <= k < n ==> {
                    &&& #[trigger] final(step).ops@[base + 2 * k] == memory_op(
                        old(state).rwc + 2 * k,
                        Rw::Read,
                        source.id,
                        source.offset + k,
                        bytes[k],
                    )
                    &&& final(step).ops@[base + 2 * k + 1] == memory_op(
                        old(state).rwc + 2 * k + 1,
                        Rw::Write,
                        destination.id,
                        destination.offset + k,
                        bytes[k],
                    )
                }
            &&& final(step).copy_events@.len() == old(step).copy_events@.len() + 1
            &&& final(step).copy_events@.subrange(0, old(step).copy_events@.len() as int)
                == old(step).copy_events@
            &&& copy_event_from_memory(
                final(step).copy_events@.last(),
                old(state).rwc as int,
                source,
                CopyDataType::Memory,
                CopyId::Number(destination.id),
                destination.offset as int,
                bytes,
            )
            &&& final(step).restored_caller == old(step).restored_caller
        }),
{
    let copy_length = if source.length <= destination.length {
        source.length
    } else {
        destination.length
    };
    let bytes = memory_slice(&state.contexts[state.current].memory, source.offset, copy_length);
    let rw_counter_start = state.rwc;
    let ghost base = step.ops@.len();
    let ghost st0 = *state;
    let mut i: usize = 0;
    while i < copy_length
        invariant
            i <= copy_length,
            bytes@.len() == copy_length,
            source.offset + source.length <= usize::MAX,
            copy_length <= source.length,
            destination.offset + copy_length <= usize::MAX,
            rw_counter_start + 2 * copy_length <= usize::MAX,
            *state == (CircuitInputState { rwc: (rw_counter_start + 2 * i) as usize, ..st0 }),
            step.ops@.len() == base + 2 * i,
            step.ops@.subrange(0, base as int) == old(step).ops@,
            step.copy_events == old(step).copy_events,
            step.restored_caller == old(step).restored_caller,
            forall|k: int|
                0 <= k < i ==> {
                    &&& #[trigger] step.ops@[base + 2 * k] == memory_op(
                        rw_counter_start + 2 * k,
                        Rw::Read,
                        source.id,
                        source.offset + k,
                        bytes@[k],
                    )
                    &&& step.ops@[base + 2 * k + 1] == memory_op(
                        rw_counter_start + 2 * k + 1,
                        Rw::Write,
                        destination.id,
                        destination.offset + k,
                        bytes@[k],
                    )
                },
        decreases copy_length - i,
    {
        let byte = bytes[i];
        let ghost before = step.ops@;
        state.push_op(
            step,
            Rw::Read,
            false,
            Target::Memory { call_id: source.id, address: source.offset + i, byte },
        );
        state.push_op(
            step,
            Rw::Write,
            false,
            Target::Memory { call_id: destination.id, address: destination.offset + i, byte },
        );
        assert(step.ops@.subrange(0, base as int) =~= before.subrange(0, base as int));
        assert forall|k: int| 0 <= k < i + 1 implies {
            &&& #[trigger] step.ops@[base + 2 * k] == memory_op(
                rw_counter_start + 2 * k,
                Rw::Read,
                source.id,
                source.offset + k,
                bytes@[k],
            )
            &&& step.ops@[base + 2 * k + 1] == memory_op(
                rw_counter_start + 2 * k + 1,
                Rw::Write,
                destination.id,
                destination.offset + k,
                bytes@[k],
            )
        } by {
            if k < i {
                assert(step.ops@[base + 2 * k] == before[base + 2 * k]);
                assert(step.ops@[base + 2 * k + 1] == before[base + 2 * k + 1]);
            }
        }
        i += 1;
    }
    step.copy_events.push(
        CopyEvent {
            rw_counter_start,
            src_type: CopyDataType::Memory,
            src_id: CopyId::Number(source.id),
            src_addr: source.offset,
            src_addr_end: source.offset + source.length,
            dst_type: CopyDataType::Memory,
            dst_id: CopyId::Number(destination.id),
            dst_addr: destination.offset,
            log_id: None,
            bytes,
        },
    );
    assert(step.copy_events@.subrange(0, old(step).copy_events@.len() as int)
        =~= old(step).copy_events@);
}

/// Records returned initialization code as deployed bytecode: a read of each
/// byte of the source region in order, then one copy event into the bytecode
/// named by the bytes' content hash, which is returned. The code store itself
/// is left as it is.
pub fn handle_create(state: &mut CircuitInputState, step: &mut ExecStep, source: Source) -> (r:
    CodeHash)
    requires
        old(state).current < old(state).contexts@.len(),
        source.offset + source.length <= old(state).contexts@[old(state).current as int].memory@.len(),
        old(state).rwc + source.length <= usize::MAX,
    ensures
        ({
            let bytes = old(state).contexts@[old(state).current as int].memory@.subrange(
                source.offset as int,
                source.offset + source.length,
            );
            let base = old(step).ops@.len();
            &&& r@ == keccak_of(bytes)
            &&& *final(state) == (CircuitInputState {
                rwc: (old(state).rwc + source.length) as usize,
                ..*old(state)
            })
            &&& final(step).ops@.len() == base + source.length
            &&& final(step).ops@.subrange(0, base as int) == old(step).ops@
            &&& forall|k: int|
                0 <= k < source.length ==> #[trigger] final(step).ops@[base + k] == memory_op(
                    old(state).rwc + k,
                    Rw::Read,
                    source.id,
                    source.offset + k,
                    bytes[k],
                )
            &&& final(step).copy_events@.len() == old(step).copy_events@.len() + 1
            &&& final(step).copy_events@.subrange(0, old(step).copy_events@.len() as int)
                == old(step).copy_events@
            &&& copy_event_from_memory(
                final(step).copy_events@.last(),
                old(state).rwc as int,
                source,
                CopyDataType::Bytecode,
                CopyId::Hash(r),
                0,
                bytes,
            )
            &&& final(step).restored_caller == old(step).restored_caller
        }),
{
    let memory_size = state.contexts[state.current].memory.len();
    assert(source.offset + source.length <= memory_size);
    let bytes = memory_slice(&state.contexts[state.current].memory, source.offset, source.length);
    let hash = code_hash(bytes.as_slice());
    let rw_counter_start = state.rwc;
    let ghost base = step.ops@.len();
    let ghost st0 = *state;
    let mut i: usize = 0;
    while i < source.length
        invariant
            i <= source.length,
            bytes@.len() == source.length,
            source.offset + source.length <= usize::MAX,
            rw_counter_start + source.length <= usize::MAX,
            *state == (CircuitInputState { rwc: (rw_counter_start + i) as usize, ..st0 }),
            step.ops@.len() == base + i,
            step.ops@.subrange(0, base as int) == old(step).ops@,
            step.copy_events == old(step).copy_events,
            step.restored_caller == old(step).restored_caller,
            forall|k: int|
                0 <= k < i ==> #[trigger] step.ops@[base + k] == memory_op(
                    rw_counter_start + k,
                    Rw::Read,
                    source.id,
                    source.offset + k,
                    bytes@[k],
                ),
        decreases source.length - i,
    {
        let ghost before = step.ops@;
        state.push_op(
            step,
            Rw::Read,
            false,
            Target::Memory { call_id: source.id, address: source.offset + i, byte: bytes[i] },
        );
        assert(step.ops@.subrange(0, base as int) =~= before.subrange(0, base as int));
        assert forall|k: int| 0 <= k < i + 1 implies #[trigger] step.ops@[base + k] == memory_op(
            rw_counter_start + k,
            Rw::Read,
            source.id,
            source.offset + k,
            bytes@[k],
        ) by {
            if k < i {
                assert(step.ops@[base + k] == before[base + k]);
            }
        }
        i += 1;
    }
    step.copy_events.push(
        CopyEvent {
            rw_counter_start,
            src_type: CopyDataType::Memory,
            src_id: CopyId::Number(source.id),
            src_addr: source.offset,
            src_addr_end: source.offset + source.length,
            dst_type: CopyDataType::Bytecode,
            dst_id: CopyId::Hash(hash),
            dst_addr: 0,
            log_id: None,
            bytes,
        },
    );
    assert(step.copy_events@.subrange(0, old(step).copy_events@.len() as int)
        =~= old(step).copy_events@);
    hash
}

} // verus!
