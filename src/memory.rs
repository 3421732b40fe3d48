use vstd::prelude::*;

verus! {

/// `mem` grown with zero bytes to cover `end` bytes; left as it is where it
/// already does.
pub open spec fn extended(mem: Seq<u8>, end: nat) -> Seq<u8> {
    if end <= mem.len() {
        mem
    } else {
        mem + Seq::new((end - mem.len()) as nat, |_i: int| 0u8)
    }
}

/// Grows `mem` with zero bytes so that it holds at least `end` bytes.
pub fn extend_at_least(mem: &mut Vec<u8>, end: usize)
    ensures
        final(mem)@ == extended(old(mem)@, end as nat),
{
    let ghost start = mem@;
    while mem.len() < end
        invariant
            start.len() <= mem@.len(),
            end <= start.len() ==> mem@ == start,
            end > start.len() ==> mem@.len() <= end,
            mem@.subrange(0, start.len() as int) == start,
            forall|i: int| start.len() <= i < mem@.len() ==> mem@[i] == 0u8,
        decreases end - mem@.len(),
    {
        mem.push(0u8);
    }
    assert(mem@ =~= extended(start, end as nat));
}

/// The bytes of `mem` from `offset` on, `length` of them.
pub fn memory_slice(mem: &Vec<u8>, offset: usize, length: usize) -> (r: Vec<u8>)
    requires
        offset + length <= mem@.len(),
    ensures
        r@ == mem@.subrange(offset as int, offset + length),
{
    let n = mem.len();
    let mut r: Vec<u8> = Vec::new();
    let mut i: usize = 0;
    while i < length
        invariant
            offset + length <= mem@.len(),
            n == mem@.len(),
            i <= length,
            r@ == mem@.subrange(offset as int, offset + i),
        decreases length - i,
    {
        r.push(mem[offset + i]);
        i += 1;
        assert(r@ =~= mem@.subrange(offset as int, offset + i));
    }
    r
}

/// Overwrites `mem` from `offset` on with `bytes`.
pub fn write_memory(mem: &mut Vec<u8>, offset: usize, bytes: &Vec<u8>)
    requires
        offset + bytes@.len() <= old(mem)@.len(),
    ensures
        final(mem)@ == old(mem)@.subrange(0, offset as int) + bytes@ + old(mem)@.subrange(
            offset + bytes@.len(),
            old(mem)@.len() as int,
        ),
{
    let ghost start = mem@;
    let n = mem.len();
    let mut i: usize = 0;
    while i < bytes.len()
        invariant
            offset + bytes@.len() <= start.len(),
            n == start.len(),
            i <= bytes@.len(),
            mem@.len() == start.len(),
            forall|k: int| 0 <= k < offset ==> mem@[k] == start[k],
            forall|k: int| offset + i <= k < start.len() ==> mem@[k] == start[k],
            forall|k: int| 0 <= k < i ==> mem@[offset + k] == bytes@[k],
        decreases bytes@.len() - i,
    {
        mem.set(offset + i, bytes[i]);
        i += 1;
    }
    assert(mem@ =~= start.subrange(0, offset as int) + bytes@ + start.subrange(
        offset + bytes@.len(),
        start.len() as int,
    ));
}

} // verus!
