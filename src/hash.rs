use vstd::prelude::*;
use tiny_keccak::Hasher;

verus! {

/// A 32-byte content hash of a bytecode.
pub type CodeHash = [u8; 32];

/// The Keccak-256 digest of a byte string.
pub uninterp spec fn keccak_of(bytes: Seq<u8>) -> Seq<u8>;

/// Relies on tiny_keccak's `Keccak::v256`, `update` and `finalize`: the
/// Keccak-256 digest of the bytes, written over all 32 bytes of the output.
#[verifier::external_body]
fn keccak256(bytes: &[u8]) -> (r: CodeHash)
    ensures
        r@ == keccak_of(bytes@),
{
    let mut hasher = tiny_keccak::Keccak::v256();
    let mut out = [0u8; 32];
    hasher.update(bytes);
    hasher.finalize(&mut out);
    out
}

/// The content hash under which a bytecode is stored.
pub fn code_hash(code: &[u8]) -> (r: CodeHash)
    ensures
        r@ == keccak_of(code@),
{
    keccak256(code)
}

/// The hash of the empty bytecode: the code hash of an account without code.
pub fn empty_code_hash() -> (r: CodeHash)
    ensures
        r@ == keccak_of(Seq::<u8>::empty()),
{
    let empty: Vec<u8> = Vec::new();
    let r = keccak256(empty.as_slice());
    assert(empty@ =~= Seq::<u8>::empty());
    r
}

/// Whether two hashes are the same bytes.
pub fn hash_eq(a: &CodeHash, b: &CodeHash) -> (r: bool)
    ensures
        r == (a@ == b@),
{
    let mut i: usize = 0;
    while i < 32
        invariant
            i <= 32,
            forall|j: int| 0 <= j < i ==> a@[j] == b@[j],
        decreases 32 - i,
    {
        if a[i] != b[i] {
            return false;
        }
        i += 1;
    }
    assert(a@ =~= b@);
    true
}

} // verus!
