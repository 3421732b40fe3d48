use vstd::prelude::*;
use crate::hash::{hash_eq, keccak_of, CodeHash};
use crate::operation::{ExecStep, Operation, Rw, Target};
use crate::word::Address;

verus! {

/// The fixed facts of one call frame.
#[derive(Clone, Copy, Debug, PartialEq, Eq, Structural)]
pub struct Call {
    pub call_id: usize,
    pub caller_id: usize,
    pub address: Address,
    pub is_root: bool,
    pub is_create: bool,
    pub is_success: bool,
    pub is_persistent: bool,
    pub rw_counter_end_of_reversion: usize,
    pub return_data_offset: u64,
    pub return_data_length: u64,
}

/// A call frame: its facts and its memory.
#[derive(Clone, Debug, PartialEq, Eq)]
pub struct CallContext {
    pub call: Call,
    pub memory: Vec<u8>,
}

/// A bytecode stored under its content hash.
#[derive(Clone, Debug, PartialEq, Eq)]
pub struct CodeEntry {
    pub hash: CodeHash,
    pub code: Vec<u8>,
}

/// The code hash recorded for an account.
#[derive(Clone, Copy, Debug, PartialEq, Eq)]
pub struct AccountCode {
    pub address: Address,
    pub code_hash: CodeHash,
}

/// The block-wide state that instructions are processed against: the
/// operation counter, the call frames (call id `i` at index `i`), the active
/// frame, the content-addressed code store and the accounts' code hashes.
#[derive(Clone, Debug, PartialEq, Eq)]
pub struct CircuitInputState {
    pub rwc: usize,
    pub current: usize,
    pub contexts: Vec<CallContext>,
    pub code_db: Vec<CodeEntry>,
    pub account_codes: Vec<AccountCode>,
}

impl CircuitInputState {
    pub open spec fn wf(self) -> bool {
        &&& self.current < self.contexts@.len()
        &&& forall|i: int|
            0 <= i < self.contexts@.len() ==> (#[trigger] self.contexts@[i]).call.call_id == i
        &&& forall|i: int|
            0 <= i < self.contexts@.len() && !(#[trigger] self.contexts@[i]).call.is_root
                ==> self.contexts@[i].call.caller_id < self.contexts@.len()
                && self.contexts@[i].call.caller_id != i
        &&& forall|i: int|
            0 <= i < self.code_db@.len() ==> (#[trigger] self.code_db@[i]).hash@ == keccak_of(
                self.code_db@[i].code@,
            )
        &&& forall|i: int, j: int|
            0 <= i < j < self.code_db@.len() ==> (#[trigger] self.code_db@[i]).hash@
                != (#[trigger] self.code_db@[j]).hash@
        &&& forall|i: int, j: int|
            0 <= i < j < self.account_codes@.len() ==> (#[trigger] self.account_codes@[i]).address
                != (#[trigger] self.account_codes@[j]).address
    }

    /// The active frame's facts.
    pub open spec fn call(self) -> Call {
        self.contexts@[self.current as int].call
    }

    /// Whether the store holds `code` under `hash`.
    pub open spec fn stores(self, hash: Seq<u8>, code: Seq<u8>) -> bool {
        exists|i: int|
            0 <= i < self.code_db@.len() && (#[trigger] self.code_db@[i]).hash@ == hash
                && self.code_db@[i].code@ == code
    }

    /// Whether `address` has `hash` recorded as its code hash.
    pub open spec fn has_code_hash(self, address: Address, hash: Seq<u8>) -> bool {
        exists|i: int|
            0 <= i < self.account_codes@.len() && (#[trigger] self.account_codes@[i]).address
                == address && self.account_codes@[i].code_hash@ == hash
    }

    /// Whether `address` has no code hash recorded.
    pub open spec fn has_no_code_hash(self, address: Address) -> bool {
        forall|i: int|
            0 <= i < self.account_codes@.len() ==> (#[trigger] self.account_codes@[i]).address
                != address
    }

    /// Appends one operation, numbered by the counter, and advances the counter.
    pub fn push_op(&mut self, step: &mut ExecStep, rw: Rw, reversible: bool, target: Target)
        requires
            old(self).rwc < usize::MAX,
        ensures
            *final(self) == (CircuitInputState { rwc: (old(self).rwc + 1) as usize, ..*old(self) }),
            final(step).ops@ == old(step).ops@.push(
                (Operation { rwc: old(self).rwc, rw, reversible, target }),
            ),
            final(step).copy_events == old(step).copy_events,
            final(step).restored_caller == old(step).restored_caller,
    {
        step.ops.push(Operation { rwc: self.rwc, rw, reversible, target });
        self.rwc = self.rwc + 1;
    }

    /// Stores `code` under `hash` unless the hash is already there.
    pub fn insert_code(&mut self, hash: CodeHash, code: Vec<u8>)
        requires
            old(self).wf(),
            hash@ == keccak_of(code@),
        ensures
            final(self).wf(),
            final(self).stores(hash@, code@),
            (CircuitInputState { code_db: old(self).code_db, ..*final(self) }) == *old(self),
            forall|h: Seq<u8>, c: Seq<u8>|
                h != hash@ && old(self).stores(h, c) ==> final(self).stores(h, c),
    {
        let mut i: usize = 0;
        while i < self.code_db.len()
            invariant
                i <= self.code_db@.len(),
                *self == *old(self),
                self.wf(),
                hash@ == keccak_of(code@),
                forall|j: int| 0 <= j < i ==> (#[trigger] self.code_db@[j]).hash@ != hash@,
            decreases self.code_db@.len() - i,
        {
            if hash_eq(&self.code_db[i].hash, &hash) {
                let ghost before = self.code_db@;
                self.code_db.set(i, CodeEntry { hash, code });
                assert(self.code_db@[i as int].hash@ == hash@);
                assert forall|a: int, b: int|
                    0 <= a < b < self.code_db@.len() implies (#[trigger] self.code_db@[a]).hash@
                    != (#[trigger] self.code_db@[b]).hash@ by {
                    assert(before[a].hash@ != before[b].hash@);
                }
                assert forall|a: int|
                    0 <= a < self.code_db@.len() implies (#[trigger] self.code_db@[a]).hash@
                    == keccak_of(self.code_db@[a].code@) by {
                    if a != i {
                        assert(self.code_db@[a] == before[a]);
                    } else {
                        assert(self.code_db@[a].code@ == code@);
                    }
                }
                assert forall|h: Seq<u8>, c: Seq<u8>|
                    h != hash@ && old(self).stores(h, c) implies self.stores(h, c) by {
                    let k = choose|k: int|
                        0 <= k < before.len() && (#[trigger] before[k]).hash@ == h
                            && before[k].code@ == c;
                    assert(self.code_db@[k] == before[k]);
                }
                return;
            }
            i += 1;
        }
        let ghost before = self.code_db@;
        self.code_db.push(CodeEntry { hash, code });
        assert(self.code_db@[self.code_db@.len() - 1].hash@ == hash@);
        assert forall|h: Seq<u8>, c: Seq<u8>|
            h != hash@ && old(self).stores(h, c) implies self.stores(h, c) by {
            let k = choose|k: int|
                0 <= k < before.len() && (#[trigger] before[k]).hash@ == h && before[k].code@ == c;
            assert(self.code_db@[k] == before[k]);
        }
    }

    /// Records `hash` as the code hash of `address`, replacing any earlier one.
    pub fn set_code_hash(&mut self, address: Address, hash: CodeHash)
        requires
            old(self).wf(),
        ensures
            final(self).wf(),
            final(self).has_code_hash(address, hash@),
            forall|a: Address, h: Seq<u8>|
                a != address ==> (final(self).has_code_hash(a, h) == old(self).has_code_hash(a, h)),
            forall|a: Address|
                a != address ==> (final(self).has_no_code_hash(a) == old(self).has_no_code_hash(a)),
            (CircuitInputState { account_codes: old(self).account_codes, ..*final(self) }) == *old(self),
    {
        let ghost before = self.account_codes@;
        let mut i: usize = 0;
        while i < self.account_codes.len()
            invariant
                i <= self.account_codes@.len(),
                *self == *old(self),
                self.wf(),
                before == self.account_codes@,
                forall|j: int| 0 <= j < i ==> (#[trigger] self.account_codes@[j]).address != address,
            decreases self.account_codes@.len() - i,
        {
            if self.account_codes[i].address == address {
                self.account_codes.set(i, AccountCode { address, code_hash: hash });
                assert(self.account_codes@[i as int].address == address);
                assert forall|a: int, b: int|
                    0 <= a < b < self.account_codes@.len() implies (#[trigger] self.account_codes@[a]).address
                    != (#[trigger] self.account_codes@[b]).address by {
                    assert(before[a].address != before[b].address);
                }
                assert forall|a: Address, h: Seq<u8>|
                    a != address implies (self.has_code_hash(a, h) == old(self).has_code_hash(a, h)) by {
                    if self.has_code_hash(a, h) {
                        let k = choose|k: int| 0 <= k < self.account_codes@.len() && (#[trigger] self.account_codes@[k]).address
                            == a && self.account_codes@[k].code_hash@ == h;
                        assert(before[k] == self.account_codes@[k]);
                    }
                    if old(self).has_code_hash(a, h) {
                        let k = choose|k: int| 0 <= k < before.len() && (#[trigger] before[k]).address
                            == a && before[k].code_hash@ == h;
                        assert(before[k] == self.account_codes@[k]);
                    }
                }
                assert forall|a: Address|
                    a != address implies (self.has_no_code_hash(a) == old(self).has_no_code_hash(a)) by {
                    if !self.has_no_code_hash(a) {
                        let k = choose|k: int| 0 <= k < self.account_codes@.len() && (#[trigger] self.account_codes@[k]).address == a;
                        assert(before[k] == self.account_codes@[k]);
                    }
                    if !old(self).has_no_code_hash(a) {
                        let k = choose|k: int| 0 <= k < before.len() && (#[trigger] before[k]).address == a;
                        assert(before[k] == self.account_codes@[k]);
                    }
                }
                return;
            }
            i += 1;
        }
        self.account_codes.push(AccountCode { address, code_hash: hash });
        assert(self.account_codes@[before.len() as int].address == address);
        assert forall|a: Address, h: Seq<u8>|
            a != address implies (self.has_code_hash(a, h) == old(self).has_code_hash(a, h)) by {
            if self.has_code_hash(a, h) {
                let k = choose|k: int| 0 <= k < self.account_codes@.len() && (#[trigger] self.account_codes@[k]).address
                    == a && self.account_codes@[k].code_hash@ == h;
                assert(before[k] == self.account_codes@[k]);
            }
            if old(self).has_code_hash(a, h) {
                let k = choose|k: int| 0 <= k < before.len() && (#[trigger] before[k]).address
                    == a && before[k].code_hash@ == h;
                assert(before[k] == self.account_codes@[k]);
            }
        }
        assert forall|a: Address|
            a != address implies (self.has_no_code_hash(a) == old(self).has_no_code_hash(a)) by {
            if !self.has_no_code_hash(a) {
                let k = choose|k: int| 0 <= k < self.account_codes@.len() && (#[trigger] self.account_codes@[k]).address == a;
                assert(before[k] == self.account_codes@[k]);
            }
            if !old(self).has_no_code_hash(a) {
                let k = choose|k: int| 0 <= k < before.len() && (#[trigger] before[k]).address == a;
                assert(before[k] == self.account_codes@[k]);
            }
        }
    }

    /// The code deployed at `address`: the stored bytecode under its recorded
    /// code hash, or `None` where no code hash is recorded or none is stored
    /// under it.
    pub fn code_of(&self, address: Address) -> (r: Option<Vec<u8>>)
        requires
            self.wf(),
        ensures
            self.has_no_code_hash(address) ==> r is None,
            forall|h: Seq<u8>, c: Seq<u8>|
                self.has_code_hash(address, h) && self.stores(h, c) ==> r is Some && r->0@ == c,
            r is Some ==> exists|h: Seq<u8>| self.has_code_hash(address, h) && self.stores(h, r->0@),
    {
        let mut i: usize = 0;
        while i < self.account_codes.len()
            invariant
                i <= self.account_codes@.len(),
                self.wf(),
                forall|j: int| 0 <= j < i ==> (#[trigger] self.account_codes@[j]).address != address,
            decreases self.account_codes@.len() - i,
        {
            if self.account_codes[i].address == address {
                let hash = self.account_codes[i].code_hash;
                let mut k: usize = 0;
                while k < self.code_db.len()
                    invariant
                        k <= self.code_db@.len(),
                        self.wf(),
                        i < self.account_codes@.len(),
                        self.account_codes@[i as int].address == address,
                        hash == self.account_codes@[i as int].code_hash,
                        forall|j: int| 0 <= j < k ==> (#[trigger] self.code_db@[j]).hash@ != hash@,
                    decreases self.code_db@.len() - k,
                {
                    if hash_eq(&self.code_db[k].hash, &hash) {
                        let code = self.code_db[k].code.clone();
                        assert(self.has_code_hash(address, hash@));
                        assert(self.stores(hash@, code@));
                        proof {
                            assert forall|h: Seq<u8>, c: Seq<u8>|
                                self.has_code_hash(address, h) && self.stores(h, c) implies code@ == c by {
                                let a = choose|a: int| 0 <= a < self.account_codes@.len() && (#[trigger] self.account_codes@[a]).address
                                    == address && self.account_codes@[a].code_hash@ == h;
                                assert(a == i);
                                let b = choose|b: int| 0 <= b < self.code_db@.len() && (#[trigger] self.code_db@[b]).hash@ == h
                                    && self.code_db@[b].code@ == c;
                                assert(b == k);
                            }
                        }
                        return Some(code);
                    }
                    k += 1;
                }
                proof {
                    assert forall|h: Seq<u8>, c: Seq<u8>|
                        !(self.has_code_hash(address, h) && self.stores(h, c)) by {
                        if self.has_code_hash(address, h) {
                            let a = choose|a: int| 0 <= a < self.account_codes@.len() && (#[trigger] self.account_codes@[a]).address
                                == address && self.account_codes@[a].code_hash@ == h;
                            assert(a == i);
                        }
                    }
                }
                return None;
            }
            i += 1;
        }
        None
    }
}

} // verus!
