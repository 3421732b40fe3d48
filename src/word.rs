use vstd::prelude::*;

verus! {

/// A 256-bit machine word, held as four 64-bit limbs, `w0` the least significant.
#[derive(Clone, Copy, Debug, PartialEq, Eq, Structural)]
pub struct Word {
    pub w0: u64,
    pub w1: u64,
    pub w2: u64,
    pub w3: u64,
}

/// A 160-bit account address: the low 64 bits, the next 64 bits, and the
/// top 32 bits.
#[derive(Clone, Copy, Debug, PartialEq, Eq, Structural)]
pub struct Address {
    pub lo: u64,
    pub mid: u64,
    pub hi: u32,
}

pub open spec fn limb_base() -> nat {
    0x1_0000_0000_0000_0000
}

/// The word an address stands for.
pub open spec fn address_word(a: Address) -> Word {
    Word { w0: a.lo, w1: a.mid, w2: a.hi as u64, w3: 0 }
}

impl Word {
    /// The number the word stands for.
    pub open spec fn value(self) -> nat {
        self.w0 as nat + limb_base() * (self.w1 as nat + limb_base() * (
        self.w2 as nat + limb_base() * self.w3 as nat))
    }

    /// The low 64 bits.
    pub open spec fn low(self) -> u64 {
        self.w0
    }

    pub open spec fn high_is_zero(self) -> bool {
        self.w1 == 0 && self.w2 == 0 && self.w3 == 0
    }

    pub fn from_u64(x: u64) -> (r: Word)
        ensures
            r.value() == x,
            r.low() == x,
            r.high_is_zero(),
    {
        Word { w0: x, w1: 0, w2: 0, w3: 0 }
    }

    pub fn from_bool(b: bool) -> (r: Word)
        ensures
            r.value() == (if b { 1nat } else { 0nat }),
            r.high_is_zero(),
    {
        Word::from_u64(if b { 1 } else { 0 })
    }

    pub fn from_address(a: Address) -> (r: Word)
        ensures
            r == address_word(a),
            r.value() == a.value(),
    {
        Word { w0: a.lo, w1: a.mid, w2: a.hi as u64, w3: 0 }
    }

    /// The low 64 bits, the rest dropped.
    pub fn low_u64(&self) -> (r: u64)
        ensures
            r == self.low(),
    {
        self.w0
    }

    /// The word as a `u64` where it fits.
    pub fn to_u64(&self) -> (r: Option<u64>)
        ensures
            r == (if self.high_is_zero() { Some(self.low()) } else { None::<u64> }),
            r is Some ==> r->0 == self.value(),
            r is None ==> self.value() > u64::MAX,
    {
        if self.w1 == 0 && self.w2 == 0 && self.w3 == 0 {
            Some(self.w0)
        } else {
            None
        }
    }
}

/// A `u64` as a `usize` where it fits.
pub fn u64_to_usize(x: u64) -> (r: Option<usize>)
    ensures
        r == (if x <= usize::MAX { Some(x as usize) } else { None::<usize> }),
{
    if x <= usize::MAX as u64 {
        Some(x as usize)
    } else {
        None
    }
}

impl Address {
    pub open spec fn value(self) -> nat {
        self.lo as nat + limb_base() * (self.mid as nat + limb_base() * self.hi as nat)
    }
}

} // verus!
