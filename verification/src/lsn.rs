//! Log sequence numbers: 64-bit byte offsets into the WAL.

use vstd::prelude::*;

verus! {

/// A log sequence number: an unsigned 64-bit byte position in the WAL.
#[derive(Clone, Copy, Debug, PartialEq, Eq, Structural, Hash)]
pub struct Lsn(pub u64);

impl Lsn {
    /// An LSN is aligned when it is a multiple of the WAL alignment.
    pub open spec fn spec_is_aligned(self) -> bool {
        self.0 % 8 == 0
    }

    /// How many bytes separate `self` from the next aligned position.
    pub open spec fn spec_padding(self) -> u64 {
        ((8 - self.0 % 8) % 8) as u64
    }

    pub fn is_aligned(self) -> (r: bool)
        ensures
            r == self.spec_is_aligned(),
    {
        self.0 % 8 == 0
    }

    /// Padding that takes this LSN to the next aligned one; zero when the
    /// LSN is already aligned.
    pub fn calc_padding(self) -> (r: u64)
        ensures
            r == self.spec_padding(),
            r < 8,
            (self.0 + r) % 8 == 0,
            self.spec_is_aligned() ==> r == 0,
    {
        let r: u64 = (8 - self.0 % 8) % 8;
        proof {
            assert((self.0 + ((8 - self.0 % 8) % 8)) % 8 == 0) by (nonlinear_arith);
        }
        r
    }

    /// The next aligned LSN at or after `self`; `None` when that position
    /// does not fit in 64 bits.
    pub fn align_up(self) -> (r: Option<Lsn>)
        ensures
            match r {
                Some(l) => {
                    &&& l.0 == self.0 + self.spec_padding()
                    &&& l.spec_is_aligned()
                    &&& l.0 >= self.0
                    &&& l.0 < self.0 + 8
                    &&& (self.spec_is_aligned() ==> l == self)
                },
                None => self.0 + self.spec_padding() > u64::MAX,
            },
    {
        let pad = self.calc_padding();
        match self.0.checked_add(pad) {
            Some(v) => Some(Lsn(v)),
            None => None,
        }
    }

    /// Advance by `n` bytes; `None` on 64-bit overflow.
    pub fn checked_add(self, n: u64) -> (r: Option<Lsn>)
        ensures
            match r {
                Some(l) => l.0 == self.0 + n,
                None => self.0 + n > u64::MAX,
            },
    {
        match self.0.checked_add(n) {
            Some(v) => Some(Lsn(v)),
            None => None,
        }
    }
}

} // verus!
