//! Decimal rendering of unsigned integers, used by the index-part codec and
//! by argument building.

use vstd::prelude::*;

verus! {

/// The canonical decimal digits of `v`, most significant first, without
/// leading zeroes.
pub open spec fn dec_digits(v: nat) -> Seq<u8>
    decreases v,
{
    if v < 10 {
        seq![(48 + v) as u8]
    } else {
        dec_digits(v / 10) + seq![(48 + v % 10) as u8]
    }
}

/// Every canonical digit string is non-empty and made of digit bytes.
pub proof fn lemma_dec_digits_shape(v: nat)
    ensures
        dec_digits(v).len() >= 1,
        forall|i: int| 0 <= i < dec_digits(v).len() ==> 48 <= #[trigger] dec_digits(v)[i] <= 57,
        v >= 1 ==> dec_digits(v)[0] != 48,
        (v < 10) == (dec_digits(v).len() == 1),
    decreases v,
{
    if v >= 10 {
        lemma_dec_digits_shape(v / 10);
        assert(dec_digits(v)[0] == dec_digits(v / 10)[0]);
    }
}

/// Renders `v` in canonical decimal.
pub fn render_u64(v: u64) -> (r: Vec<u8>)
    ensures
        r@ == dec_digits(v as nat),
    decreases v,
{
    if v < 10 {
        let mut r: Vec<u8> = Vec::new();
        r.push(48 + v as u8);
        proof {
            assert(r@ =~= dec_digits(v as nat));
        }
        r
    } else {
        let mut r = render_u64(v / 10);
        r.push(48 + (v % 10) as u8);
        proof {
            assert(r@ =~= dec_digits(v as nat));
        }
        r
    }
}

} // verus!
