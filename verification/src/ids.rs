//! Tenant, timeline and node identifiers.
//!
//! Tenant and timeline ids are 16-byte opaque values, rendered textually as
//! 32 lowercase hex digits.

use vstd::prelude::*;

verus! {

/// Value of a hex digit byte, or 16 when the byte is no hex digit.
pub open spec fn hex_val(c: u8) -> u8 {
    if 48 <= c <= 57 {
        (c - 48) as u8
    } else if 97 <= c <= 102 {
        (c - 87) as u8
    } else if 65 <= c <= 70 {
        (c - 55) as u8
    } else {
        16
    }
}

pub open spec fn is_hex_digit(c: u8) -> bool {
    hex_val(c) < 16
}

/// The lowercase hex digit of a value below 16.
pub open spec fn hex_digit(d: u8) -> u8 {
    if d < 10 {
        (48 + d) as u8
    } else {
        (87 + d) as u8
    }
}

/// The 32 lowercase hex digits of 16 bytes, high nibble first.
pub open spec fn hex_of(bytes: Seq<u8>) -> Seq<u8> {
    Seq::new(2 * bytes.len(), |i: int| if i % 2 == 0 {
        hex_digit(bytes[i / 2] / 16)
    } else {
        hex_digit(bytes[i / 2] % 16)
    })
}

/// Renders bytes as lowercase hex.
pub fn render_hex(bytes: &[u8; 16]) -> (r: Vec<u8>)
    ensures
        r@ == hex_of(bytes@),
{
    let mut r: Vec<u8> = Vec::new();
    let mut i: usize = 0;
    while i < 16
        invariant
            i <= 16,
            r@.len() == 2 * i,
            forall|j: int| 0 <= j < r@.len() ==> r@[j] == hex_of(bytes@)[j],
        decreases 16 - i,
    {
        let b = bytes[i];
        let hi = b / 16;
        let lo = b % 16;
        r.push(if hi < 10 { 48 + hi } else { 87 + hi });
        r.push(if lo < 10 { 48 + lo } else { 87 + lo });
        i += 1;
    }
    proof {
        assert(r@ =~= hex_of(bytes@));
    }
    r
}

/// Parses 32 hex digits (either case) into 16 bytes.
pub fn parse_hex_16(s: &Vec<u8>) -> (r: Option<[u8; 16]>)
    ensures
        match r {
            Some(bytes) => {
                &&& s@.len() == 32
                &&& forall|i: int| 0 <= i < 32 ==> is_hex_digit(s@[i])
                &&& forall|i: int|
                    0 <= i < 16 ==> bytes@[i] == hex_val(s@[2 * i]) * 16 + hex_val(
                        s@[2 * i + 1],
                    )
            },
            None => s@.len() != 32 || exists|i: int| 0 <= i < 32 && !is_hex_digit(s@[i]),
        },
{
    if s.len() != 32 {
        return None;
    }
    let mut bytes: [u8; 16] = [0; 16];
    let mut i: usize = 0;
    while i < 16
        invariant
            s@.len() == 32,
            i <= 16,
            forall|j: int| 0 <= j < 2 * i ==> is_hex_digit(s@[j]),
            forall|j: int|
                0 <= j < i ==> bytes@[j] == hex_val(s@[2 * j]) * 16 + hex_val(s@[2 * j + 1]),
        decreases 16 - i,
    {
        let c1 = s[2 * i];
        let c2 = s[2 * i + 1];
        let v1 = if 48 <= c1 && c1 <= 57 {
            c1 - 48
        } else if 97 <= c1 && c1 <= 102 {
            c1 - 87
        } else if 65 <= c1 && c1 <= 70 {
            c1 - 55
        } else {
            return None;
        };
        let v2 = if 48 <= c2 && c2 <= 57 {
            c2 - 48
        } else if 97 <= c2 && c2 <= 102 {
            c2 - 87
        } else if 65 <= c2 && c2 <= 70 {
            c2 - 55
        } else {
            return None;
        };
        bytes[i] = v1 * 16 + v2;
        i += 1;
    }
    Some(bytes)
}

/// Compares two 16-byte arrays.
pub fn bytes16_eq(a: &[u8; 16], b: &[u8; 16]) -> (r: bool)
    ensures
        r == (a@ == b@),
{
    let mut i: usize = 0;
    while i < 16
        invariant
            i <= 16,
            forall|j: int| 0 <= j < i ==> a@[j] == b@[j],
        decreases 16 - i,
    {
        if a[i] != b[i] {
            proof {
                if a@ == b@ {
                    assert(a@[i as int] == b@[i as int]);
                }
            }
            return false;
        }
        i += 1;
    }
    proof {
        assert(a@ =~= b@);
    }
    true
}

/// `s` is the 32-hex-digit rendering of the 16 bytes `id`.
pub open spec fn hex_parses_to(s: Seq<u8>, id: Seq<u8>) -> bool {
    &&& s.len() == 32
    &&& id.len() == 16
    &&& forall|i: int| 0 <= i < 32 ==> is_hex_digit(#[trigger] s[i])
    &&& forall|i: int| 0 <= i < 16 ==> #[trigger] id[i] == hex_val(s[2 * i]) * 16 + hex_val(
        s[2 * i + 1],
    )
}

/// A 16-byte tenant identifier.
#[derive(Clone, Copy, Debug, Eq, Hash)]
pub struct TenantId(pub [u8; 16]);

/// A 16-byte timeline identifier.
#[derive(Clone, Copy, Debug, Eq, Hash)]
pub struct TimelineId(pub [u8; 16]);

/// The id of a safekeeper node.
#[derive(Clone, Copy, Debug, PartialEq, Eq, Structural, Hash)]
pub struct NodeId(pub u64);

/// A tenant and one of its timelines: the key every sync task is scoped by.
#[derive(Clone, Copy, Debug, Eq, Hash)]
pub struct TenantTimelineId {
    pub tenant_id: TenantId,
    pub timeline_id: TimelineId,
}

impl PartialEq for TenantId {
    fn eq(&self, other: &Self) -> (r: bool) {
        bytes16_eq(&self.0, &other.0)
    }
}

impl vstd::std_specs::cmp::PartialEqSpecImpl for TenantId {
    open spec fn obeys_eq_spec() -> bool {
        true
    }

    open spec fn eq_spec(&self, other: &Self) -> bool {
        self.0@ == other.0@
    }
}

impl PartialEq for TimelineId {
    fn eq(&self, other: &Self) -> (r: bool) {
        bytes16_eq(&self.0, &other.0)
    }
}

impl vstd::std_specs::cmp::PartialEqSpecImpl for TimelineId {
    open spec fn obeys_eq_spec() -> bool {
        true
    }

    open spec fn eq_spec(&self, other: &Self) -> bool {
        self.0@ == other.0@
    }
}

impl PartialEq for TenantTimelineId {
    fn eq(&self, other: &Self) -> (r: bool) {
        bytes16_eq(&self.tenant_id.0, &other.tenant_id.0) && bytes16_eq(
            &self.timeline_id.0,
            &other.timeline_id.0,
        )
    }
}

impl vstd::std_specs::cmp::PartialEqSpecImpl for TenantTimelineId {
    open spec fn obeys_eq_spec() -> bool {
        true
    }

    open spec fn eq_spec(&self, other: &Self) -> bool {
        self.tenant_id.0@ == other.tenant_id.0@ && self.timeline_id.0@ == other.timeline_id.0@
    }
}

impl TenantId {
    /// The 32-digit lowercase hex rendering.
    pub fn render(&self) -> (r: Vec<u8>)
        ensures
            r@ == hex_of(self.0@),
    {
        render_hex(&self.0)
    }
}

impl TimelineId {
    /// The 32-digit lowercase hex rendering.
    pub fn render(&self) -> (r: Vec<u8>)
        ensures
            r@ == hex_of(self.0@),
    {
        render_hex(&self.0)
    }

    /// Parses a textual timeline id: exactly 32 hex digits.
    pub fn parse(s: &Vec<u8>) -> (r: Option<TimelineId>)
        ensures
            match r {
                Some(id) => hex_parses_to(s@, id.0@),
                None => s@.len() != 32 || exists|i: int| 0 <= i < 32 && !is_hex_digit(s@[i]),
            },
    {
        match parse_hex_16(s) {
            Some(bytes) => {
                proof {
                    assert forall|i: int| 0 <= i < 32 implies is_hex_digit(#[trigger] s@[i]) by {
                        if i % 2 == 0 {
                            assert(bytes@[i / 2] == hex_val(s@[2 * (i / 2)]) * 16 + hex_val(
                                s@[2 * (i / 2) + 1],
                            ));
                        } else {
                            assert(bytes@[i / 2] == hex_val(s@[2 * (i / 2)]) * 16 + hex_val(
                                s@[2 * (i / 2) + 1],
                            ));
                        }
                    }
                }
                Some(TimelineId(bytes))
            },
            None => None,
        }
    }
}

} // verus!
