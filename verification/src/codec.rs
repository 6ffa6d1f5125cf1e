//! The index-part codec: a stable JSON-shaped textual format for the
//! per-timeline manifest.
//!
//! The encoder always emits the four known fields in a fixed order; the
//! decoder accepts the fields in any order and skips unknown fields, so the
//! format is forwards-tolerant. Decoding what was encoded returns the
//! original manifest.

use vstd::prelude::*;

use crate::index::IndexPart;
use crate::lsn::Lsn;
use crate::num::dec_digits;
use crate::paths::RelativePath;

verus! {

pub const QUOTE: u8 = 34;
pub const BSLASH: u8 = 92;
pub const LBRACKET: u8 = 91;
pub const RBRACKET: u8 = 93;
pub const LBRACE: u8 = 123;
pub const RBRACE: u8 = 125;
pub const COMMA: u8 = 44;
pub const COLON: u8 = 58;

pub open spec fn is_digit(b: u8) -> bool {
    48 <= b <= 57
}

/// How one byte of a string is written: quotes and backslashes carry an
/// escape, everything else stands as it is.
pub open spec fn esc(b: u8) -> Seq<u8> {
    if b == QUOTE || b == BSLASH {
        seq![BSLASH, b]
    } else {
        seq![b]
    }
}

/// The escaped body of a string.
pub open spec fn esc_str(s: Seq<u8>) -> Seq<u8>
    decreases s.len(),
{
    if s.len() == 0 {
        Seq::empty()
    } else {
        esc(s[0]) + esc_str(s.skip(1))
    }
}

/// A quoted, escaped string.
pub open spec fn quoted(s: Seq<u8>) -> Seq<u8> {
    seq![QUOTE] + esc_str(s) + seq![QUOTE]
}

/// The items of a string array after the first, each preceded by a comma.
pub open spec fn enc_str_rest(l: Seq<Seq<u8>>) -> Seq<u8>
    decreases l.len(),
{
    if l.len() == 0 {
        Seq::empty()
    } else {
        seq![COMMA] + quoted(l[0]) + enc_str_rest(l.skip(1))
    }
}

/// A bracketed array of quoted strings.
pub open spec fn enc_str_arr(l: Seq<Seq<u8>>) -> Seq<u8> {
    if l.len() == 0 {
        seq![LBRACKET, RBRACKET]
    } else {
        seq![LBRACKET] + quoted(l[0]) + enc_str_rest(l.skip(1)) + seq![RBRACKET]
    }
}

/// The items of a number array after the first, each preceded by a comma.
pub open spec fn enc_num_rest(l: Seq<u8>) -> Seq<u8>
    decreases l.len(),
{
    if l.len() == 0 {
        Seq::empty()
    } else {
        seq![COMMA] + dec_digits(l[0] as nat) + enc_num_rest(l.skip(1))
    }
}

/// A bracketed array of decimal numbers, one per byte.
pub open spec fn enc_num_arr(l: Seq<u8>) -> Seq<u8> {
    if l.len() == 0 {
        seq![LBRACKET, RBRACKET]
    } else {
        seq![LBRACKET] + dec_digits(l[0] as nat) + enc_num_rest(l.skip(1)) + seq![RBRACKET]
    }
}

/// `stored_files`
pub open spec fn key_stored() -> Seq<u8> {
    seq![115u8, 116u8, 111u8, 114u8, 101u8, 100u8, 95u8, 102u8, 105u8, 108u8, 101u8, 115u8]
}

/// `missing_files`
pub open spec fn key_missing() -> Seq<u8> {
    seq![109u8, 105u8, 115u8, 115u8, 105u8, 110u8, 103u8, 95u8, 102u8, 105u8, 108u8, 101u8, 115u8]
}

/// `disk_consistent_lsn`
pub open spec fn key_lsn() -> Seq<u8> {
    seq![
        100u8,
        105u8,
        115u8,
        107u8,
        95u8,
        99u8,
        111u8,
        110u8,
        115u8,
        105u8,
        115u8,
        116u8,
        101u8,
        110u8,
        116u8,
        95u8,
        108u8,
        115u8,
        110u8,
    ]
}

/// `metadata_bytes`
pub open spec fn key_meta() -> Seq<u8> {
    seq![
        109u8,
        101u8,
        116u8,
        97u8,
        100u8,
        97u8,
        116u8,
        97u8,
        95u8,
        98u8,
        121u8,
        116u8,
        101u8,
        115u8,
    ]
}

/// The views of a list of relative paths.
pub open spec fn rel_views(l: Seq<RelativePath>) -> Seq<Seq<u8>> {
    l.map_values(|r: RelativePath| r.bytes@)
}

/// The canonical encoding of a manifest's four fields.
pub open spec fn spec_encode(
    stored: Seq<Seq<u8>>,
    missing: Seq<Seq<u8>>,
    lsn: u64,
    meta: Seq<u8>,
) -> Seq<u8> {
    seq![LBRACE] + (quoted(key_stored()) + (seq![COLON] + (enc_str_arr(stored) + (seq![COMMA] + (
    quoted(key_missing()) + (seq![COLON] + (enc_str_arr(missing) + (seq![COMMA] + (quoted(
        key_lsn(),
    ) + (seq![COLON] + (dec_digits(lsn as nat) + (seq![COMMA] + (quoted(key_meta()) + (seq![COLON]
        + (enc_num_arr(meta) + seq![RBRACE])))))))))))))))
}

/// The canonical encoding of a manifest.
pub open spec fn spec_encode_part(p: IndexPart) -> Seq<u8> {
    spec_encode(
        rel_views(p.stored_files@),
        rel_views(p.missing_files@),
        p.disk_consistent_lsn.0,
        p.metadata_bytes@,
    )
}

/// Appends one byte of a string body, escaped.
fn push_esc(out: &mut Vec<u8>, b: u8)
    ensures
        final(out)@ == old(out)@ + esc(b),
{
    if b == QUOTE || b == BSLASH {
        out.push(BSLASH);
        out.push(b);
        proof {
            assert(out@ =~= old(out)@ + esc(b));
        }
    } else {
        out.push(b);
        proof {
            assert(out@ =~= old(out)@ + esc(b));
        }
    }
}

/// Splitting the last byte off a string splits its escaped body.
proof fn lemma_esc_str_snoc(s: Seq<u8>, b: u8)
    ensures
        esc_str(s.push(b)) == esc_str(s) + esc(b),
    decreases s.len(),
{
    if s.len() == 0 {
        assert(s.push(b).skip(1) =~= Seq::<u8>::empty());
        assert(esc_str(s.push(b)) == esc(b) + esc_str(s.push(b).skip(1)));
        assert(esc_str(s.push(b).skip(1)) == Seq::<u8>::empty());
        assert(esc_str(s) == Seq::<u8>::empty());
        assert(esc_str(s.push(b)) =~= esc_str(s) + esc(b));
    } else {
        assert(s.push(b).skip(1) =~= s.skip(1).push(b));
        lemma_esc_str_snoc(s.skip(1), b);
        assert(esc_str(s.push(b)) =~= esc_str(s) + esc(b));
    }
}

/// Appends a quoted, escaped string.
fn push_quoted(out: &mut Vec<u8>, s: &Vec<u8>)
    ensures
        final(out)@ == old(out)@ + quoted(s@),
{
    out.push(QUOTE);
    let mut i: usize = 0;
    while i < s.len()
        invariant
            i <= s@.len(),
            out@ == old(out)@ + seq![QUOTE] + esc_str(s@.take(i as int)),
        decreases s@.len() - i,
    {
        push_esc(out, s[i]);
        i += 1;
        proof {
            assert(s@.take(i as int) =~= s@.take(i - 1).push(s@[i - 1]));
            lemma_esc_str_snoc(s@.take(i - 1), s@[i - 1]);
        }
    }
    out.push(QUOTE);
    proof {
        assert(s@.take(s@.len() as int) =~= s@);
        assert(out@ =~= old(out)@ + quoted(s@));
    }
}

/// Appends the canonical decimal digits of `v`.
fn push_u64(out: &mut Vec<u8>, v: u64)
    ensures
        final(out)@ == old(out)@ + dec_digits(v as nat),
{
    let digits = crate::num::render_u64(v);
    let mut i: usize = 0;
    while i < digits.len()
        invariant
            i <= digits@.len(),
            digits@ == dec_digits(v as nat),
            out@ == old(out)@ + digits@.take(i as int),
        decreases digits@.len() - i,
    {
        out.push(digits[i]);
        i += 1;
        proof {
            assert(out@ =~= old(out)@ + digits@.take(i as int));
        }
    }
    proof {
        assert(digits@.take(digits@.len() as int) =~= digits@);
    }
}

/// Appends a bracketed array of quoted strings.
fn push_str_arr(out: &mut Vec<u8>, items: &Vec<RelativePath>)
    ensures
        final(out)@ == old(out)@ + enc_str_arr(rel_views(items@)),
{
    out.push(LBRACKET);
    let ghost l = rel_views(items@);
    if items.len() > 0 {
        push_quoted(out, &items[0].bytes);
        proof {
            assert(l[0] == items@[0].bytes@);
        }
        let mut i: usize = 1;
        while i < items.len()
            invariant
                1 <= i <= items@.len(),
                l == rel_views(items@),
                l.len() == items@.len(),
                out@ == old(out)@ + seq![LBRACKET] + quoted(l[0]) + enc_str_rest(
                    l.skip(1).take(i - 1),
                ),
            decreases items@.len() - i,
        {
            out.push(COMMA);
            push_quoted(out, &items[i].bytes);
            i += 1;
            proof {
                assert(l[i - 1] == items@[i - 1].bytes@);
                assert(l.skip(1).take(i - 1) =~= l.skip(1).take(i - 2).push(l[i - 1]));
                lemma_enc_str_rest_snoc(l.skip(1).take(i - 2), l[i - 1]);
            }
        }
        proof {
            assert(l.skip(1).take(l.len() - 1) =~= l.skip(1));
        }
    }
    out.push(RBRACKET);
    proof {
        assert(out@ =~= old(out)@ + enc_str_arr(rel_views(items@)));
    }
}

proof fn lemma_enc_str_rest_snoc(l: Seq<Seq<u8>>, v: Seq<u8>)
    ensures
        enc_str_rest(l.push(v)) == enc_str_rest(l) + seq![COMMA] + quoted(v),
    decreases l.len(),
{
    if l.len() == 0 {
        assert(l.push(v).skip(1) =~= Seq::<Seq<u8>>::empty());
        assert(enc_str_rest(l.push(v)) == seq![COMMA] + quoted(v) + enc_str_rest(l.push(v).skip(1)));
        assert(enc_str_rest(l.push(v).skip(1)) == Seq::<u8>::empty());
        assert(enc_str_rest(l) == Seq::<u8>::empty());
        assert(enc_str_rest(l.push(v)) =~= enc_str_rest(l) + seq![COMMA] + quoted(v));
    } else {
        assert(l.push(v).skip(1) =~= l.skip(1).push(v));
        lemma_enc_str_rest_snoc(l.skip(1), v);
        assert(enc_str_rest(l.push(v)) =~= enc_str_rest(l) + seq![COMMA] + quoted(v));
    }
}

proof fn lemma_enc_num_rest_snoc(l: Seq<u8>, v: u8)
    ensures
        enc_num_rest(l.push(v)) == enc_num_rest(l) + seq![COMMA] + dec_digits(v as nat),
    decreases l.len(),
{
    if l.len() == 0 {
        assert(l.push(v).skip(1) =~= Seq::<u8>::empty());
        assert(enc_num_rest(l.push(v)) == seq![COMMA] + dec_digits(l.push(v)[0] as nat)
            + enc_num_rest(l.push(v).skip(1)));
        assert(l.push(v)[0] == v);
        assert(enc_num_rest(l.push(v).skip(1)) == Seq::<u8>::empty());
        assert(enc_num_rest(l) == Seq::<u8>::empty());
        assert(enc_num_rest(l.push(v)) =~= enc_num_rest(l) + seq![COMMA] + dec_digits(v as nat));
    } else {
        assert(l.push(v).skip(1) =~= l.skip(1).push(v));
        lemma_enc_num_rest_snoc(l.skip(1), v);
        assert(enc_num_rest(l.push(v)) =~= enc_num_rest(l) + seq![COMMA] + dec_digits(v as nat));
    }
}

/// Appends a bracketed array of decimal numbers.
fn push_num_arr(out: &mut Vec<u8>, items: &Vec<u8>)
    ensures
        final(out)@ == old(out)@ + enc_num_arr(items@),
{
    out.push(LBRACKET);
    let ghost l = items@;
    if items.len() > 0 {
        push_u64(out, items[0] as u64);
        let mut i: usize = 1;
        while i < items.len()
            invariant
                1 <= i <= items@.len(),
                l == items@,
                out@ == old(out)@ + seq![LBRACKET] + dec_digits(l[0] as nat) + enc_num_rest(
                    l.skip(1).take(i - 1),
                ),
            decreases items@.len() - i,
        {
            out.push(COMMA);
            push_u64(out, items[i] as u64);
            i += 1;
            proof {
                assert(l.skip(1).take(i - 1) =~= l.skip(1).take(i - 2).push(l[i - 1]));
                lemma_enc_num_rest_snoc(l.skip(1).take(i - 2), l[i - 1]);
            }
        }
        proof {
            assert(l.skip(1).take(l.len() - 1) =~= l.skip(1));
        }
    }
    out.push(RBRACKET);
    proof {
        assert(out@ =~= old(out)@ + enc_num_arr(items@));
    }
}

/// The key literals, as runtime byte strings.
fn key_stored_bytes() -> (r: Vec<u8>)
    ensures
        r@ == key_stored(),
{
    let mut r: Vec<u8> = Vec::new();
    r.push(115);
    r.push(116);
    r.push(111);
    r.push(114);
    r.push(101);
    r.push(100);
    r.push(95);
    r.push(102);
    r.push(105);
    r.push(108);
    r.push(101);
    r.push(115);
    proof {
        assert(r@ =~= key_stored());
    }
    r
}

fn key_missing_bytes() -> (r: Vec<u8>)
    ensures
        r@ == key_missing(),
{
    let mut r: Vec<u8> = Vec::new();
    r.push(109);
    r.push(105);
    r.push(115);
    r.push(115);
    r.push(105);
    r.push(110);
    r.push(103);
    r.push(95);
    r.push(102);
    r.push(105);
    r.push(108);
    r.push(101);
    r.push(115);
    proof {
        assert(r@ =~= key_missing());
    }
    r
}

fn key_lsn_bytes() -> (r: Vec<u8>)
    ensures
        r@ == key_lsn(),
{
    let mut r: Vec<u8> = Vec::new();
    r.push(100);
    r.push(105);
    r.push(115);
    r.push(107);
    r.push(95);
    r.push(99);
    r.push(111);
    r.push(110);
    r.push(115);
    r.push(105);
    r.push(115);
    r.push(116);
    r.push(101);
    r.push(110);
    r.push(116);
    r.push(95);
    r.push(108);
    r.push(115);
    r.push(110);
    proof {
        assert(r@ =~= key_lsn());
    }
    r
}

fn key_meta_bytes() -> (r: Vec<u8>)
    ensures
        r@ == key_meta(),
{
    let mut r: Vec<u8> = Vec::new();
    r.push(109);
    r.push(101);
    r.push(116);
    r.push(97);
    r.push(100);
    r.push(97);
    r.push(116);
    r.push(97);
    r.push(95);
    r.push(98);
    r.push(121);
    r.push(116);
    r.push(101);
    r.push(115);
    proof {
        assert(r@ =~= key_meta());
    }
    r
}

/// Serializes a manifest into its canonical textual form.
///
/// The output depends on the manifest's value alone, so uploading the same
/// manifest twice writes byte-identical objects.
#[verifier::rlimit(100)]
#[verifier::spinoff_prover]
pub fn encode_index_part(p: &IndexPart) -> (r: Vec<u8>)
    ensures
        r@ == spec_encode_part(*p),
{
    let mut out: Vec<u8> = Vec::new();
    out.push(LBRACE);
    push_quoted(&mut out, &key_stored_bytes());
    out.push(COLON);
    push_str_arr(&mut out, &p.stored_files);
    out.push(COMMA);
    push_quoted(&mut out, &key_missing_bytes());
    out.push(COLON);
    push_str_arr(&mut out, &p.missing_files);
    out.push(COMMA);
    push_quoted(&mut out, &key_lsn_bytes());
    out.push(COLON);
    push_u64(&mut out, p.disk_consistent_lsn.0);
    out.push(COMMA);
    push_quoted(&mut out, &key_meta_bytes());
    out.push(COLON);
    push_num_arr(&mut out, &p.metadata_bytes);
    out.push(RBRACE);
    proof {
        assert(out@ =~= spec_encode_part(*p));
    }
    out
}

/// Parses the body of a string after its opening quote, unescaping as it
/// goes; returns the string and the position after the closing quote.
pub open spec fn sp_str_body(s: Seq<u8>, pos: int, acc: Seq<u8>) -> Option<(Seq<u8>, int)>
    decreases s.len() - pos,
{
    if pos < 0 || pos >= s.len() {
        None
    } else if s[pos] == QUOTE {
        Some((acc, pos + 1))
    } else if s[pos] == BSLASH {
        if pos + 1 < s.len() && (s[pos + 1] == QUOTE || s[pos + 1] == BSLASH) {
            sp_str_body(s, pos + 2, acc.push(s[pos + 1]))
        } else {
            None
        }
    } else {
        sp_str_body(s, pos + 1, acc.push(s[pos]))
    }
}

/// Parses a quoted string starting at `pos`.
pub open spec fn sp_string(s: Seq<u8>, pos: int) -> Option<(Seq<u8>, int)> {
    if 0 <= pos < s.len() && s[pos] == QUOTE {
        sp_str_body(s, pos + 1, Seq::empty())
    } else {
        None
    }
}

pub proof fn lemma_sp_str_body_advance(s: Seq<u8>, pos: int, acc: Seq<u8>)
    ensures
        sp_str_body(s, pos, acc) matches Some((v, p)) ==> pos + 1 <= p <= s.len(),
    decreases s.len() - pos,
{
    if 0 <= pos < s.len() {
        if s[pos] == QUOTE {
        } else if s[pos] == BSLASH {
            if pos + 1 < s.len() && (s[pos + 1] == QUOTE || s[pos + 1] == BSLASH) {
                lemma_sp_str_body_advance(s, pos + 2, acc.push(s[pos + 1]));
            }
        } else {
            lemma_sp_str_body_advance(s, pos + 1, acc.push(s[pos]));
        }
    }
}

pub proof fn lemma_sp_string_advance(s: Seq<u8>, pos: int)
    ensures
        sp_string(s, pos) matches Some((v, p)) ==> pos + 2 <= p <= s.len(),
{
    if 0 <= pos < s.len() && s[pos] == QUOTE {
        lemma_sp_str_body_advance(s, pos + 1, Seq::empty());
    }
}

/// Parses the digits of a number, most significant first.
pub open spec fn sp_num_body(s: Seq<u8>, pos: int, acc: u64) -> Option<(u64, int)>
    decreases s.len() - pos,
{
    if 0 <= pos < s.len() && is_digit(s[pos]) {
        if acc as nat * 10 + (s[pos] - 48) as nat <= u64::MAX as nat {
            sp_num_body(s, pos + 1, (acc * 10 + (s[pos] - 48) as u64) as u64)
        } else {
            None
        }
    } else {
        Some((acc, pos))
    }
}

/// Parses a decimal number of at least one digit.
pub open spec fn sp_number(s: Seq<u8>, pos: int) -> Option<(u64, int)> {
    if 0 <= pos < s.len() && is_digit(s[pos]) {
        sp_num_body(s, pos, 0)
    } else {
        None
    }
}

pub proof fn lemma_sp_num_body_advance(s: Seq<u8>, pos: int, acc: u64)
    requires
        pos <= s.len(),
    ensures
        sp_num_body(s, pos, acc) matches Some((v, p)) ==> pos <= p <= s.len(),
    decreases s.len() - pos,
{
    if 0 <= pos < s.len() && is_digit(s[pos]) {
        if acc as nat * 10 + (s[pos] - 48) as nat <= u64::MAX as nat {
            lemma_sp_num_body_advance(s, pos + 1, (acc * 10 + (s[pos] - 48) as u64) as u64);
        }
    }
}

pub proof fn lemma_sp_number_advance(s: Seq<u8>, pos: int)
    requires
        pos <= s.len(),
    ensures
        sp_number(s, pos) matches Some((v, p)) ==> pos + 1 <= p <= s.len(),
{
    if 0 <= pos < s.len() && is_digit(s[pos]) {
        if (0 as nat) * 10 + (s[pos] - 48) as nat <= u64::MAX as nat {
            lemma_sp_num_body_advance(s, pos + 1, (0 * 10 + (s[pos] - 48) as u64) as u64);
        }
    }
}

/// Parses the items of a string array after its opening bracket, the first
/// item expected at `pos`.
pub open spec fn sp_str_items(s: Seq<u8>, pos: int, acc: Seq<Seq<u8>>) -> Option<
    (Seq<Seq<u8>>, int),
>
    decreases s.len() - pos,
{
    match sp_string(s, pos) {
        Option::None => Option::None,
        Option::Some((v, p)) => if p < s.len() && s[p] == COMMA {
            proof {
                lemma_sp_string_advance(s, pos);
            }
            sp_str_items(s, p + 1, acc.push(v))
        } else if p < s.len() && s[p] == RBRACKET {
            Option::Some((acc.push(v), p + 1))
        } else {
            Option::None
        },
    }
}

/// Parses a bracketed array of quoted strings.
pub open spec fn sp_str_arr(s: Seq<u8>, pos: int) -> Option<(Seq<Seq<u8>>, int)> {
    if 0 <= pos < s.len() && s[pos] == LBRACKET {
        if pos + 1 < s.len() && s[pos + 1] == RBRACKET {
            Some((Seq::empty(), pos + 2))
        } else {
            sp_str_items(s, pos + 1, Seq::empty())
        }
    } else {
        None
    }
}

pub proof fn lemma_sp_str_items_advance(s: Seq<u8>, pos: int, acc: Seq<Seq<u8>>)
    ensures
        sp_str_items(s, pos, acc) matches Some((v, p)) ==> pos + 3 <= p <= s.len(),
    decreases s.len() - pos,
{
    lemma_sp_string_advance(s, pos);
    match sp_string(s, pos) {
        Option::None => {},
        Option::Some((v, p)) => {
            if p < s.len() && s[p] == COMMA {
                lemma_sp_str_items_advance(s, p + 1, acc.push(v));
            }
        },
    }
}

pub proof fn lemma_sp_str_arr_advance(s: Seq<u8>, pos: int)
    ensures
        sp_str_arr(s, pos) matches Some((v, p)) ==> pos + 2 <= p <= s.len(),
{
    if 0 <= pos < s.len() && s[pos] == LBRACKET {
        if !(pos + 1 < s.len() && s[pos + 1] == RBRACKET) {
            lemma_sp_str_items_advance(s, pos + 1, Seq::empty());
        }
    }
}

/// Parses the items of a number array after its opening bracket; every
/// value must fit in a byte.
pub open spec fn sp_num_items(s: Seq<u8>, pos: int, acc: Seq<u8>) -> Option<(Seq<u8>, int)>
    decreases s.len() - pos,
{
    match sp_number(s, pos) {
        Option::None => Option::None,
        Option::Some((v, p)) => if v > 255 {
            Option::None
        } else if p < s.len() && s[p] == COMMA {
            proof {
                lemma_sp_number_advance_for_items(s, pos);
            }
            sp_num_items(s, p + 1, acc.push(v as u8))
        } else if p < s.len() && s[p] == RBRACKET {
            Option::Some((acc.push(v as u8), p + 1))
        } else {
            Option::None
        },
    }
}

pub proof fn lemma_sp_number_advance_for_items(s: Seq<u8>, pos: int)
    ensures
        sp_number(s, pos) matches Some((v, p)) ==> pos + 1 <= p <= s.len(),
{
    if pos <= s.len() {
        lemma_sp_number_advance(s, pos);
    } else {
        assert(sp_number(s, pos) is None);
    }
}

/// Parses a bracketed array of byte-sized numbers.
pub open spec fn sp_num_arr(s: Seq<u8>, pos: int) -> Option<(Seq<u8>, int)> {
    if 0 <= pos < s.len() && s[pos] == LBRACKET {
        if pos + 1 < s.len() && s[pos + 1] == RBRACKET {
            Some((Seq::empty(), pos + 2))
        } else {
            sp_num_items(s, pos + 1, Seq::empty())
        }
    } else {
        None
    }
}

pub proof fn lemma_sp_num_items_advance(s: Seq<u8>, pos: int, acc: Seq<u8>)
    ensures
        sp_num_items(s, pos, acc) matches Some((v, p)) ==> pos + 2 <= p <= s.len(),
    decreases s.len() - pos,
{
    lemma_sp_number_advance_for_items(s, pos);
    match sp_number(s, pos) {
        Option::None => {},
        Option::Some((v, p)) => {
            if v <= 255 && p < s.len() && s[p] == COMMA {
                lemma_sp_num_items_advance(s, p + 1, acc.push(v as u8));
            }
        },
    }
}

pub proof fn lemma_sp_num_arr_advance(s: Seq<u8>, pos: int)
    ensures
        sp_num_arr(s, pos) matches Some((v, p)) ==> pos + 2 <= p <= s.len(),
{
    if 0 <= pos < s.len() && s[pos] == LBRACKET {
        if !(pos + 1 < s.len() && s[pos + 1] == RBRACKET) {
            lemma_sp_num_items_advance(s, pos + 1, Seq::empty());
        }
    }
}

/// Scans over one value of an unknown field, tracking bracket depth and
/// string state, and stops at the comma or closing brace that ends it.
pub open spec fn sp_skip(s: Seq<u8>, pos: int, depth: nat, in_str: bool) -> Option<int>
    decreases s.len() - pos,
{
    if pos < 0 || pos >= s.len() {
        None
    } else if in_str {
        if s[pos] == BSLASH {
            if pos + 1 < s.len() {
                sp_skip(s, pos + 2, depth, true)
            } else {
                None
            }
        } else if s[pos] == QUOTE {
            sp_skip(s, pos + 1, depth, false)
        } else {
            sp_skip(s, pos + 1, depth, true)
        }
    } else if depth == 0 && (s[pos] == COMMA || s[pos] == RBRACE) {
        Some(pos)
    } else if s[pos] == QUOTE {
        sp_skip(s, pos + 1, depth, true)
    } else if s[pos] == LBRACKET || s[pos] == LBRACE {
        sp_skip(s, pos + 1, depth + 1, false)
    } else if s[pos] == RBRACKET || s[pos] == RBRACE {
        if depth >= 1 {
            sp_skip(s, pos + 1, (depth - 1) as nat, false)
        } else {
            None
        }
    } else {
        sp_skip(s, pos + 1, depth, false)
    }
}

pub proof fn lemma_sp_skip_advance(s: Seq<u8>, pos: int, depth: nat, in_str: bool)
    ensures
        sp_skip(s, pos, depth, in_str) matches Some(p) ==> pos <= p < s.len(),
    decreases s.len() - pos,
{
    if 0 <= pos < s.len() {
        if in_str {
            if s[pos] == BSLASH {
                if pos + 1 < s.len() {
                    lemma_sp_skip_advance(s, pos + 2, depth, true);
                }
            } else if s[pos] == QUOTE {
                lemma_sp_skip_advance(s, pos + 1, depth, false);
            } else {
                lemma_sp_skip_advance(s, pos + 1, depth, true);
            }
        } else if depth == 0 && (s[pos] == COMMA || s[pos] == RBRACE) {
        } else if s[pos] == QUOTE {
            lemma_sp_skip_advance(s, pos + 1, depth, true);
        } else if s[pos] == LBRACKET || s[pos] == LBRACE {
            lemma_sp_skip_advance(s, pos + 1, depth + 1, false);
        } else if s[pos] == RBRACKET || s[pos] == RBRACE {
            if depth >= 1 {
                lemma_sp_skip_advance(s, pos + 1, (depth - 1) as nat, false);
            }
        } else {
            lemma_sp_skip_advance(s, pos + 1, depth, false);
        }
    }
}

/// The four decoded fields of a manifest, in declaration order.
pub type SpFields = (Seq<Seq<u8>>, Seq<Seq<u8>>, u64, Seq<u8>);

/// Parses the fields of the manifest object, the first key expected at
/// `pos`. Known fields must each appear once; unknown fields are skipped.
pub open spec fn sp_fields(
    s: Seq<u8>,
    pos: int,
    stored: Option<Seq<Seq<u8>>>,
    missing: Option<Seq<Seq<u8>>>,
    lsn: Option<u64>,
    meta: Option<Seq<u8>>,
) -> Option<(SpFields, int)>
    decreases s.len() - pos, s.len() - pos + 1int,
{
    match sp_string(s, pos) {
        Option::None => Option::None,
        Option::Some((key, p)) => if !(p < s.len() && s[p] == COLON) {
            Option::None
        } else {
            let q = p + 1;
            if key == key_stored() {
                if stored is Some {
                    Option::None
                } else {
                    match sp_str_arr(s, q) {
                        Option::None => Option::None,
                        Option::Some((v, p2)) => {
                            proof {
                                lemma_sp_string_advance(s, pos);
                                lemma_sp_str_arr_advance(s, q);
                            }
                            sp_fields_cont(s, pos, p2, Option::Some(v), missing, lsn, meta)
                        },
                    }
                }
            } else if key == key_missing() {
                if missing is Some {
                    Option::None
                } else {
                    match sp_str_arr(s, q) {
                        Option::None => Option::None,
                        Option::Some((v, p2)) => {
                            proof {
                                lemma_sp_string_advance(s, pos);
                                lemma_sp_str_arr_advance(s, q);
                            }
                            sp_fields_cont(s, pos, p2, stored, Option::Some(v), lsn, meta)
                        },
                    }
                }
            } else if key == key_lsn() {
                if lsn is Some {
                    Option::None
                } else {
                    match sp_number(s, q) {
                        Option::None => Option::None,
                        Option::Some((v, p2)) => {
                            proof {
                                lemma_sp_string_advance(s, pos);
                                lemma_sp_number_advance_for_items(s, q);
                            }
                            sp_fields_cont(s, pos, p2, stored, missing, Option::Some(v), meta)
                        },
                    }
                }
            } else if key == key_meta() {
                if meta is Some {
                    Option::None
                } else {
                    match sp_num_arr(s, q) {
                        Option::None => Option::None,
                        Option::Some((v, p2)) => {
                            proof {
                                lemma_sp_string_advance(s, pos);
                                lemma_sp_num_arr_advance(s, q);
                            }
                            sp_fields_cont(s, pos, p2, stored, missing, lsn, Option::Some(v))
                        },
                    }
                }
            } else {
                match sp_skip(s, q, 0, false) {
                    Option::None => Option::None,
                    Option::Some(p2) => {
                        proof {
                            lemma_sp_string_advance(s, pos);
                            lemma_sp_skip_advance(s, q, 0, false);
                        }
                        sp_fields_cont(s, pos, p2, stored, missing, lsn, meta)
                    },
                }
            }
        },
    }
}

/// After one field's value ends at `p2`: a comma continues with the next
/// key, a closing brace ends the object — all four fields must be present.
pub open spec fn sp_fields_cont(
    s: Seq<u8>,
    pos: int,
    p2: int,
    stored: Option<Seq<Seq<u8>>>,
    missing: Option<Seq<Seq<u8>>>,
    lsn: Option<u64>,
    meta: Option<Seq<u8>>,
) -> Option<(SpFields, int)>
    decreases s.len() - pos, s.len() - p2,
{
    if p2 < s.len() && s[p2] == COMMA {
        // a field's value always ends past its key, so this guard only
        // bounds the recursion; it never fails for a real parse
        if pos < p2 + 1 {
            proof {
                lemma_sp_string_advance(s, pos);
            }
            sp_fields(s, p2 + 1, stored, missing, lsn, meta)
        } else {
            Option::None
        }
    } else if p2 < s.len() && s[p2] == RBRACE {
        match (stored, missing, lsn, meta) {
            (Option::Some(a), Option::Some(b), Option::Some(c), Option::Some(d)) => Option::Some(
                ((a, b, c, d), p2 + 1),
            ),
            _ => Option::None,
        }
    } else {
        Option::None
    }
}

/// The decoded fields of a full manifest document: a brace-delimited object
/// covering the whole input.
pub open spec fn spec_decode(s: Seq<u8>) -> Option<SpFields> {
    if s.len() >= 1 && s[0] == LBRACE {
        match sp_fields(s, 1, None, None, None, None) {
            Option::Some((f, p)) => if p == s.len() {
                Option::Some(f)
            } else {
                Option::None
            },
            Option::None => Option::None,
        }
    } else {
        None
    }
}

/// The views of a list of byte strings.
pub open spec fn vec_views(l: Seq<Vec<u8>>) -> Seq<Seq<u8>> {
    l.map_values(|v: Vec<u8>| v@)
}

/// Parses a quoted string; mirrors `sp_string`.
fn parse_string(s: &Vec<u8>, pos: usize) -> (r: Option<(Vec<u8>, usize)>)
    ensures
        match r {
            Some((v, p)) => sp_string(s@, pos as int) == Some((v@, p as int)) && p <= s@.len(),
            None => sp_string(s@, pos as int) is None,
        },
{
    if !(pos < s.len() && s[pos] == QUOTE) {
        return None;
    }
    let mut acc: Vec<u8> = Vec::new();
    let mut i: usize = pos + 1;
    loop
        invariant
            pos as int + 1 <= i <= s@.len() + 1,
            i <= s@.len() + 1,
            sp_string(s@, pos as int) == sp_str_body(s@, i as int, acc@),
        decreases s@.len() - i,
    {
        if i >= s.len() {
            return None;
        }
        let b = s[i];
        if b == QUOTE {
            return Some((acc, i + 1));
        }
        if b == BSLASH {
            if i + 1 < s.len() && (s[i + 1] == QUOTE || s[i + 1] == BSLASH) {
                acc.push(s[i + 1]);
                i += 2;
            } else {
                return None;
            }
        } else {
            acc.push(b);
            i += 1;
        }
    }
}

/// Parses a decimal number; mirrors `sp_number`.
pub fn parse_number(s: &Vec<u8>, pos: usize) -> (r: Option<(u64, usize)>)
    requires
        pos <= s@.len(),
    ensures
        match r {
            Some((v, p)) => sp_number(s@, pos as int) == Some((v, p as int)) && p <= s@.len(),
            None => sp_number(s@, pos as int) is None,
        },
{
    if !(pos < s.len() && 48 <= s[pos] && s[pos] <= 57) {
        return None;
    }
    let mut acc: u64 = 0;
    let mut i: usize = pos;
    loop
        invariant
            pos as int <= i <= s@.len(),
            sp_number(s@, pos as int) == sp_num_body(s@, i as int, acc),
        decreases s@.len() - i,
    {
        if i < s.len() && 48 <= s[i] && s[i] <= 57 {
            let d = s[i] - 48;
            if acc <= (u64::MAX - d as u64) / 10 {
                proof {
                    assert(acc as nat * 10 + d as nat <= u64::MAX as nat) by (nonlinear_arith)
                        requires
                            acc <= (u64::MAX - d as u64) / 10,
                            d <= 9,
                    ;
                }
                acc = acc * 10 + d as u64;
                i += 1;
            } else {
                proof {
                    assert(!(acc as nat * 10 + d as nat <= u64::MAX as nat)) by (nonlinear_arith)
                        requires
                            acc > (u64::MAX - d as u64) / 10,
                            d <= 9,
                            acc <= u64::MAX,
                    ;
                }
                return None;
            }
        } else {
            return Some((acc, i));
        }
    }
}

/// Parses a string array; mirrors `sp_str_arr`.
fn parse_str_arr(s: &Vec<u8>, pos: usize) -> (r: Option<(Vec<Vec<u8>>, usize)>)
    ensures
        match r {
            Some((v, p)) => sp_str_arr(s@, pos as int) == Some((vec_views(v@), p as int)) && p
                <= s@.len(),
            None => sp_str_arr(s@, pos as int) is None,
        },
{
    if !(pos < s.len() && s[pos] == LBRACKET) {
        return None;
    }
    if pos + 1 < s.len() && s[pos + 1] == RBRACKET {
        let empty: Vec<Vec<u8>> = Vec::new();
        proof {
            assert(vec_views(empty@) =~= Seq::<Seq<u8>>::empty());
        }
        return Some((empty, pos + 2));
    }
    let mut acc: Vec<Vec<u8>> = Vec::new();
    let mut i: usize = pos + 1;
    proof {
        assert(vec_views(acc@) =~= Seq::<Seq<u8>>::empty());
    }
    loop
        invariant
            pos as int + 1 <= i <= s@.len() + 1,
            sp_str_arr(s@, pos as int) == sp_str_items(s@, i as int, vec_views(acc@)),
        decreases s@.len() - i,
    {
        match parse_string(s, i) {
            None => {
                return None;
            },
            Some((v, p)) => {
                proof {
                    lemma_sp_string_advance(s@, i as int);
                }
                if p < s.len() && s[p] == COMMA {
                    let ghost pre = vec_views(acc@);
                    acc.push(v);
                    proof {
                        assert(vec_views(acc@) =~= pre.push(v@));
                    }
                    i = p + 1;
                } else if p < s.len() && s[p] == RBRACKET {
                    let ghost pre = vec_views(acc@);
                    acc.push(v);
                    proof {
                        assert(vec_views(acc@) =~= pre.push(v@));
                    }
                    return Some((acc, p + 1));
                } else {
                    return None;
                }
            },
        }
    }
}

/// Parses a byte-valued number array; mirrors `sp_num_arr`.
fn parse_num_arr(s: &Vec<u8>, pos: usize) -> (r: Option<(Vec<u8>, usize)>)
    ensures
        match r {
            Some((v, p)) => sp_num_arr(s@, pos as int) == Some((v@, p as int)) && p <= s@.len(),
            None => sp_num_arr(s@, pos as int) is None,
        },
{
    if !(pos < s.len() && s[pos] == LBRACKET) {
        return None;
    }
    if pos + 1 < s.len() && s[pos + 1] == RBRACKET {
        let empty: Vec<u8> = Vec::new();
        return Some((empty, pos + 2));
    }
    let mut acc: Vec<u8> = Vec::new();
    let mut i: usize = pos + 1;
    loop
        invariant
            pos as int + 1 <= i <= s@.len(),
            sp_num_arr(s@, pos as int) == sp_num_items(s@, i as int, acc@),
        decreases s@.len() - i,
    {
        match parse_number(s, i) {
            None => {
                return None;
            },
            Some((v, p)) => {
                proof {
                    lemma_sp_number_advance_for_items(s@, i as int);
                }
                if v > 255 {
                    return None;
                }
                if p < s.len() && s[p] == COMMA {
                    acc.push(v as u8);
                    i = p + 1;
                } else if p < s.len() && s[p] == RBRACKET {
                    acc.push(v as u8);
                    return Some((acc, p + 1));
                } else {
                    return None;
                }
            },
        }
    }
}

/// Scans over one unknown field's value; mirrors `sp_skip`.
fn skip_value(s: &Vec<u8>, pos: usize) -> (r: Option<usize>)
    requires
        pos <= s@.len(),
    ensures
        match r {
            Some(p) => sp_skip(s@, pos as int, 0, false) == Some(p as int) && p < s@.len(),
            None => sp_skip(s@, pos as int, 0, false) is None,
        },
{
    let mut i: usize = pos;
    let mut depth: usize = 0;
    let mut in_str = false;
    loop
        invariant
            pos as int <= i,
            i <= s@.len() + 1,
            depth <= i - pos,
            sp_skip(s@, pos as int, 0, false) == sp_skip(s@, i as int, depth as nat, in_str),
        decreases s@.len() - i, depth + 1,
    {
        if i >= s.len() {
            return None;
        }
        let b = s[i];
        if in_str {
            if b == BSLASH {
                if i + 1 < s.len() {
                    i += 2;
                } else {
                    return None;
                }
            } else if b == QUOTE {
                in_str = false;
                i += 1;
            } else {
                i += 1;
            }
        } else if depth == 0 && (b == COMMA || b == RBRACE) {
            return Some(i);
        } else if b == QUOTE {
            in_str = true;
            i += 1;
        } else if b == LBRACKET || b == LBRACE {
            proof {
                assert(depth < usize::MAX);
            }
            depth += 1;
            i += 1;
        } else if b == RBRACKET || b == RBRACE {
            if depth >= 1 {
                depth -= 1;
                i += 1;
            } else {
                return None;
            }
        } else {
            i += 1;
        }
    }
}

/// Why a manifest document was rejected.
#[derive(Clone, Copy, Debug, PartialEq, Eq, Structural)]
pub enum DecodeError {
    /// The document does not follow the format, or lacks a known field.
    Malformed,
    /// A listed file path is not truly relative.
    InvalidPath,
    /// A file path occurs twice in one list.
    DuplicatePath,
}

/// All entries are truly relative paths.
pub open spec fn paths_valid(l: Seq<Seq<u8>>) -> bool {
    forall|i: int| 0 <= i < l.len() ==> crate::paths::valid_relative(#[trigger] l[i])
}

/// No entry occurs twice.
pub open spec fn paths_unique(l: Seq<Seq<u8>>) -> bool {
    forall|i: int, j: int| 0 <= i < j < l.len() ==> l[i] != l[j]
}

/// Checks and converts one decoded path list into relative paths.
fn check_paths(l: Vec<Vec<u8>>) -> (r: Result<Vec<RelativePath>, DecodeError>)
    ensures
        match r {
            Ok(paths) => {
                &&& rel_views(paths@) =~= vec_views(l@)
                &&& paths_valid(vec_views(l@))
                &&& paths_unique(vec_views(l@))
                &&& crate::index::rel_paths_unique(paths@)
                &&& crate::index::rel_paths_wf(paths@)
            },
            Err(DecodeError::InvalidPath) => !paths_valid(vec_views(l@)),
            Err(DecodeError::DuplicatePath) => !paths_unique(vec_views(l@)),
            Err(DecodeError::Malformed) => false,
        },
{
    let ghost lv = vec_views(l@);
    let mut paths: Vec<RelativePath> = Vec::new();
    let mut i: usize = 0;
    while i < l.len()
        invariant
            i <= l@.len(),
            lv == vec_views(l@),
            paths@.len() == i,
            forall|j: int| 0 <= j < i ==> (#[trigger] paths@[j]).bytes@ == lv[j],
            forall|j: int| 0 <= j < i ==> crate::paths::valid_relative(#[trigger] lv[j]),
            forall|a: int, b: int| 0 <= a < b < i ==> lv[a] != lv[b],
        decreases l@.len() - i,
    {
        if !RelativePath::check_relative(&l[i]) {
            proof {
                assert(lv[i as int] == l@[i as int]@);
            }
            return Err(DecodeError::InvalidPath);
        }
        let mut j: usize = 0;
        while j < i
            invariant
                j <= i < l@.len(),
                lv == vec_views(l@),
                paths@.len() == i,
                forall|k: int| 0 <= k < i ==> (#[trigger] paths@[k]).bytes@ == lv[k],
                forall|k: int| 0 <= k < j ==> lv[k] != lv[i as int],
            decreases i - j,
        {
            if crate::paths::bytes_eq(&paths[j].bytes, &l[i]) {
                proof {
                    assert(lv[i as int] == l@[i as int]@);
                    assert(lv[j as int] == lv[i as int]);
                }
                return Err(DecodeError::DuplicatePath);
            }
            j += 1;
        }
        paths.push(RelativePath { bytes: l[i].clone() });
        proof {
            assert(paths@[i as int].bytes@ == lv[i as int]);
        }
        i += 1;
    }
    proof {
        assert(rel_views(paths@) =~= lv);
    }
    Ok(paths)
}

/// Deserializes a manifest document.
///
/// The document must be a single object holding all four known fields,
/// each once; unknown fields are skipped. The listed paths must be truly
/// relative and unique within each list.
/// The ghost view of an optional list of byte strings.
pub open spec fn opt_views(o: &Option<Vec<Vec<u8>>>) -> Option<Seq<Seq<u8>>> {
    match o {
        Option::Some(v) => Option::Some(vec_views(v@)),
        Option::None => Option::None,
    }
}

/// The ghost view of an optional byte string.
pub open spec fn opt_view(o: &Option<Vec<u8>>) -> Option<Seq<u8>> {
    match o {
        Option::Some(v) => Option::Some(v@),
        Option::None => Option::None,
    }
}

pub fn decode_index_part(s: &Vec<u8>) -> (r: Result<IndexPart, DecodeError>)
    ensures
        match r {
            Ok(p) => {
                &&& spec_decode(s@) matches Some(f) && rel_views(p.stored_files@) == f.0
                    && rel_views(p.missing_files@) == f.1 && p.disk_consistent_lsn.0 == f.2
                    && p.metadata_bytes@ == f.3
                &&& p.wf()
            },
            Err(DecodeError::Malformed) => spec_decode(s@) is None,
            Err(DecodeError::InvalidPath) => spec_decode(s@) matches Some(f) && !(paths_valid(f.0)
                && paths_valid(f.1)),
            Err(DecodeError::DuplicatePath) => spec_decode(s@) matches Some(f) && !(paths_unique(
                f.0,
            ) && paths_unique(f.1)),
        },
{
    if !(s.len() >= 1 && s[0] == LBRACE) {
        return Err(DecodeError::Malformed);
    }
    let mut stored: Option<Vec<Vec<u8>>> = None;
    let mut missing: Option<Vec<Vec<u8>>> = None;
    let mut lsn: Option<u64> = None;
    let mut meta: Option<Vec<u8>> = None;
    let mut pos: usize = 1;
    loop
        invariant
            s@.len() >= 1 && s@[0] == LBRACE,
            1 <= pos as int <= s@.len() + 1,
            sp_fields(s@, 1, None, None, None, None) == sp_fields(
                s@,
                pos as int,
                opt_views(&stored),
                opt_views(&missing),
                lsn,
                opt_view(&meta),
            ),
        decreases s@.len() - pos,
    {
        let ghost pos0 = pos as int;
        let ghost st0 = opt_views(&stored);
        let ghost mi0 = opt_views(&missing);
        let ghost ls0 = lsn;
        let ghost me0 = opt_view(&meta);
        let (key, p) = match parse_string(s, pos) {
            Some(kp) => kp,
            None => {
                return Err(DecodeError::Malformed);
            },
        };
        proof {
            lemma_sp_string_advance(s@, pos as int);
        }
        if !(p < s.len() && s[p] == COLON) {
            return Err(DecodeError::Malformed);
        }
        let q = p + 1;
        let p2: usize;
        if crate::paths::bytes_eq(&key, &key_stored_bytes()) {
            if stored.is_some() {
                return Err(DecodeError::Malformed);
            }
            match parse_str_arr(s, q) {
                None => {
                    return Err(DecodeError::Malformed);
                },
                Some((v, pn)) => {
                    proof {
                        lemma_sp_str_arr_advance(s@, q as int);
                    }
                    stored = Some(v);
                    p2 = pn;
                },
            }
        } else if crate::paths::bytes_eq(&key, &key_missing_bytes()) {
            if missing.is_some() {
                return Err(DecodeError::Malformed);
            }
            match parse_str_arr(s, q) {
                None => {
                    return Err(DecodeError::Malformed);
                },
                Some((v, pn)) => {
                    proof {
                        lemma_sp_str_arr_advance(s@, q as int);
                    }
                    missing = Some(v);
                    p2 = pn;
                },
            }
        } else if crate::paths::bytes_eq(&key, &key_lsn_bytes()) {
            if lsn.is_some() {
                return Err(DecodeError::Malformed);
            }
            match parse_number(s, q) {
                None => {
                    return Err(DecodeError::Malformed);
                },
                Some((v, pn)) => {
                    proof {
                        lemma_sp_number_advance_for_items(s@, q as int);
                    }
                    lsn = Some(v);
                    p2 = pn;
                },
            }
        } else if crate::paths::bytes_eq(&key, &key_meta_bytes()) {
            if meta.is_some() {
                return Err(DecodeError::Malformed);
            }
            match parse_num_arr(s, q) {
                None => {
                    return Err(DecodeError::Malformed);
                },
                Some((v, pn)) => {
                    proof {
                        lemma_sp_num_arr_advance(s@, q as int);
                    }
                    meta = Some(v);
                    p2 = pn;
                },
            }
        } else {
            match skip_value(s, q) {
                None => {
                    return Err(DecodeError::Malformed);
                },
                Some(pn) => {
                    proof {
                        lemma_sp_skip_advance(s@, q as int, 0, false);
                    }
                    p2 = pn;
                },
            }
        }
        proof {
            assert(pos0 + 3 <= p2 <= s@.len());
            assert(sp_fields(s@, pos0, st0, mi0, ls0, me0) == sp_fields_cont(
                s@,
                pos0,
                p2 as int,
                opt_views(&stored),
                opt_views(&missing),
                lsn,
                opt_view(&meta),
            ));
        }
        if p2 < s.len() && s[p2] == COMMA {
            pos = p2 + 1;
            proof {
                assert(sp_fields_cont(
                    s@,
                    pos0,
                    p2 as int,
                    opt_views(&stored),
                    opt_views(&missing),
                    lsn,
                    opt_view(&meta),
                ) == sp_fields(
                    s@,
                    p2 + 1,
                    opt_views(&stored),
                    opt_views(&missing),
                    lsn,
                    opt_view(&meta),
                ));
            }
        } else if p2 < s.len() && s[p2] == RBRACE {
            match (stored, missing, lsn, meta) {
                (Some(a), Some(b), Some(c), Some(d)) => {
                    if p2 + 1 == s.len() {
                        let ghost f = (vec_views(a@), vec_views(b@), c, d@);
                        proof {
                            assert(sp_fields(s@, 1, None, None, None, None) == Some(
                                (f, p2 as int + 1),
                            ));
                            assert(spec_decode(s@) == Some(f));
                        }
                        let stored_files = match check_paths(a) {
                            Ok(paths) => paths,
                            Err(e) => {
                                return Err(e);
                            },
                        };
                        let missing_files = match check_paths(b) {
                            Ok(paths) => paths,
                            Err(e) => {
                                return Err(e);
                            },
                        };
                        return Ok(
                            IndexPart {
                                stored_files,
                                missing_files,
                                disk_consistent_lsn: Lsn(c),
                                metadata_bytes: d,
                            },
                        );
                    } else {
                        return Err(DecodeError::Malformed);
                    }
                },
                _ => {
                    return Err(DecodeError::Malformed);
                },
            }
        } else {
            return Err(DecodeError::Malformed);
        }
    }
}

/// The word `w` stands in `c` at position `pos`.
pub open spec fn contains_at(c: Seq<u8>, pos: int, w: Seq<u8>) -> bool {
    &&& 0 <= pos
    &&& pos + w.len() <= c.len()
    &&& c.subrange(pos, pos + w.len()) == w
}

proof fn lemma_contains_split(c: Seq<u8>, pos: int, w1: Seq<u8>, w2: Seq<u8>)
    requires
        contains_at(c, pos, w1 + w2),
    ensures
        contains_at(c, pos, w1),
        contains_at(c, pos + w1.len(), w2),
{
    assert(c.subrange(pos, pos + w1.len()) =~= (w1 + w2).subrange(0, w1.len() as int));
    assert((w1 + w2).subrange(0, w1.len() as int) =~= w1);
    assert(c.subrange(pos + w1.len(), pos + w1.len() + w2.len()) =~= (w1 + w2).subrange(
        w1.len() as int,
        (w1 + w2).len() as int,
    ));
    assert((w1 + w2).subrange(w1.len() as int, (w1 + w2).len() as int) =~= w2);
}

proof fn lemma_contains_byte(c: Seq<u8>, pos: int, w: Seq<u8>, i: int)
    requires
        contains_at(c, pos, w),
        0 <= i < w.len(),
    ensures
        c[pos + i] == w[i],
{
    assert(c.subrange(pos, pos + w.len())[i] == c[pos + i]);
}

proof fn lemma_sp_str_body_of(c: Seq<u8>, pos: int, v: Seq<u8>, acc: Seq<u8>)
    requires
        contains_at(c, pos, esc_str(v) + seq![QUOTE]),
    ensures
        sp_str_body(c, pos, acc) == Some((acc + v, pos + esc_str(v).len() + 1)),
    decreases v.len(),
{
    if v.len() == 0 {
        assert(esc_str(v) == Seq::<u8>::empty());
        lemma_contains_byte(c, pos, esc_str(v) + seq![QUOTE], 0);
        assert(c[pos] == QUOTE);
        assert(acc + v =~= acc);
    } else {
        let b = v[0];
        assert(esc_str(v) == esc(b) + esc_str(v.skip(1)));
        assert(esc_str(v) + seq![QUOTE] =~= esc(b) + (esc_str(v.skip(1)) + seq![QUOTE]));
        lemma_contains_split(c, pos, esc(b), esc_str(v.skip(1)) + seq![QUOTE]);
        if b == QUOTE || b == BSLASH {
            lemma_contains_byte(c, pos, esc(b), 0);
            lemma_contains_byte(c, pos, esc(b), 1);
            assert(c[pos] == BSLASH && c[pos + 1] == b);
            lemma_sp_str_body_of(c, pos + 2, v.skip(1), acc.push(b));
            assert(acc.push(b) + v.skip(1) =~= acc + v);
        } else {
            lemma_contains_byte(c, pos, esc(b), 0);
            assert(c[pos] == b);
            lemma_sp_str_body_of(c, pos + 1, v.skip(1), acc.push(b));
            assert(acc.push(b) + v.skip(1) =~= acc + v);
        }
    }
}

proof fn lemma_sp_string_of(c: Seq<u8>, pos: int, v: Seq<u8>)
    requires
        contains_at(c, pos, quoted(v)),
    ensures
        sp_string(c, pos) == Some((v, pos + quoted(v).len())),
{
    assert(quoted(v) =~= seq![QUOTE] + (esc_str(v) + seq![QUOTE]));
    lemma_contains_split(c, pos, seq![QUOTE], esc_str(v) + seq![QUOTE]);
    lemma_contains_byte(c, pos, seq![QUOTE], 0);
    lemma_sp_str_body_of(c, pos + 1, v, Seq::empty());
    assert(Seq::<u8>::empty() + v =~= v);
}

/// The value of a digit string folded onto an accumulator.
pub open spec fn num_val(d: Seq<u8>, a: nat) -> nat
    decreases d.len(),
{
    if d.len() == 0 {
        a
    } else {
        num_val(d.skip(1), a * 10 + (d[0] - 48) as nat)
    }
}

proof fn lemma_num_val_lower(d: Seq<u8>, a: nat)
    ensures
        num_val(d, a) >= a,
    decreases d.len(),
{
    if d.len() > 0 {
        lemma_num_val_lower(d.skip(1), a * 10 + (d[0] - 48) as nat);
    }
}

proof fn lemma_sp_num_body_of(c: Seq<u8>, pos: int, d: Seq<u8>, a: u64)
    requires
        contains_at(c, pos, d),
        forall|i: int| 0 <= i < d.len() ==> is_digit(#[trigger] d[i]),
        pos + d.len() == c.len() || !is_digit(c[pos + d.len()]),
        num_val(d, a as nat) <= u64::MAX as nat,
    ensures
        sp_num_body(c, pos, a) == Some(((num_val(d, a as nat)) as u64, pos + d.len())),
    decreases d.len(),
{
    if d.len() == 0 {
    } else {
        lemma_contains_byte(c, pos, d, 0);
        assert(c[pos] == d[0] && is_digit(d[0]));
        let a2: nat = a as nat * 10 + (d[0] - 48) as nat;
        lemma_num_val_lower(d.skip(1), a2);
        assert(num_val(d, a as nat) == num_val(d.skip(1), a2));
        assert(a2 <= u64::MAX as nat);
        assert(d =~= seq![d[0]] + d.skip(1));
        lemma_contains_split(c, pos, seq![d[0]], d.skip(1));
        lemma_sp_num_body_of(c, pos + 1, d.skip(1), a2 as u64);
    }
}

proof fn lemma_num_val_of_dec(n: nat)
    ensures
        num_val(dec_digits(n), 0) == n,
    decreases n,
{
    lemma_num_val_gen(n, 0);
}

/// Parsing the canonical digits of `n` onto accumulator `a` yields
/// `a * 10^digits + n`; with `a == 0`, just `n`.
proof fn lemma_num_val_gen(n: nat, a: nat)
    ensures
        num_val(dec_digits(n), a) == a * pow10(dec_digits(n).len()) + n,
    decreases n,
{
    crate::num::lemma_dec_digits_shape(n);
    if n < 10 {
        let d = dec_digits(n);
        assert(d == seq![(48 + n) as u8]);
        assert(d.skip(1) =~= Seq::<u8>::empty());
        assert(d[0] == (48 + n) as u8);
        assert((d[0] - 48) as nat == n);
        assert(num_val(d, a) == num_val(d.skip(1), a * 10 + (d[0] - 48) as nat));
        assert(num_val(d.skip(1), a * 10 + (d[0] - 48) as nat) == a * 10 + n);
        assert(pow10(0) == 1);
        assert(pow10(1) == 10);
    } else {
        let d = dec_digits(n);
        assert(d == dec_digits(n / 10) + seq![(48 + n % 10) as u8]);
        lemma_num_val_append(dec_digits(n / 10), seq![(48 + n % 10) as u8], a);
        lemma_num_val_gen(n / 10, a);
        let k = dec_digits(n / 10).len();
        assert(num_val(d, a) == num_val(
            seq![(48 + n % 10) as u8],
            a * pow10(k) + n / 10,
        ));
        let dd = seq![(48 + n % 10) as u8];
        assert(dd.skip(1) =~= Seq::<u8>::empty());
        assert(dd[0] == (48 + n % 10) as u8);
        assert((dd[0] - 48) as nat == n % 10);
        let a3: nat = a * pow10(k) + n / 10;
        assert(num_val(dd, a3) == num_val(dd.skip(1), a3 * 10 + (dd[0] - 48) as nat));
        assert(num_val(dd.skip(1), a3 * 10 + (dd[0] - 48) as nat) == a3 * 10 + n % 10);
        assert(num_val(seq![(48 + n % 10) as u8], a * pow10(k) + n / 10) == (a * pow10(k) + n
            / 10) * 10 + n % 10);
        assert((a * pow10(k) + n / 10) * 10 + n % 10 == a * (pow10(k) * 10) + ((n / 10) * 10 + n
            % 10)) by (nonlinear_arith);
        assert(pow10(k + 1) == pow10(k) * 10);
        assert(d.len() == k + 1);
    }
}

pub open spec fn pow10(k: nat) -> nat
    decreases k,
{
    if k == 0 {
        1
    } else {
        10 * pow10((k - 1) as nat)
    }
}

proof fn lemma_num_val_append(d1: Seq<u8>, d2: Seq<u8>, a: nat)
    ensures
        num_val(d1 + d2, a) == num_val(d2, num_val(d1, a)),
    decreases d1.len(),
{
    if d1.len() == 0 {
        assert(d1 + d2 =~= d2);
    } else {
        assert((d1 + d2).skip(1) =~= d1.skip(1) + d2);
        lemma_num_val_append(d1.skip(1), d2, a * 10 + (d1[0] - 48) as nat);
    }
}

proof fn lemma_pow10_pos(k: nat)
    ensures
        pow10(k) >= 1,
    decreases k,
{
    if k > 0 {
        lemma_pow10_pos((k - 1) as nat);
    }
}

proof fn lemma_sp_number_of(c: Seq<u8>, pos: int, n: u64)
    requires
        contains_at(c, pos, dec_digits(n as nat)),
        pos + dec_digits(n as nat).len() == c.len() || !is_digit(
            c[pos + dec_digits(n as nat).len()],
        ),
    ensures
        sp_number(c, pos) == Some((n, pos + dec_digits(n as nat).len())),
{
    crate::num::lemma_dec_digits_shape(n as nat);
    lemma_contains_byte(c, pos, dec_digits(n as nat), 0);
    assert(is_digit(c[pos]));
    lemma_num_val_of_dec(n as nat);
    lemma_sp_num_body_of(c, pos, dec_digits(n as nat), 0);
}

proof fn lemma_sp_str_items_of(c: Seq<u8>, pos: int, rest: Seq<Seq<u8>>, acc: Seq<Seq<u8>>)
    requires
        rest.len() >= 1,
        contains_at(c, pos, quoted(rest[0]) + enc_str_rest(rest.skip(1)) + seq![RBRACKET]),
    ensures
        sp_str_items(c, pos, acc) == Some(
            (acc + rest, pos + quoted(rest[0]).len() + enc_str_rest(rest.skip(1)).len() + 1),
        ),
    decreases rest.len(),
{
    assert(quoted(rest[0]) + enc_str_rest(rest.skip(1)) + seq![RBRACKET] =~= quoted(rest[0]) + (
    enc_str_rest(rest.skip(1)) + seq![RBRACKET]));
    lemma_contains_split(c, pos, quoted(rest[0]), enc_str_rest(rest.skip(1)) + seq![RBRACKET]);
    lemma_sp_string_of(c, pos, rest[0]);
    let p = pos + quoted(rest[0]).len();
    if rest.len() == 1 {
        assert(enc_str_rest(rest.skip(1)) == Seq::<u8>::empty());
        assert(enc_str_rest(rest.skip(1)) + seq![RBRACKET] =~= seq![RBRACKET]);
        lemma_contains_byte(c, p, seq![RBRACKET], 0);
        assert(c[p] == RBRACKET);
        assert(acc.push(rest[0]) =~= acc + rest);
    } else {
        let r1 = rest.skip(1);
        assert(enc_str_rest(r1) == seq![COMMA] + quoted(r1[0]) + enc_str_rest(r1.skip(1)));
        assert(enc_str_rest(r1) + seq![RBRACKET] =~= seq![COMMA] + (quoted(r1[0]) + enc_str_rest(
            r1.skip(1),
        ) + seq![RBRACKET]));
        lemma_contains_split(
            c,
            p,
            seq![COMMA],
            quoted(r1[0]) + enc_str_rest(r1.skip(1)) + seq![RBRACKET],
        );
        lemma_contains_byte(c, p, seq![COMMA], 0);
        assert(c[p] == COMMA);
        lemma_sp_str_items_of(c, p + 1, r1, acc.push(rest[0]));
        assert(acc.push(rest[0]) + r1 =~= acc + rest);
    }
}

proof fn lemma_sp_str_arr_of(c: Seq<u8>, pos: int, l: Seq<Seq<u8>>)
    requires
        contains_at(c, pos, enc_str_arr(l)),
    ensures
        sp_str_arr(c, pos) == Some((l, pos + enc_str_arr(l).len())),
{
    if l.len() == 0 {
        lemma_contains_byte(c, pos, enc_str_arr(l), 0);
        lemma_contains_byte(c, pos, enc_str_arr(l), 1);
        assert(c[pos] == LBRACKET && c[pos + 1] == RBRACKET);
        assert(Seq::<Seq<u8>>::empty() =~= l);
    } else {
        assert(enc_str_arr(l) =~= seq![LBRACKET] + (quoted(l[0]) + enc_str_rest(l.skip(1))
            + seq![RBRACKET]));
        lemma_contains_split(
            c,
            pos,
            seq![LBRACKET],
            quoted(l[0]) + enc_str_rest(l.skip(1)) + seq![RBRACKET],
        );
        lemma_contains_byte(c, pos, seq![LBRACKET], 0);
        assert(c[pos] == LBRACKET);
        lemma_contains_byte(
            c,
            pos + 1,
            quoted(l[0]) + enc_str_rest(l.skip(1)) + seq![RBRACKET],
            0,
        );
        assert(c[pos + 1] == QUOTE);
        lemma_sp_str_items_of(c, pos + 1, l, Seq::empty());
        assert(Seq::<Seq<u8>>::empty() + l =~= l);
    }
}

proof fn lemma_sp_num_items_of(c: Seq<u8>, pos: int, rest: Seq<u8>, acc: Seq<u8>)
    requires
        rest.len() >= 1,
        contains_at(
            c,
            pos,
            dec_digits(rest[0] as nat) + enc_num_rest(rest.skip(1)) + seq![RBRACKET],
        ),
    ensures
        sp_num_items(c, pos, acc) == Some(
            (
                acc + rest,
                pos + dec_digits(rest[0] as nat).len() + enc_num_rest(rest.skip(1)).len() + 1,
            ),
        ),
    decreases rest.len(),
{
    assert(dec_digits(rest[0] as nat) + enc_num_rest(rest.skip(1)) + seq![RBRACKET] =~= dec_digits(
        rest[0] as nat,
    ) + (enc_num_rest(rest.skip(1)) + seq![RBRACKET]));
    lemma_contains_split(
        c,
        pos,
        dec_digits(rest[0] as nat),
        enc_num_rest(rest.skip(1)) + seq![RBRACKET],
    );
    let p = pos + dec_digits(rest[0] as nat).len();
    if rest.len() == 1 {
        assert(enc_num_rest(rest.skip(1)) == Seq::<u8>::empty());
        assert(enc_num_rest(rest.skip(1)) + seq![RBRACKET] =~= seq![RBRACKET]);
        lemma_contains_byte(c, p, seq![RBRACKET], 0);
        assert(c[p] == RBRACKET);
        assert(!is_digit(c[p]));
        lemma_sp_number_of(c, pos, rest[0] as u64);
        assert(acc.push(rest[0]) =~= acc + rest);
    } else {
        let r1 = rest.skip(1);
        assert(enc_num_rest(r1) == seq![COMMA] + dec_digits(r1[0] as nat) + enc_num_rest(
            r1.skip(1),
        ));
        assert(enc_num_rest(r1) + seq![RBRACKET] =~= seq![COMMA] + (dec_digits(r1[0] as nat)
            + enc_num_rest(r1.skip(1)) + seq![RBRACKET]));
        lemma_contains_split(
            c,
            p,
            seq![COMMA],
            dec_digits(r1[0] as nat) + enc_num_rest(r1.skip(1)) + seq![RBRACKET],
        );
        lemma_contains_byte(c, p, seq![COMMA], 0);
        assert(c[p] == COMMA);
        assert(!is_digit(c[p]));
        lemma_sp_number_of(c, pos, rest[0] as u64);
        lemma_sp_num_items_of(c, p + 1, r1, acc.push(rest[0]));
        assert(acc.push(rest[0]) + r1 =~= acc + rest);
    }
}

proof fn lemma_sp_num_arr_of(c: Seq<u8>, pos: int, l: Seq<u8>)
    requires
        contains_at(c, pos, enc_num_arr(l)),
    ensures
        sp_num_arr(c, pos) == Some((l, pos + enc_num_arr(l).len())),
{
    if l.len() == 0 {
        lemma_contains_byte(c, pos, enc_num_arr(l), 0);
        lemma_contains_byte(c, pos, enc_num_arr(l), 1);
        assert(c[pos] == LBRACKET && c[pos + 1] == RBRACKET);
        assert(Seq::<u8>::empty() =~= l);
    } else {
        assert(enc_num_arr(l) =~= seq![LBRACKET] + (dec_digits(l[0] as nat) + enc_num_rest(
            l.skip(1),
        ) + seq![RBRACKET]));
        lemma_contains_split(
            c,
            pos,
            seq![LBRACKET],
            dec_digits(l[0] as nat) + enc_num_rest(l.skip(1)) + seq![RBRACKET],
        );
        lemma_contains_byte(c, pos, seq![LBRACKET], 0);
        assert(c[pos] == LBRACKET);
        crate::num::lemma_dec_digits_shape(l[0] as nat);
        lemma_contains_byte(
            c,
            pos + 1,
            dec_digits(l[0] as nat) + enc_num_rest(l.skip(1)) + seq![RBRACKET],
            0,
        );
        assert(c[pos + 1] == dec_digits(l[0] as nat)[0]);
        assert(c[pos + 1] != RBRACKET);
        lemma_sp_num_items_of(c, pos + 1, l, Seq::empty());
        assert(Seq::<u8>::empty() + l =~= l);
    }
}

/// Escaping changes nothing in a string free of quotes and backslashes.
proof fn lemma_esc_str_plain(s: Seq<u8>)
    requires
        forall|i: int| 0 <= i < s.len() ==> s[i] != QUOTE && s[i] != BSLASH,
    ensures
        esc_str(s) == s,
    decreases s.len(),
{
    if s.len() == 0 {
        assert(esc_str(s) =~= s);
    } else {
        lemma_esc_str_plain(s.skip(1));
        assert(esc(s[0]) == seq![s[0]]);
        assert(esc_str(s) =~= s);
    }
}

proof fn lemma_keys_plain()
    ensures
        esc_str(key_stored()) == key_stored(),
        esc_str(key_missing()) == key_missing(),
        esc_str(key_lsn()) == key_lsn(),
        esc_str(key_meta()) == key_meta(),
{
    assert forall|i: int| 0 <= i < key_stored().len() implies key_stored()[i] != QUOTE
        && key_stored()[i] != BSLASH by {}
    lemma_esc_str_plain(key_stored());
    assert forall|i: int| 0 <= i < key_missing().len() implies key_missing()[i] != QUOTE
        && key_missing()[i] != BSLASH by {}
    lemma_esc_str_plain(key_missing());
    assert forall|i: int| 0 <= i < key_lsn().len() implies key_lsn()[i] != QUOTE && key_lsn()[i]
        != BSLASH by {}
    lemma_esc_str_plain(key_lsn());
    assert forall|i: int| 0 <= i < key_meta().len() implies key_meta()[i] != QUOTE && key_meta()[i]
        != BSLASH by {}
    lemma_esc_str_plain(key_meta());
}

/// Law: the codec round-trips. Decoding the canonical encoding of any four
/// manifest fields returns exactly those fields.
/// One parsed field whose key is `stored_files`, followed by a comma,
/// continues the field parser with the slot filled.
proof fn lemma_field_step_stored(
    c: Seq<u8>,
    pos: int,
    pk: int,
    l: Seq<Seq<u8>>,
    p2: int,
    mi0: Option<Seq<Seq<u8>>>,
    ls0: Option<u64>,
    me0: Option<Seq<u8>>,
)
    requires
        sp_string(c, pos) == Some((key_stored(), pk)),
        0 <= pos < p2,
        pk < c.len(),
        c[pk] == COLON,
        sp_str_arr(c, pk + 1) == Some((l, p2)),
        p2 < c.len(),
        c[p2] == COMMA,
    ensures
        sp_fields(c, pos, None, mi0, ls0, me0) == sp_fields(c, p2 + 1, Some(l), mi0, ls0, me0),
{
}

proof fn lemma_field_step_missing(
    c: Seq<u8>,
    pos: int,
    pk: int,
    st0: Option<Seq<Seq<u8>>>,
    l: Seq<Seq<u8>>,
    p2: int,
    ls0: Option<u64>,
    me0: Option<Seq<u8>>,
)
    requires
        sp_string(c, pos) == Some((key_missing(), pk)),
        0 <= pos < p2,
        pk < c.len(),
        c[pk] == COLON,
        sp_str_arr(c, pk + 1) == Some((l, p2)),
        p2 < c.len(),
        c[p2] == COMMA,
    ensures
        sp_fields(c, pos, st0, None, ls0, me0) == sp_fields(c, p2 + 1, st0, Some(l), ls0, me0),
{
    assert(key_missing() != key_stored());
}

proof fn lemma_field_step_lsn(
    c: Seq<u8>,
    pos: int,
    pk: int,
    st0: Option<Seq<Seq<u8>>>,
    mi0: Option<Seq<Seq<u8>>>,
    n: u64,
    p2: int,
    me0: Option<Seq<u8>>,
)
    requires
        sp_string(c, pos) == Some((key_lsn(), pk)),
        0 <= pos < p2,
        pk < c.len(),
        c[pk] == COLON,
        sp_number(c, pk + 1) == Some((n, p2)),
        p2 < c.len(),
        c[p2] == COMMA,
    ensures
        sp_fields(c, pos, st0, mi0, None, me0) == sp_fields(c, p2 + 1, st0, mi0, Some(n), me0),
{
    assert(key_lsn() != key_stored());
    assert(key_lsn() != key_missing());
}

/// The final field, `metadata_bytes`, followed by the closing brace, ends
/// the object with all four fields present.
proof fn lemma_field_step_meta_last(
    c: Seq<u8>,
    pos: int,
    pk: int,
    st: Seq<Seq<u8>>,
    mi: Seq<Seq<u8>>,
    n: u64,
    l: Seq<u8>,
    p2: int,
)
    requires
        sp_string(c, pos) == Some((key_meta(), pk)),
        0 <= pos < p2,
        pk < c.len(),
        c[pk] == COLON,
        sp_num_arr(c, pk + 1) == Some((l, p2)),
        p2 < c.len(),
        c[p2] == RBRACE,
    ensures
        sp_fields(c, pos, Some(st), Some(mi), Some(n), None) == Some(((st, mi, n, l), p2 + 1)),
{
    assert(key_meta() != key_stored());
    assert(key_meta() != key_missing());
    assert(key_meta() != key_lsn());
}

/// Law: the codec round-trips. Decoding the canonical encoding of any four
/// manifest fields returns exactly those fields.
#[verifier::rlimit(100)]
#[verifier::spinoff_prover]
pub proof fn lemma_decode_encode(
    stored: Seq<Seq<u8>>,
    missing: Seq<Seq<u8>>,
    lsn: u64,
    meta: Seq<u8>,
)
    ensures
        spec_decode(spec_encode(stored, missing, lsn, meta)) == Some(
            (stored, missing, lsn, meta),
        ),
{
    lemma_keys_plain();
    let c = spec_encode(stored, missing, lsn, meta);
    let w1 = quoted(key_stored());
    let a1 = enc_str_arr(stored);
    let w2 = quoted(key_missing());
    let a2 = enc_str_arr(missing);
    let w3 = quoted(key_lsn());
    let nn = dec_digits(lsn as nat);
    let w4 = quoted(key_meta());
    let a4 = enc_num_arr(meta);
    let r15 = a4 + seq![RBRACE];
    let r14 = seq![COLON] + r15;
    let r13 = w4 + r14;
    let r12 = seq![COMMA] + r13;
    let r11 = nn + r12;
    let r10 = seq![COLON] + r11;
    let r9 = w3 + r10;
    let r8 = seq![COMMA] + r9;
    let r7 = a2 + r8;
    let r6 = seq![COLON] + r7;
    let r5 = w2 + r6;
    let r4 = seq![COMMA] + r5;
    let r3 = a1 + r4;
    let r2 = seq![COLON] + r3;
    let r1 = w1 + r2;
    assert(c == seq![LBRACE] + r1);
    assert(contains_at(c, 0, seq![LBRACE] + r1)) by {
        assert(c.subrange(0, c.len() as int) =~= c);
    }
    lemma_contains_split(c, 0, seq![LBRACE], r1);
    lemma_contains_byte(c, 0, seq![LBRACE], 0);
    let p1 = 1;
    lemma_contains_split(c, p1, w1, r2);
    lemma_sp_string_of(c, p1, key_stored());
    let q1 = p1 + w1.len();
    lemma_contains_split(c, q1, seq![COLON], r3);
    lemma_contains_byte(c, q1, seq![COLON], 0);
    lemma_contains_split(c, q1 + 1, a1, r4);
    lemma_sp_str_arr_of(c, q1 + 1, stored);
    let e1 = q1 + 1 + a1.len();
    lemma_contains_split(c, e1, seq![COMMA], r5);
    lemma_contains_byte(c, e1, seq![COMMA], 0);
    let p2 = e1 + 1;
    lemma_contains_split(c, p2, w2, r6);
    lemma_sp_string_of(c, p2, key_missing());
    let q2 = p2 + w2.len();
    lemma_contains_split(c, q2, seq![COLON], r7);
    lemma_contains_byte(c, q2, seq![COLON], 0);
    lemma_contains_split(c, q2 + 1, a2, r8);
    lemma_sp_str_arr_of(c, q2 + 1, missing);
    let e2 = q2 + 1 + a2.len();
    lemma_contains_split(c, e2, seq![COMMA], r9);
    lemma_contains_byte(c, e2, seq![COMMA], 0);
    let p3 = e2 + 1;
    lemma_contains_split(c, p3, w3, r10);
    lemma_sp_string_of(c, p3, key_lsn());
    let q3 = p3 + w3.len();
    lemma_contains_split(c, q3, seq![COLON], r11);
    lemma_contains_byte(c, q3, seq![COLON], 0);
    lemma_contains_split(c, q3 + 1, nn, r12);
    lemma_contains_byte(c, q3 + 1 + nn.len(), r12, 0);
    assert(c[q3 + 1 + nn.len()] == COMMA);
    assert(!is_digit(COMMA));
    lemma_sp_number_of(c, q3 + 1, lsn);
    let e3 = q3 + 1 + nn.len();
    lemma_contains_split(c, e3, seq![COMMA], r13);
    let p4 = e3 + 1;
    lemma_contains_split(c, p4, w4, r14);
    lemma_sp_string_of(c, p4, key_meta());
    let q4 = p4 + w4.len();
    lemma_contains_split(c, q4, seq![COLON], r15);
    lemma_contains_byte(c, q4, seq![COLON], 0);
    lemma_contains_split(c, q4 + 1, a4, seq![RBRACE]);
    lemma_sp_num_arr_of(c, q4 + 1, meta);
    let e4 = q4 + 1 + a4.len();
    lemma_contains_byte(c, e4, seq![RBRACE], 0);
    assert(c[e4] == RBRACE);
    assert(e4 + 1 == c.len());
    lemma_field_step_stored(c, p1, q1, stored, e1, None, None, None);
    lemma_field_step_missing(c, p2, q2, Some(stored), missing, e2, None, None);
    lemma_field_step_lsn(c, p3, q3, Some(stored), Some(missing), lsn, e3, None);
    lemma_field_step_meta_last(c, p4, q4, stored, missing, lsn, meta, e4);
    assert(sp_fields(c, p1, None, None, None, None) == Some(
        ((stored, missing, lsn, meta), e4 + 1),
    ));
    assert(spec_decode(c) == Some((stored, missing, lsn, meta)));
}

/// Law: the codec round-trips at the manifest level. The canonical
/// encoding of any well-formed manifest decodes back to a manifest with
/// exactly the same stored files, missing files, consistent LSN and
/// metadata bytes.
pub proof fn lemma_index_part_round_trip(p: IndexPart)
    ensures
        spec_decode(spec_encode_part(p)) == Some(
            (
                rel_views(p.stored_files@),
                rel_views(p.missing_files@),
                p.disk_consistent_lsn.0,
                p.metadata_bytes@,
            ),
        ),
{
    lemma_decode_encode(
        rel_views(p.stored_files@),
        rel_views(p.missing_files@),
        p.disk_consistent_lsn.0,
        p.metadata_bytes@,
    );
}

} // verus!
