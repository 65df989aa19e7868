//! Text decoder: length-prefixed, single-byte legacy-encoded strings.
//!
//! A text field is a 16- or 32-bit length followed by that many bytes.  The
//! bytes are truncated at the first NUL, normalized (CR+LF pairs become one
//! space, runs of spaces collapse to one, remaining control characters are
//! dropped, outer spaces are trimmed) and then decoded as the single-byte
//! Western legacy encoding in which each byte is the Unicode code point of the
//! same value.  A declared length above [`MAX_TEXT_LEN`] marks a corrupted or
//! hostile file and is rejected before any payload byte is read.

use vstd::prelude::*;

use encoding_rs::mem::decode_latin1;

use crate::error::{DecodeError, DecodeErrorKind};
use crate::reader::{le16_at, le32_at, read_u16, read_u32, take_bytes, SpecOut, spec_missing};

verus! {

/// Safety ceiling for declared text and blob lengths: anything larger signals
/// a corrupted or hostile file, not a legitimate label.
pub const MAX_TEXT_LEN: u32 = 0xFFFF;

/// The prefix of `s` before its first NUL byte (all of `s` if none).
pub open spec fn till_nul(s: Seq<u8>) -> Seq<u8>
    decreases s.len(),
{
    if s.len() == 0 {
        Seq::empty()
    } else if s[0] == 0u8 {
        Seq::empty()
    } else {
        seq![s[0]] + till_nul(s.skip(1))
    }
}

/// Control characters of the legacy encoding: the C0 range, DEL and the C1
/// range.
pub open spec fn is_control_byte(b: u8) -> bool {
    b < 0x20 || (0x7F <= b && b <= 0x9F)
}

/// `s` with every CR+LF pair replaced by a single space (leftmost first,
/// non-overlapping).
pub open spec fn replace_crlf(s: Seq<u8>) -> Seq<u8>
    decreases s.len(),
{
    if s.len() == 0 {
        Seq::empty()
    } else if s.len() >= 2 && s[0] == 0x0Du8 && s[1] == 0x0Au8 {
        seq![0x20u8] + replace_crlf(s.skip(2))
    } else {
        seq![s[0]] + replace_crlf(s.skip(1))
    }
}

/// Space collapsing before any non-space byte has been emitted: leading
/// spaces are dropped.
pub open spec fn collapse_leading(s: Seq<u8>) -> Seq<u8>
    decreases s.len(),
{
    if s.len() == 0 {
        Seq::empty()
    } else if s[0] == 0x20u8 {
        collapse_leading(s.skip(1))
    } else {
        seq![s[0]] + collapse_inside(s.skip(1))
    }
}

/// Space collapsing directly behind an emitted non-space byte.
pub open spec fn collapse_inside(s: Seq<u8>) -> Seq<u8>
    decreases s.len(),
{
    if s.len() == 0 {
        Seq::empty()
    } else if s[0] == 0x20u8 {
        collapse_after_gap(s.skip(1))
    } else {
        seq![s[0]] + collapse_inside(s.skip(1))
    }
}

/// Space collapsing behind an emitted byte and at least one space: a single
/// space is re-emitted only if another non-space byte follows.
pub open spec fn collapse_after_gap(s: Seq<u8>) -> Seq<u8>
    decreases s.len(),
{
    if s.len() == 0 {
        Seq::empty()
    } else if s[0] == 0x20u8 {
        collapse_after_gap(s.skip(1))
    } else {
        seq![0x20u8, s[0]] + collapse_inside(s.skip(1))
    }
}

/// `s` without its control bytes.
pub open spec fn strip_controls(s: Seq<u8>) -> Seq<u8>
    decreases s.len(),
{
    if s.len() == 0 {
        Seq::empty()
    } else if is_control_byte(s[0]) {
        strip_controls(s.skip(1))
    } else {
        seq![s[0]] + strip_controls(s.skip(1))
    }
}

/// The whole normalization pipeline on raw text bytes.
pub open spec fn normalized_bytes(s: Seq<u8>) -> Seq<u8> {
    strip_controls(collapse_leading(replace_crlf(s)))
}

/// The legacy single-byte decoding: each byte becomes the Unicode code point
/// of the same value.
pub open spec fn latin1_seq(s: Seq<u8>) -> Seq<char> {
    Seq::new(s.len(), |i: int| s[i] as char)
}

/// What a raw text field decodes to: NUL truncation, normalization, then the
/// legacy byte-to-code-point decoding.
pub open spec fn decoded_text(s: Seq<u8>) -> Seq<char> {
    latin1_seq(normalized_bytes(till_nul(s)))
}

/// Relies on `encoding_rs::mem::decode_latin1`: converts bytes whose unsigned
/// value is interpreted as a Unicode code point (U+0000 to U+00FF) to a
/// string, one character per byte.
#[verifier::external_body]
pub(crate) fn decode_latin1_raw(bytes: &[u8]) -> (r: String)
    ensures
        r@ == latin1_seq(bytes@),
{
    decode_latin1(bytes).into_owned()
}

/// Cut `v` at its first NUL byte.
pub(crate) fn cut_nul_bytes(v: &Vec<u8>) -> (r: Vec<u8>)
    ensures
        r@ == till_nul(v@),
{
    let mut out: Vec<u8> = Vec::new();
    let mut i: usize = 0;
    proof {
        assert(v@.skip(0) =~= v@);
        assert(out@ + till_nul(v@) =~= till_nul(v@));
    }
    while i < v.len()
        invariant
            i <= v@.len(),
            till_nul(v@) == out@ + till_nul(v@.skip(i as int)),
            forall|k: int| 0 <= k < i ==> v@[k] != 0u8,
        decreases v@.len() - i,
    {
        if v[i] == 0u8 {
            proof {
                assert(till_nul(v@.skip(i as int)) =~= Seq::<u8>::empty());
                assert(till_nul(v@) =~= out@);
            }
            return out;
        }
        out.push(v[i]);
        i = i + 1;
        proof {
            assert(v@.skip(i - 1).skip(1) =~= v@.skip(i as int));
            assert(till_nul(v@) =~= out@ + till_nul(v@.skip(i as int)));
        }
    }
    proof {
        assert(v@.skip(i as int) =~= Seq::<u8>::empty());
        assert(till_nul(v@) =~= out@);
    }
    out
}

/// Replace each CR+LF pair with a single space.
fn replace_crlf_bytes(v: &Vec<u8>) -> (r: Vec<u8>)
    ensures
        r@ == replace_crlf(v@),
{
    let mut out: Vec<u8> = Vec::new();
    let mut i: usize = 0;
    proof {
        assert(v@.skip(0) =~= v@);
        assert(out@ + replace_crlf(v@) =~= replace_crlf(v@));
    }
    while i < v.len()
        invariant
            i <= v@.len(),
            replace_crlf(v@) == out@ + replace_crlf(v@.skip(i as int)),
        decreases v@.len() - i,
    {
        if v[i] == 0x0Du8 && i + 1 < v.len() && v[i + 1] == 0x0Au8 {
            out.push(0x20u8);
            i = i + 2;
            proof {
                assert(v@.skip(i - 2).skip(2) =~= v@.skip(i as int));
                assert(replace_crlf(v@) =~= out@ + replace_crlf(v@.skip(i as int)));
            }
        } else {
            out.push(v[i]);
            i = i + 1;
            proof {
                assert(v@.skip(i - 1).skip(1) =~= v@.skip(i as int));
                assert(replace_crlf(v@) =~= out@ + replace_crlf(v@.skip(i as int)));
            }
        }
    }
    proof {
        assert(v@.skip(i as int) =~= Seq::<u8>::empty());
        assert(replace_crlf(v@) =~= out@);
    }
    out
}

/// Collapse runs of spaces to a single space and trim outer spaces.
fn collapse_spaces(v: &Vec<u8>) -> (r: Vec<u8>)
    ensures
        r@ == collapse_leading(v@),
{
    let mut out: Vec<u8> = Vec::new();
    let mut started: bool = false;
    let mut gap: bool = false;
    let mut i: usize = 0;
    proof {
        assert(v@.skip(0) =~= v@);
        assert(out@ + collapse_leading(v@) =~= collapse_leading(v@));
    }
    while i < v.len()
        invariant
            i <= v@.len(),
            collapse_leading(v@) == out@ + if !started {
                collapse_leading(v@.skip(i as int))
            } else if gap {
                collapse_after_gap(v@.skip(i as int))
            } else {
                collapse_inside(v@.skip(i as int))
            },
        decreases v@.len() - i,
    {
        let b = v[i];
        if b == 0x20u8 {
            if started {
                gap = true;
            }
        } else {
            if started && gap {
                out.push(0x20u8);
            }
            out.push(b);
            started = true;
            gap = false;
        }
        i = i + 1;
        proof {
            assert(v@.skip(i - 1).skip(1) =~= v@.skip(i as int));
            if !started {
                assert(collapse_leading(v@) =~= out@ + collapse_leading(v@.skip(i as int)));
            } else if gap {
                assert(collapse_leading(v@) =~= out@ + collapse_after_gap(v@.skip(i as int)));
            } else {
                assert(collapse_leading(v@) =~= out@ + collapse_inside(v@.skip(i as int)));
            }
        }
    }
    proof {
        assert(v@.skip(i as int) =~= Seq::<u8>::empty());
        assert(collapse_leading(v@) =~= out@);
    }
    out
}

/// Drop the remaining control bytes.
fn strip_control_bytes(v: &Vec<u8>) -> (r: Vec<u8>)
    ensures
        r@ == strip_controls(v@),
{
    let mut out: Vec<u8> = Vec::new();
    let mut i: usize = 0;
    proof {
        assert(v@.skip(0) =~= v@);
        assert(out@ + strip_controls(v@) =~= strip_controls(v@));
    }
    while i < v.len()
        invariant
            i <= v@.len(),
            strip_controls(v@) == out@ + strip_controls(v@.skip(i as int)),
        decreases v@.len() - i,
    {
        let b = v[i];
        if !(b < 0x20u8 || (0x7Fu8 <= b && b <= 0x9Fu8)) {
            out.push(b);
        }
        i = i + 1;
        proof {
            assert(v@.skip(i - 1).skip(1) =~= v@.skip(i as int));
            assert(strip_controls(v@) =~= out@ + strip_controls(v@.skip(i as int)));
        }
    }
    proof {
        assert(v@.skip(i as int) =~= Seq::<u8>::empty());
        assert(strip_controls(v@) =~= out@);
    }
    out
}

/// Truncate, normalize and decode one raw text field.
fn decode_text_field(raw: &Vec<u8>) -> (r: String)
    ensures
        r@ == decoded_text(raw@),
{
    let cut = cut_nul_bytes(raw);
    let replaced = replace_crlf_bytes(&cut);
    let collapsed = collapse_spaces(&replaced);
    let stripped = strip_control_bytes(&collapsed);
    decode_latin1_raw(stripped.as_slice())
}

/// What reading a 16-bit-length text field at `pos` yields.
pub open spec fn text16_spec(s: Seq<u8>, pos: int, field: Seq<char>) -> SpecOut<(Seq<char>, int)> {
    if pos + 2 > s.len() {
        spec_missing(field)
    } else {
        let n = le16_at(s, pos) as int;
        if pos + 2 + n > s.len() {
            spec_missing(field)
        } else {
            SpecOut::Val((decoded_text(s.subrange(pos + 2, pos + 2 + n)), pos + 2 + n))
        }
    }
}

/// What reading a 32-bit-length text field at `pos` yields; a declared length
/// above the ceiling is rejected before any payload byte is read.
pub open spec fn text32_spec(s: Seq<u8>, pos: int, field: Seq<char>) -> SpecOut<(Seq<char>, int)> {
    if pos + 4 > s.len() {
        spec_missing(field)
    } else {
        let n = le32_at(s, pos) as int;
        if n > MAX_TEXT_LEN {
            SpecOut::Fail { kind: DecodeErrorKind::FieldTooLarge, field: field }
        } else if pos + 4 + n > s.len() {
            spec_missing(field)
        } else {
            SpecOut::Val((decoded_text(s.subrange(pos + 4, pos + 4 + n)), pos + 4 + n))
        }
    }
}

/// Read a text field whose length is a 16-bit field.
pub fn read_text16(buf: &[u8], pos: usize, field: &'static str) -> (r: Result<
    (String, usize),
    DecodeError,
>)
    ensures
        (match text16_spec(buf@, pos as int, field@) {
            SpecOut::Val(v) => r matches Ok(o) && o.0@ == v.0 && o.1 == v.1,
            SpecOut::Fail { kind, field: f } => r matches Err(e) && e.kind == kind && e.field@ == f
                && e.version == 0,
        }),
{
    let (len, p) = read_u16(buf, pos, field)?;
    let (raw, p) = take_bytes(buf, p, len as usize, field)?;
    Ok((decode_text_field(&raw), p))
}

/// Read a text field whose length is a 32-bit field, enforcing the ceiling.
pub fn read_text32(buf: &[u8], pos: usize, field: &'static str) -> (r: Result<
    (String, usize),
    DecodeError,
>)
    ensures
        (match text32_spec(buf@, pos as int, field@) {
            SpecOut::Val(v) => r matches Ok(o) && o.0@ == v.0 && o.1 == v.1,
            SpecOut::Fail { kind, field: f } => r matches Err(e) && e.kind == kind && e.field@ == f
                && e.version == 0,
        }),
{
    let (len, p) = read_u32(buf, pos, field)?;
    if len > MAX_TEXT_LEN {
        return Err(DecodeError {
            kind: DecodeErrorKind::FieldTooLarge,
            field: String::from_str(field),
            version: 0,
        });
    }
    let (raw, p) = take_bytes(buf, p, len as usize, field)?;
    Ok((decode_text_field(&raw), p))
}



/// Law: a 32-bit length field above the safety ceiling is rejected as too
/// large before any payload byte is read — the outcome is the same whether
/// or not the declared bytes are present.
pub proof fn lemma_oversized_length_rejected(s: Seq<u8>, pos: int, field: Seq<char>)
    requires
        0 <= pos,
        pos + 4 <= s.len(),
        le32_at(s, pos) > MAX_TEXT_LEN,
    ensures
        text32_spec(s, pos, field) == (SpecOut::Fail::<(Seq<char>, int)> {
            kind: DecodeErrorKind::FieldTooLarge,
            field: field,
        }),
{
}

//////////////////////////////////////////////////////////////////////
//            normal form
//////////////////////////////////////////////////////////////////////

/// No byte of `s` is a control character (this covers CR, LF and NUL).
pub open spec fn no_control_bytes(s: Seq<u8>) -> bool {
    forall|i: int| 0 <= i < s.len() ==> !is_control_byte(s[i])
}

/// No two adjacent bytes of `s` are both spaces.
pub open spec fn no_double_space(s: Seq<u8>) -> bool {
    forall|i: int| 0 <= i && i + 1 < s.len() ==> !(#[trigger] s[i] == 0x20u8 && s[i + 1] == 0x20u8)
}

/// `s` without its leading and trailing spaces.
pub open spec fn trim_spaces(s: Seq<u8>) -> Seq<u8>
    decreases s.len(),
{
    if s.len() == 0 {
        Seq::empty()
    } else if s[0] == 0x20u8 {
        trim_spaces(s.skip(1))
    } else if s[s.len() - 1] == 0x20u8 {
        trim_spaces(s.take(s.len() - 1))
    } else {
        s
    }
}

/// `s` without a single trailing space, if it has one.
pub open spec fn drop_trailing_space(s: Seq<u8>) -> Seq<u8> {
    if s.len() > 0 && s[s.len() - 1] == 0x20u8 {
        s.take(s.len() - 1)
    } else {
        s
    }
}

proof fn lemma_till_nul_identity(s: Seq<u8>)
    requires
        no_control_bytes(s),
    ensures
        till_nul(s) == s,
    decreases s.len(),
{
    if s.len() > 0 {
        assert(!is_control_byte(s[0]));
        lemma_till_nul_identity(s.skip(1));
        assert(seq![s[0]] + s.skip(1) =~= s);
    }
}

proof fn lemma_replace_crlf_identity(s: Seq<u8>)
    requires
        no_control_bytes(s),
    ensures
        replace_crlf(s) == s,
    decreases s.len(),
{
    if s.len() > 0 {
        assert(!is_control_byte(s[0]));
        lemma_replace_crlf_identity(s.skip(1));
        assert(seq![s[0]] + s.skip(1) =~= s);
    }
}

proof fn lemma_strip_controls_identity(s: Seq<u8>)
    requires
        no_control_bytes(s),
    ensures
        strip_controls(s) == s,
    decreases s.len(),
{
    if s.len() > 0 {
        assert(!is_control_byte(s[0]));
        lemma_strip_controls_identity(s.skip(1));
        assert(seq![s[0]] + s.skip(1) =~= s);
    }
}

proof fn lemma_collapse_inside_nodouble(s: Seq<u8>)
    requires
        no_double_space(s),
    ensures
        collapse_inside(s) == drop_trailing_space(s),
    decreases s.len(),
{
    if s.len() == 0 {
    } else if s[0] == 0x20u8 {
        let t = s.skip(1);
        assert(no_double_space(t));
        if t.len() == 0 {
            assert(collapse_inside(s) == collapse_after_gap(t));
            assert(drop_trailing_space(s) =~= Seq::<u8>::empty());
        } else {
            assert(t[0] == s[1]);
            assert(t[0] != 0x20u8);
            lemma_collapse_inside_nodouble(t);
            assert(collapse_after_gap(t) == seq![0x20u8, t[0]] + collapse_inside(t.skip(1)));
            assert(collapse_inside(t) == seq![t[0]] + collapse_inside(t.skip(1)));
            assert(collapse_after_gap(t) =~= seq![0x20u8] + collapse_inside(t));
            assert(drop_trailing_space(s) =~= seq![0x20u8] + drop_trailing_space(t));
        }
    } else {
        let t = s.skip(1);
        assert(no_double_space(t));
        lemma_collapse_inside_nodouble(t);
        if t.len() == 0 {
            assert(collapse_inside(s) =~= seq![s[0]]);
            assert(drop_trailing_space(s) =~= seq![s[0]]);
        } else {
            assert(collapse_inside(s) == seq![s[0]] + collapse_inside(t));
            assert(drop_trailing_space(s) =~= seq![s[0]] + drop_trailing_space(t));
        }
    }
}

proof fn lemma_trim_nonspace_head(s: Seq<u8>)
    requires
        no_double_space(s),
        s.len() > 0,
        s[0] != 0x20u8,
    ensures
        trim_spaces(s) == drop_trailing_space(s),
    decreases s.len(),
{
    if s[s.len() - 1] == 0x20u8 {
        let t = s.take(s.len() - 1);
        assert(trim_spaces(s) == trim_spaces(t));
        assert(t.len() == s.len() - 1);
        if t.len() == 0 {
        } else {
            assert(t[0] == s[0]);
            assert(t[t.len() - 1] == s[s.len() - 2]);
            assert(t[t.len() - 1] != 0x20u8);
            assert(trim_spaces(t) == t);
        }
    }
}

proof fn lemma_collapse_nodouble(s: Seq<u8>)
    requires
        no_double_space(s),
    ensures
        collapse_leading(s) == trim_spaces(s),
    decreases s.len(),
{
    if s.len() == 0 {
    } else if s[0] == 0x20u8 {
        assert(no_double_space(s.skip(1)));
        lemma_collapse_nodouble(s.skip(1));
    } else {
        let t = s.skip(1);
        assert(no_double_space(t));
        lemma_collapse_inside_nodouble(t);
        assert(collapse_leading(s) == seq![s[0]] + collapse_inside(t));
        if t.len() == 0 {
            assert(collapse_leading(s) =~= seq![s[0]]);
            assert(trim_spaces(s) == s);
            assert(s =~= seq![s[0]]);
        } else {
            lemma_trim_nonspace_head(s);
            if s[s.len() - 1] == 0x20u8 {
                assert(drop_trailing_space(t) =~= t.take(t.len() - 1));
                assert(seq![s[0]] + t.take(t.len() - 1) =~= s.take(s.len() - 1));
            } else {
                assert(drop_trailing_space(t) == t);
                assert(seq![s[0]] + t =~= s);
            }
        }
    }
}

/// Law: the text decoder is idempotent on already-normalized input.  Bytes
/// with no control characters (so in particular no CR, LF or NUL) and no two
/// adjacent spaces decode to themselves after trimming outer spaces; with no
/// outer spaces either, they decode to themselves unchanged.
pub proof fn lemma_decoder_normalized_identity(s: Seq<u8>)
    requires
        no_control_bytes(s),
        no_double_space(s),
    ensures
        decoded_text(s) == latin1_seq(trim_spaces(s)),
        (s.len() > 0 ==> s[0] != 0x20u8 && s[s.len() - 1] != 0x20u8) ==> decoded_text(s)
            == latin1_seq(s),
{
    lemma_till_nul_identity(s);
    lemma_replace_crlf_identity(s);
    lemma_collapse_nodouble(s);
    assert(no_double_space(trim_spaces(s)) && no_control_bytes(trim_spaces(s))) by {
        lemma_trim_preserves(s);
    }
    lemma_strip_controls_identity(trim_spaces(s));
    if s.len() > 0 && s[0] != 0x20u8 && s[s.len() - 1] != 0x20u8 {
        assert(trim_spaces(s) == s);
    }
}

proof fn lemma_trim_preserves(s: Seq<u8>)
    requires
        no_control_bytes(s),
        no_double_space(s),
    ensures
        no_control_bytes(trim_spaces(s)),
        no_double_space(trim_spaces(s)),
    decreases s.len(),
{
    if s.len() == 0 {
    } else if s[0] == 0x20u8 {
        assert(no_control_bytes(s.skip(1)) && no_double_space(s.skip(1)));
        lemma_trim_preserves(s.skip(1));
    } else if s[s.len() - 1] == 0x20u8 {
        let t = s.take(s.len() - 1);
        assert(no_control_bytes(t) && no_double_space(t));
        lemma_trim_preserves(t);
    }
}

} // verus!
