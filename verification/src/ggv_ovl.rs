//! ASCII key/value overlay files: the format handle and the verified
//! grammar.
//!
//! An ASCII overlay is a run of `[section]` headers, each followed by
//! `key=value` lines (`;` starts a comment that runs to the end of the
//! line).  The grammar is decoded here with contracts; turning the decoded
//! fields into geodata is floating-point field mapping and stays outside
//! the verified library.

use vstd::prelude::*;
use vstd::slice::slice_subrange;

use crate::error::CustomError;
use crate::text::{latin1_seq, decode_latin1_raw};

verus! {

//////////////////////////////////////////////////////////////////////
//            byte classes and scanners
//////////////////////////////////////////////////////////////////////

/// Whitespace as the trimming step sees it: the characters of the legacy
/// encoding whose code points are Unicode white space.
pub open spec fn is_trim_ws_byte(b: u8) -> bool {
    (0x09 <= b && b <= 0x0D) || b == 0x20 || b == 0x85 || b == 0xA0
}

/// ASCII letters and digits, the only bytes a key may hold.
pub open spec fn is_alnum_byte(b: u8) -> bool {
    (0x30 <= b && b <= 0x39) || (0x41 <= b && b <= 0x5A) || (0x61 <= b && b <= 0x7A)
}

/// Spaces and tabs, skipped around the `=` of a key/value line.
pub open spec fn is_space_byte(b: u8) -> bool {
    b == 0x20 || b == 0x09
}

/// Spaces, tabs, carriage returns and line feeds, skipped between lines and
/// sections.
pub open spec fn is_multispace_byte(b: u8) -> bool {
    b == 0x20 || b == 0x09 || b == 0x0D || b == 0x0A
}

/// The first position at or behind `i` that does not hold an ASCII
/// alphanumeric byte.
pub open spec fn scan_alnum(s: Seq<u8>, i: int) -> int
    decreases s.len() - i,
{
    if i >= s.len() || !is_alnum_byte(s[i]) {
        i
    } else {
        scan_alnum(s, i + 1)
    }
}

/// The first position at or behind `i` that does not hold a space or tab.
pub open spec fn scan_space(s: Seq<u8>, i: int) -> int
    decreases s.len() - i,
{
    if i >= s.len() || !is_space_byte(s[i]) {
        i
    } else {
        scan_space(s, i + 1)
    }
}

/// The first position at or behind `i` that does not hold line whitespace.
pub open spec fn scan_multispace(s: Seq<u8>, i: int) -> int
    decreases s.len() - i,
{
    if i >= s.len() || !is_multispace_byte(s[i]) {
        i
    } else {
        scan_multispace(s, i + 1)
    }
}

/// The position of the closing bracket at or behind `i` (the length of `s`
/// if there is none).
pub open spec fn scan_close(s: Seq<u8>, i: int) -> int
    decreases s.len() - i,
{
    if i >= s.len() || s[i] == 0x5Du8 {
        i
    } else {
        scan_close(s, i + 1)
    }
}

/// The end of a value: the first line feed or comment mark at or behind `i`.
pub open spec fn scan_value(s: Seq<u8>, i: int) -> int
    decreases s.len() - i,
{
    if i >= s.len() || s[i] == 0x0Au8 || s[i] == 0x3Bu8 {
        i
    } else {
        scan_value(s, i + 1)
    }
}

/// The end of a comment: the first line feed at or behind `i`.
pub open spec fn scan_comment(s: Seq<u8>, i: int) -> int
    decreases s.len() - i,
{
    if i >= s.len() || s[i] == 0x0Au8 {
        i
    } else {
        scan_comment(s, i + 1)
    }
}

proof fn lemma_scan_alnum_bounds(s: Seq<u8>, i: int)
    requires
        i <= s.len(),
    ensures
        i <= scan_alnum(s, i) <= s.len(),
    decreases s.len() - i,
{
    if i < s.len() && is_alnum_byte(s[i]) {
        lemma_scan_alnum_bounds(s, i + 1);
    }
}

proof fn lemma_scan_space_bounds(s: Seq<u8>, i: int)
    requires
        i <= s.len(),
    ensures
        i <= scan_space(s, i) <= s.len(),
    decreases s.len() - i,
{
    if i < s.len() && is_space_byte(s[i]) {
        lemma_scan_space_bounds(s, i + 1);
    }
}

proof fn lemma_scan_multispace_bounds(s: Seq<u8>, i: int)
    requires
        i <= s.len(),
    ensures
        i <= scan_multispace(s, i) <= s.len(),
    decreases s.len() - i,
{
    if i < s.len() && is_multispace_byte(s[i]) {
        lemma_scan_multispace_bounds(s, i + 1);
    }
}

proof fn lemma_scan_close_bounds(s: Seq<u8>, i: int)
    requires
        i <= s.len(),
    ensures
        i <= scan_close(s, i) <= s.len(),
    decreases s.len() - i,
{
    if i < s.len() && s[i] != 0x5Du8 {
        lemma_scan_close_bounds(s, i + 1);
    }
}

proof fn lemma_scan_value_bounds(s: Seq<u8>, i: int)
    requires
        i <= s.len(),
    ensures
        i <= scan_value(s, i) <= s.len(),
    decreases s.len() - i,
{
    if i < s.len() && s[i] != 0x0Au8 && s[i] != 0x3Bu8 {
        lemma_scan_value_bounds(s, i + 1);
    }
}

proof fn lemma_scan_comment_bounds(s: Seq<u8>, i: int)
    requires
        i <= s.len(),
    ensures
        i <= scan_comment(s, i) <= s.len(),
    decreases s.len() - i,
{
    if i < s.len() && s[i] != 0x0Au8 {
        lemma_scan_comment_bounds(s, i + 1);
    }
}

//////////////////////////////////////////////////////////////////////
//            trimming
//////////////////////////////////////////////////////////////////////

/// `s` without its leading whitespace.
pub open spec fn trim_front_ws(s: Seq<u8>) -> Seq<u8>
    decreases s.len(),
{
    if s.len() > 0 && is_trim_ws_byte(s[0]) {
        trim_front_ws(s.skip(1))
    } else {
        s
    }
}

/// `s` without its trailing whitespace.
pub open spec fn trim_back_ws(s: Seq<u8>) -> Seq<u8>
    decreases s.len(),
{
    if s.len() > 0 && is_trim_ws_byte(s[s.len() - 1]) {
        trim_back_ws(s.take(s.len() - 1))
    } else {
        s
    }
}

/// `s` without its outer whitespace.
pub open spec fn trim_ws(s: Seq<u8>) -> Seq<u8> {
    trim_back_ws(trim_front_ws(s))
}

fn is_trim_ws_u8(b: u8) -> (r: bool)
    ensures
        r == is_trim_ws_byte(b),
{
    (0x09 <= b && b <= 0x0D) || b == 0x20 || b == 0x85 || b == 0xA0
}

/// Copy `buf[from..to]`, drop its outer whitespace and decode it.
fn trim_decode(buf: &[u8], from: usize, to: usize) -> (r: String)
    requires
        from <= to <= buf@.len(),
    ensures
        r@ == latin1_seq(trim_ws(buf@.subrange(from as int, to as int))),
{
    let ghost t = buf@.subrange(from as int, to as int);
    let mut a: usize = from;
    while a < to && is_trim_ws_u8(buf[a])
        invariant
            from <= a <= to <= buf@.len(),
            t == buf@.subrange(from as int, to as int),
            trim_front_ws(t) == trim_front_ws(buf@.subrange(a as int, to as int)),
        decreases to - a,
    {
        a = a + 1;
        proof {
            assert(buf@.subrange(a - 1, to as int).skip(1) =~= buf@.subrange(a as int, to as int));
        }
    }
    proof {
        assert(trim_front_ws(t) == buf@.subrange(a as int, to as int));
    }
    let mut b: usize = to;
    while b > a && is_trim_ws_u8(buf[b - 1])
        invariant
            from <= a <= b <= to <= buf@.len(),
            trim_back_ws(buf@.subrange(a as int, to as int)) == trim_back_ws(
                buf@.subrange(a as int, b as int),
            ),
        decreases b,
    {
        b = b - 1;
        proof {
            assert(buf@.subrange(a as int, b + 1).take(b - a) =~= buf@.subrange(
                a as int,
                b as int,
            ));
        }
    }
    proof {
        assert(trim_back_ws(buf@.subrange(a as int, b as int)) == buf@.subrange(
            a as int,
            b as int,
        ));
    }
    let mut out: Vec<u8> = Vec::new();
    let mut k: usize = a;
    while k < b
        invariant
            a <= k <= b <= buf@.len(),
            out@ =~= buf@.subrange(a as int, k as int),
        decreases b - k,
    {
        out.push(buf[k]);
        k = k + 1;
        proof {
            assert(out@ =~= buf@.subrange(a as int, k as int));
        }
    }
    proof {
        assert(out@ == trim_ws(t));
    }
    decode_latin1_raw(out.as_slice())
}

/// Whether `s` starts with the section prefix `[Symbol`.
pub open spec fn ovl_symbol_prefix(s: Seq<u8>) -> bool {
    s.len() >= 7 && s[0] == 0x5Bu8 && s[1] == 0x53u8 && s[2] == 0x79u8 && s[3] == 0x6Du8
        && s[4] == 0x62u8 && s[5] == 0x6Fu8 && s[6] == 0x6Cu8
}

/// Whether `s` starts with the section prefix `[Overlay`.
pub open spec fn ovl_overlay_prefix(s: Seq<u8>) -> bool {
    s.len() >= 8 && s[0] == 0x5Bu8 && s[1] == 0x4Fu8 && s[2] == 0x76u8 && s[3] == 0x65u8
        && s[4] == 0x72u8 && s[5] == 0x6Cu8 && s[6] == 0x61u8 && s[7] == 0x79u8
}


//////////////////////////////////////////////////////////////////////
//            the grammar
//////////////////////////////////////////////////////////////////////

/// What parsing a `[section]` header at `pos` yields: the position behind
/// the closing bracket and the trimmed, decoded section name.
pub open spec fn section_spec(s: Seq<u8>, pos: int) -> Option<(int, Seq<char>)> {
    if pos >= s.len() || s[pos] != 0x5Bu8 {
        None
    } else {
        let j = scan_close(s, pos + 1);
        if j >= s.len() {
            None
        } else {
            Some((j + 1, latin1_seq(trim_ws(s.subrange(pos + 1, j)))))
        }
    }
}

/// What parsing a `key = value` line at `pos` yields: the position behind
/// the line (a `;` comment runs to the end of the line) and the trimmed,
/// decoded key and value.
pub open spec fn key_value_spec(s: Seq<u8>, pos: int) -> Option<(int, Seq<char>, Seq<char>)> {
    let k = scan_alnum(s, pos);
    if k == pos {
        None
    } else {
        let a = scan_space(s, k);
        if a >= s.len() || s[a] != 0x3Du8 {
            None
        } else {
            let b = scan_space(s, a + 1);
            let c = scan_value(s, b);
            let d = if c < s.len() && s[c] == 0x3Bu8 {
                scan_comment(s, c + 1)
            } else {
                c
            };
            Some(
                (
                    d,
                    latin1_seq(trim_ws(s.subrange(pos, k))),
                    latin1_seq(trim_ws(s.subrange(b, c))),
                ),
            )
        }
    }
}

proof fn lemma_key_value_advance(s: Seq<u8>, pos: int)
    requires
        pos <= s.len(),
    ensures
        (key_value_spec(s, pos) matches Some(v) ==> pos < v.0 <= s.len()),
{
    let k = scan_alnum(s, pos);
    lemma_scan_alnum_bounds(s, pos);
    if k != pos {
        let a = scan_space(s, k);
        lemma_scan_space_bounds(s, k);
        if a < s.len() && s[a] == 0x3Du8 {
            let b = scan_space(s, a + 1);
            lemma_scan_space_bounds(s, a + 1);
            let c = scan_value(s, b);
            lemma_scan_value_bounds(s, b);
            if c < s.len() && s[c] == 0x3Bu8 {
                lemma_scan_comment_bounds(s, c + 1);
            }
        }
    }
}

proof fn lemma_section_advance(s: Seq<u8>, pos: int)
    requires
        pos <= s.len(),
    ensures
        (section_spec(s, pos) matches Some(v) ==> pos + 2 <= v.0 <= s.len()),
{
    if pos < s.len() && s[pos] == 0x5Bu8 {
        lemma_scan_close_bounds(s, pos + 1);
    }
}

/// The run of key/value lines behind a section header, each followed by
/// optional line whitespace; it ends at the first line that is not a
/// key/value line.
pub open spec fn key_values_spec(s: Seq<u8>, pos: int, acc: Seq<(Seq<char>, Seq<char>)>) -> (
    int,
    Seq<(Seq<char>, Seq<char>)>,
)
    decreases s.len() - pos,
    via key_values_spec_dec
{
    match key_value_spec(s, pos) {
        Option::None => (pos, acc),
        Option::Some((d, k, v)) => {
            let e = scan_multispace(s, d);
            key_values_spec(s, e, acc.push((k, v)))
        },
    }
}

#[via_fn]
proof fn key_values_spec_dec(s: Seq<u8>, pos: int, acc: Seq<(Seq<char>, Seq<char>)>) {
    if pos <= s.len() {
        lemma_key_value_advance(s, pos);
        if let Some((d, k, v)) = key_value_spec(s, pos) {
            lemma_scan_multispace_bounds(s, d);
        }
    } else {
        lemma_scan_alnum_high(s, pos);
    }
}

proof fn lemma_scan_alnum_high(s: Seq<u8>, i: int)
    requires
        i > s.len(),
    ensures
        scan_alnum(s, i) == i,
{
}

proof fn lemma_key_values_advance(s: Seq<u8>, pos: int, acc: Seq<(Seq<char>, Seq<char>)>)
    requires
        pos <= s.len(),
    ensures
        pos <= key_values_spec(s, pos, acc).0 <= s.len(),
    decreases s.len() - pos,
{
    lemma_key_value_advance(s, pos);
    if let Some((d, k, v)) = key_value_spec(s, pos) {
        lemma_scan_multispace_bounds(s, d);
        let e = scan_multispace(s, d);
        lemma_key_values_advance(s, e, acc.push((k, v)));
    }
}

/// The whole document: a run of sections, each with its key/value lines,
/// ending at the first byte that opens no section.  Parsing never fails;
/// what it cannot read is left as the remainder.
pub open spec fn sections_spec(s: Seq<u8>, pos: int, acc: Seq<(Seq<char>, Seq<(Seq<char>, Seq<char>)>)>) -> (
    int,
    Seq<(Seq<char>, Seq<(Seq<char>, Seq<char>)>)>,
)
    decreases s.len() - pos,
    via sections_spec_dec
{
    match section_spec(s, pos) {
        Option::None => (pos, acc),
        Option::Some((p, name)) => {
            let q = scan_multispace(s, p);
            let kvs = key_values_spec(s, q, Seq::empty());
            sections_spec(s, kvs.0, acc.push((name, kvs.1)))
        },
    }
}

#[via_fn]
proof fn sections_spec_dec(s: Seq<u8>, pos: int, acc: Seq<(Seq<char>, Seq<(Seq<char>, Seq<char>)>)>) {
    if pos < s.len() {
        lemma_section_advance(s, pos);
        if let Some((p, name)) = section_spec(s, pos) {
            lemma_scan_multispace_bounds(s, p);
            let q = scan_multispace(s, p);
            lemma_key_values_advance(s, q, Seq::empty());
        }
    }
}

/// The views of decoded key/value pairs.
pub open spec fn kv_pairs_view(v: Seq<(String, String)>) -> Seq<(Seq<char>, Seq<char>)> {
    v.map_values(|p: (String, String)| (p.0@, p.1@))
}

/// The views of decoded sections with their key/value pairs.
pub open spec fn sections_view(v: Seq<(String, Vec<(String, String)>)>) -> Seq<
    (Seq<char>, Seq<(Seq<char>, Seq<char>)>),
> {
    v.map_values(|s: (String, Vec<(String, String)>)| (s.0@, kv_pairs_view(s.1@)))
}

//////////////////////////////////////////////////////////////////////
//            executable parser
//////////////////////////////////////////////////////////////////////

fn skip_alnum(buf: &[u8], pos: usize) -> (r: usize)
    requires
        pos <= buf@.len(),
    ensures
        r == scan_alnum(buf@, pos as int),
        pos <= r <= buf@.len(),
{
    let mut i: usize = pos;
    while i < buf.len() && (0x30 <= buf[i] && buf[i] <= 0x39 || 0x41 <= buf[i] && buf[i] <= 0x5A
        || 0x61 <= buf[i] && buf[i] <= 0x7A)
        invariant
            pos <= i <= buf@.len(),
            scan_alnum(buf@, pos as int) == scan_alnum(buf@, i as int),
        decreases buf@.len() - i,
    {
        i = i + 1;
    }
    i
}

fn skip_space(buf: &[u8], pos: usize) -> (r: usize)
    requires
        pos <= buf@.len(),
    ensures
        r == scan_space(buf@, pos as int),
        pos <= r <= buf@.len(),
{
    let mut i: usize = pos;
    while i < buf.len() && (buf[i] == 0x20 || buf[i] == 0x09)
        invariant
            pos <= i <= buf@.len(),
            scan_space(buf@, pos as int) == scan_space(buf@, i as int),
        decreases buf@.len() - i,
    {
        i = i + 1;
    }
    i
}

fn skip_multispace(buf: &[u8], pos: usize) -> (r: usize)
    requires
        pos <= buf@.len(),
    ensures
        r == scan_multispace(buf@, pos as int),
        pos <= r <= buf@.len(),
{
    let mut i: usize = pos;
    while i < buf.len() && (buf[i] == 0x20 || buf[i] == 0x09 || buf[i] == 0x0D || buf[i] == 0x0A)
        invariant
            pos <= i <= buf@.len(),
            scan_multispace(buf@, pos as int) == scan_multispace(buf@, i as int),
        decreases buf@.len() - i,
    {
        i = i + 1;
    }
    i
}

fn skip_to_close(buf: &[u8], pos: usize) -> (r: usize)
    requires
        pos <= buf@.len(),
    ensures
        r == scan_close(buf@, pos as int),
        pos <= r <= buf@.len(),
{
    let mut i: usize = pos;
    while i < buf.len() && buf[i] != 0x5D
        invariant
            pos <= i <= buf@.len(),
            scan_close(buf@, pos as int) == scan_close(buf@, i as int),
        decreases buf@.len() - i,
    {
        i = i + 1;
    }
    i
}

fn skip_value(buf: &[u8], pos: usize) -> (r: usize)
    requires
        pos <= buf@.len(),
    ensures
        r == scan_value(buf@, pos as int),
        pos <= r <= buf@.len(),
{
    let mut i: usize = pos;
    while i < buf.len() && buf[i] != 0x0A && buf[i] != 0x3B
        invariant
            pos <= i <= buf@.len(),
            scan_value(buf@, pos as int) == scan_value(buf@, i as int),
        decreases buf@.len() - i,
    {
        i = i + 1;
    }
    i
}

fn skip_comment(buf: &[u8], pos: usize) -> (r: usize)
    requires
        pos <= buf@.len(),
    ensures
        r == scan_comment(buf@, pos as int),
        pos <= r <= buf@.len(),
{
    let mut i: usize = pos;
    while i < buf.len() && buf[i] != 0x0A
        invariant
            pos <= i <= buf@.len(),
            scan_comment(buf@, pos as int) == scan_comment(buf@, i as int),
        decreases buf@.len() - i,
    {
        i = i + 1;
    }
    i
}

fn section_at(buf: &[u8], pos: usize) -> (r: Option<(usize, String)>)
    requires
        pos <= buf@.len(),
    ensures
        (match section_spec(buf@, pos as int) {
            Some(v) => r matches Some(o) && o.0 == v.0 && o.1@ == v.1 && pos + 2 <= o.0
                <= buf@.len(),
            None => r is None,
        }),
{
    if pos >= buf.len() || buf[pos] != 0x5B {
        return None;
    }
    let j = skip_to_close(buf, pos + 1);
    if j >= buf.len() {
        return None;
    }
    let name = trim_decode(buf, pos + 1, j);
    Some((j + 1, name))
}

fn key_value_at(buf: &[u8], pos: usize) -> (r: Option<(usize, String, String)>)
    requires
        pos <= buf@.len(),
    ensures
        (match key_value_spec(buf@, pos as int) {
            Some(v) => r matches Some(o) && o.0 == v.0 && o.1@ == v.1 && o.2@ == v.2 && pos < o.0
                <= buf@.len(),
            None => r is None,
        }),
{
    let k = skip_alnum(buf, pos);
    if k == pos {
        return None;
    }
    let a = skip_space(buf, k);
    if a >= buf.len() || buf[a] != 0x3D {
        return None;
    }
    let b = skip_space(buf, a + 1);
    let c = skip_value(buf, b);
    let d: usize = if c < buf.len() && buf[c] == 0x3B {
        skip_comment(buf, c + 1)
    } else {
        c
    };
    let key = trim_decode(buf, pos, k);
    let val = trim_decode(buf, b, c);
    Some((d, key, val))
}

fn key_values_at(buf: &[u8], start: usize) -> (r: (usize, Vec<(String, String)>))
    requires
        start <= buf@.len(),
    ensures
        r.0 == key_values_spec(buf@, start as int, Seq::empty()).0,
        kv_pairs_view(r.1@) == key_values_spec(buf@, start as int, Seq::empty()).1,
        start <= r.0 <= buf@.len(),
{
    let mut kvs: Vec<(String, String)> = Vec::new();
    let mut pos: usize = start;
    proof {
        assert(kv_pairs_view(kvs@) =~= Seq::<(Seq<char>, Seq<char>)>::empty());
    }
    loop
        invariant
            start <= pos <= buf@.len(),
            key_values_spec(buf@, start as int, Seq::<(Seq<char>, Seq<char>)>::empty())
                == key_values_spec(buf@, pos as int, kv_pairs_view(kvs@)),
        decreases buf@.len() - pos,
    {
        match key_value_at(buf, pos) {
            None => {
                return (pos, kvs);
            },
            Some((d, k, v)) => {
                let e = skip_multispace(buf, d);
                let ghost prev = kv_pairs_view(kvs@);
                let ghost kv = (k@, v@);
                kvs.push((k, v));
                proof {
                    assert(kv_pairs_view(kvs@) =~= prev.push(kv));
                }
                pos = e;
            },
        }
    }
}

/// Parse one `[section]` header off the front of `i`, yielding the
/// remainder and the section name.
pub fn ggv_ovl_parse_section<'a>(i: &'a [u8]) -> (r: Result<(&'a [u8], String), CustomError>)
    ensures
        (match section_spec(i@, 0) {
            Some(v) => r matches Ok(o) && o.0@ == i@.subrange(v.0, i@.len() as int) && o.1@ == v.1,
            None => r matches Err(e) && e@ == "parse section"@,
        }),
{
    match section_at(i, 0) {
        Some((p, name)) => Ok((slice_subrange(i, p, i.len()), name)),
        None => Err(CustomError::new("parse section")),
    }
}

/// Parse one `key = value` line off the front of `i`, yielding the
/// remainder and the key/value pair.
pub fn ggv_ovl_parse_key_value<'a>(i: &'a [u8]) -> (r: Result<
    (&'a [u8], (String, String)),
    CustomError,
>)
    ensures
        (match key_value_spec(i@, 0) {
            Some(v) => r matches Ok(o) && o.0@ == i@.subrange(v.0, i@.len() as int) && o.1.0@ == v.1
                && o.1.1@ == v.2,
            None => r matches Err(e) && e@ == "key value"@,
        }),
{
    match key_value_at(i, 0) {
        Some((d, k, v)) => Ok((slice_subrange(i, d, i.len()), (k, v))),
        None => Err(CustomError::new("key value")),
    }
}

/// Parse a whole document off the front of `i`: every leading section with
/// its key/value lines, in file order.  Parsing never fails; what cannot be
/// read is handed back as the remainder.
pub fn ggv_ovl_parse<'a>(i: &'a [u8]) -> (r: Result<
    (&'a [u8], Vec<(String, Vec<(String, String)>)>),
    CustomError,
>)
    ensures
        (r matches Ok(o) && o.0@ == i@.subrange(
            sections_spec(i@, 0, Seq::empty()).0,
            i@.len() as int,
        ) && sections_view(o.1@) == sections_spec(i@, 0, Seq::empty()).1),
{
    let mut acc: Vec<(String, Vec<(String, String)>)> = Vec::new();
    let mut pos: usize = 0;
    proof {
        assert(sections_view(acc@) =~= Seq::<(Seq<char>, Seq<(Seq<char>, Seq<char>)>)>::empty());
    }
    loop
        invariant
            pos <= i@.len(),
            sections_spec(i@, 0, Seq::<(Seq<char>, Seq<(Seq<char>, Seq<char>)>)>::empty())
                == sections_spec(i@, pos as int, sections_view(acc@)),
        decreases i@.len() - pos,
    {
        match section_at(i, pos) {
            None => {
                return Ok((slice_subrange(i, pos, i.len()), acc));
            },
            Some((p, name)) => {
                let q = skip_multispace(i, p);
                let (p2, kvs) = key_values_at(i, q);
                let ghost prev = sections_view(acc@);
                let ghost entry = (name@, kv_pairs_view(kvs@));
                acc.push((name, kvs));
                proof {
                    assert(sections_view(acc@) =~= prev.push(entry));
                }
                pos = p2;
            },
        }
    }
}

/// The ASCII overlay format handle.
pub struct GgvOvlFormat {
    debug: u8,
}

impl View for GgvOvlFormat {
    type V = u8;

    closed spec fn view(&self) -> u8 {
        self.debug
    }
}

impl GgvOvlFormat {
    pub fn new() -> (r: Self)
        ensures
            r@ == 0,
    {
        Self { debug: 0 }
    }

    /// Cheap format sniff: the input opens with a `[Symbol` or `[Overlay`
    /// section header.
    pub fn probe(&self, buf: &[u8]) -> (r: bool)
        ensures
            r == (ovl_symbol_prefix(buf@) || ovl_overlay_prefix(buf@)),
    {
        if buf.len() >= 7 && buf[0] == 0x5B && buf[1] == 0x53 && buf[2] == 0x79 && buf[3] == 0x6D
            && buf[4] == 0x62 && buf[5] == 0x6F && buf[6] == 0x6C {
            return true;
        }
        if buf.len() >= 8 && buf[0] == 0x5B && buf[1] == 0x4F && buf[2] == 0x76 && buf[3] == 0x65
            && buf[4] == 0x72 && buf[5] == 0x6C && buf[6] == 0x61 && buf[7] == 0x79 {
            return true;
        }
        false
    }

    /// The ASCII overlay writer emits no symbols: just the final line break.
    pub fn write_empty_document(&self) -> (r: String)
        ensures
            r@ == "\r\n"@,
    {
        String::from_str("\r\n")
    }

    pub fn name(&self) -> (r: &'static str)
        ensures
            r@ == "ggv_ovl"@,
    {
        "ggv_ovl"
    }

    pub fn can_read(&self) -> (r: bool)
        ensures
            r,
    {
        true
    }

    pub fn can_write(&self) -> (r: bool)
        ensures
            r,
    {
        true
    }

    pub fn set_debug(&mut self, debug: u8)
        ensures
            final(self)@ == debug,
    {
        self.debug = debug;
    }

    pub fn debug(&self) -> (r: u8)
        ensures
            r == self@,
    {
        self.debug
    }
}

} // verus!
