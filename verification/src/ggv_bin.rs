//! Decoder for the binary overlay format (on-disk versions 2, 3 and 4).
//!
//! The grammar of each version is written down twice: once as specification
//! functions over the byte sequence (the reference meaning of a stream) and
//! once as executable code whose contracts state that it computes exactly
//! what the specification says, for every input.  A decode either fully
//! succeeds, yielding the populated [`Geodata`], or fails with one
//! [`DecodeError`]; there is no partial result.

use vstd::prelude::*;

use crate::bitmap::{bitmap_accepted, bitmap_file, build_bitmap_file};
use crate::error::{CustomError, DecodeError, DecodeErrorKind};
use crate::geodata::{
    initial_geodata, Geodata, GeodataV, Waypoint, WaypointList, WaypointListV, WaypointV,
};
use crate::reader::{
    le16_at, le32_at, le64_at, read_double_bits, read_u16, read_u32, skip_bytes, spec_missing,
    take_bytes, SpecOut,
};
use crate::text::{latin1_seq, read_text16, read_text32, text16_spec, text32_spec, till_nul,
    MAX_TEXT_LEN};

verus! {

//////////////////////////////////////////////////////////////////////
//            magic header
//////////////////////////////////////////////////////////////////////

/// The fixed 18-byte prefix of the magic header: `DOMGVCRD Ovlfile V`.
pub open spec fn magic_head() -> Seq<u8> {
    seq![
        0x44u8, 0x4Fu8, 0x4Du8, 0x47u8, 0x56u8, 0x43u8, 0x52u8, 0x44u8, 0x20u8, 0x4Fu8, 0x76u8,
        0x6Cu8, 0x66u8, 0x69u8, 0x6Cu8, 0x65u8, 0x20u8, 0x56u8,
    ]
}

/// The four bytes behind the version digit: `.0:` and a NUL.
pub open spec fn magic_tail() -> Seq<u8> {
    seq![0x2Eu8, 0x30u8, 0x3Au8, 0x00u8]
}

/// Whether `s` begins with the 23-byte magic header: the fixed prefix, one
/// version digit `2`, `3` or `4`, then the fixed tail.
pub open spec fn is_magic(s: Seq<u8>) -> bool {
    s.len() >= 23 && s.subrange(0, 18) == magic_head() && (s[18] == 0x32u8 || s[18] == 0x33u8
        || s[18] == 0x34u8) && s.subrange(19, 23) == magic_tail()
}

/// The version digit of a magic header (meaningful when `is_magic` holds).
pub open spec fn magic_version(s: Seq<u8>) -> u8 {
    (s[18] - 0x30u8) as u8
}

/// Match the magic header and extract the format version and the raw header
/// text.  Any other byte sequence is a literal mismatch.
pub fn parse_magic(buf: &[u8]) -> (r: Result<(u8, String), DecodeError>)
    ensures
        is_magic(buf@) ==> (r matches Ok(v) && v.0 == magic_version(buf@) && v.1@ == latin1_seq(
            buf@.subrange(0, 22),
        ) && (v.0 == 2 || v.0 == 3 || v.0 == 4)),
        !is_magic(buf@) ==> (r matches Err(e) && e.kind == DecodeErrorKind::LiteralMismatch
            && e.field@ == "magic"@ && e.version == 0),
{
    if buf.len() < 23 {
        proof {
            assert(!is_magic(buf@));
        }
        return Err(magic_mismatch());
    }
    let head_ok = buf[0] == 0x44 && buf[1] == 0x4F && buf[2] == 0x4D && buf[3] == 0x47
        && buf[4] == 0x56 && buf[5] == 0x43 && buf[6] == 0x52 && buf[7] == 0x44 && buf[8] == 0x20
        && buf[9] == 0x4F && buf[10] == 0x76 && buf[11] == 0x6C && buf[12] == 0x66
        && buf[13] == 0x69 && buf[14] == 0x6C && buf[15] == 0x65 && buf[16] == 0x20
        && buf[17] == 0x56;
    let digit = buf[18];
    let tail_ok = buf[19] == 0x2E && buf[20] == 0x30 && buf[21] == 0x3A && buf[22] == 0x00;
    if !(head_ok && (digit == 0x32 || digit == 0x33 || digit == 0x34) && tail_ok) {
        proof {
            if is_magic(buf@) {
                assert(buf@.subrange(0, 18) == magic_head());
                assert(forall|i: int|
                    0 <= i < 18 ==> buf@.subrange(0, 18)[i] == magic_head()[i]);
                assert(buf@.subrange(19, 23) == magic_tail());
                assert(forall|i: int|
                    0 <= i < 4 ==> buf@.subrange(19, 23)[i] == magic_tail()[i]);
                assert(false);
            }
        }
        return Err(magic_mismatch());
    }
    proof {
        assert(buf@.subrange(0, 18) =~= magic_head());
        assert(buf@.subrange(19, 23) =~= magic_tail());
    }
    let header = match take_bytes(buf, 0, 22, "magic") {
        Ok(v) => v.0,
        Err(e) => {
            return Err(e);
        },
    };
    let text = decode_header_text(&header);
    Ok((digit - 0x30, text))
}

fn magic_mismatch() -> (r: DecodeError)
    ensures
        r.kind == DecodeErrorKind::LiteralMismatch,
        r.field@ == "magic"@,
        r.version == 0,
{
    DecodeError {
        kind: DecodeErrorKind::LiteralMismatch,
        field: String::from_str("magic"),
        version: 0,
    }
}

/// Decode raw header bytes for the header-text result (no normalization).
fn decode_header_text(raw: &Vec<u8>) -> (r: String)
    ensures
        r@ == latin1_seq(raw@),
{
    crate::text::decode_latin1_raw(raw.as_slice())
}

//////////////////////////////////////////////////////////////////////
//            effects on the accumulator
//////////////////////////////////////////////////////////////////////

/// A waypoint with no elevation, straight off the wire.
pub open spec fn wp_plain(lat: u64, lon: u64, name: Seq<char>) -> WaypointV {
    WaypointV { latitude: lat, longitude: lon, elevation: None, name: name }
}

/// Append a waypoint to the implicit loose-waypoint list.
pub open spec fn push_loose_waypoint(g: GeodataV, w: WaypointV) -> GeodataV {
    GeodataV {
        waypoints: g.waypoints.update(
            0,
            WaypointListV { waypoints: g.waypoints[0].waypoints.push(w), ..g.waypoints[0] },
        ),
        ..g
    }
}

/// Append a track list.
pub open spec fn push_track(g: GeodataV, t: WaypointListV) -> GeodataV {
    GeodataV { tracks: g.tracks.push(t), ..g }
}

/// Route a raw pixel blob through the bitmap extractor: an accepted blob
/// attaches a named resource, any other blob leaves the result untouched.
pub open spec fn attach_bitmap(g: GeodataV, blob: Seq<u8>) -> GeodataV {
    if bitmap_accepted(blob) {
        GeodataV { data: g.data.push(("bmp"@, bitmap_file(blob))), ..g }
    } else {
        g
    }
}

//////////////////////////////////////////////////////////////////////
//            version 2: specification
//////////////////////////////////////////////////////////////////////

/// The optional name block behind the version-2 magic: a 16-bit length, then
/// (when non-zero) a 4-byte sub-header and the name bytes.  The stored length
/// counts the sub-header, and the name width is its 16-bit wrapping
/// difference, exactly as a 16-bit cursor would compute it.
pub open spec fn v2_header_spec(s: Seq<u8>, pos: int) -> SpecOut<(int, Seq<char>)> {
    if pos + 2 > s.len() {
        spec_missing("map name len"@)
    } else {
        let n = le16_at(s, pos) as int;
        if n == 0 {
            SpecOut::Val((pos + 2, Seq::<char>::empty()))
        } else if pos + 6 > s.len() {
            spec_missing("map name"@)
        } else {
            let m = (n - 4) % 0x10000;
            if pos + 6 + m > s.len() {
                spec_missing("map name"@)
            } else {
                SpecOut::Val(
                    (pos + 6 + m, latin1_seq(till_nul(s.subrange(pos + 6, pos + 6 + m)))),
                )
            }
        }
    }
}

/// One (longitude, latitude) pair per point; points accumulate in order.
pub open spec fn v2_points_spec(s: Seq<u8>, pos: int, n: int, wps: Seq<WaypointV>) -> SpecOut<
    (int, Seq<WaypointV>),
>
    decreases n,
{
    if n <= 0 {
        SpecOut::Val((pos, wps))
    } else if pos + 8 > s.len() {
        spec_missing("text lon"@)
    } else if pos + 16 > s.len() {
        spec_missing("text lat"@)
    } else {
        v2_points_spec(
            s,
            pos + 16,
            n - 1,
            wps.push(wp_plain(le64_at(s, pos + 8), le64_at(s, pos), Seq::<char>::empty())),
        )
    }
}

/// The payload of one version-2 entry, dispatched on the entry type.
pub open spec fn v2_entry_spec(
    s: Seq<u8>,
    pos: int,
    entry_type: u16,
    track_name: Seq<char>,
    g: GeodataV,
) -> SpecOut<(int, GeodataV)> {
    if entry_type == 2 {
        if pos + 2 > s.len() {
            spec_missing("text color"@)
        } else if pos + 4 > s.len() {
            spec_missing("text size"@)
        } else if pos + 6 > s.len() {
            spec_missing("text trans"@)
        } else if pos + 8 > s.len() {
            spec_missing("text font"@)
        } else if pos + 10 > s.len() {
            spec_missing("text angle"@)
        } else if pos + 18 > s.len() {
            spec_missing("text lon"@)
        } else if pos + 26 > s.len() {
            spec_missing("text lat"@)
        } else {
            let lon = le64_at(s, pos + 10);
            let lat = le64_at(s, pos + 18);
            match text16_spec(s, pos + 26, "text label"@) {
                SpecOut::Val((label, p)) => SpecOut::Val(
                    (p, push_loose_waypoint(g, wp_plain(lat, lon, label))),
                ),
                SpecOut::Fail { kind, field } => SpecOut::Fail { kind, field },
            }
        }
    } else if entry_type == 3 || entry_type == 4 {
        if pos + 2 > s.len() {
            spec_missing("line color"@)
        } else if pos + 4 > s.len() {
            spec_missing("line width"@)
        } else if pos + 6 > s.len() {
            spec_missing("line type"@)
        } else if pos + 8 > s.len() {
            spec_missing("line points"@)
        } else {
            let n = le16_at(s, pos + 6) as int;
            match v2_points_spec(s, pos + 8, n, Seq::<WaypointV>::empty()) {
                SpecOut::Val((p, pts)) => SpecOut::Val(
                    (p, push_track(g, WaypointListV { waypoints: pts, name: track_name })),
                ),
                SpecOut::Fail { kind, field } => SpecOut::Fail { kind, field },
            }
        }
    } else if entry_type == 5 || entry_type == 6 || entry_type == 7 {
        if pos + 2 > s.len() {
            spec_missing("geom color"@)
        } else if pos + 4 > s.len() {
            spec_missing("geom prop1"@)
        } else if pos + 6 > s.len() {
            spec_missing("geom prop2"@)
        } else if pos + 8 > s.len() {
            spec_missing("geom angle"@)
        } else if pos + 10 > s.len() {
            spec_missing("geom stroke"@)
        } else if pos + 12 > s.len() {
            spec_missing("geom area"@)
        } else if pos + 20 > s.len() {
            spec_missing("geom lon"@)
        } else if pos + 28 > s.len() {
            spec_missing("geom lat"@)
        } else {
            SpecOut::Val((pos + 28, g))
        }
    } else if entry_type == 9 {
        if pos + 2 > s.len() {
            spec_missing("bmp color"@)
        } else if pos + 4 > s.len() {
            spec_missing("bmp prop1"@)
        } else if pos + 6 > s.len() {
            spec_missing("bmp prop2"@)
        } else if pos + 8 > s.len() {
            spec_missing("bmp prop3"@)
        } else if pos + 16 > s.len() {
            spec_missing("bmp lon"@)
        } else if pos + 24 > s.len() {
            spec_missing("bmp lat"@)
        } else if pos + 28 > s.len() {
            spec_missing("bmp len"@)
        } else {
            let n = le32_at(s, pos + 24) as int;
            if n > MAX_TEXT_LEN {
                SpecOut::Fail { kind: DecodeErrorKind::FieldTooLarge, field: "bmp len"@ }
            } else if pos + 28 + n > s.len() {
                spec_missing("bmp data"@)
            } else {
                SpecOut::Val((pos + 28 + n, attach_bitmap(g, s.subrange(pos + 28, pos + 28 + n))))
            }
        }
    } else {
        SpecOut::Fail {
            kind: DecodeErrorKind::UnsupportedEntryType { code: entry_type },
            field: "entry type"@,
        }
    }
}

/// Positions only advance, and never past the end of the buffer.
proof fn lemma_v2_points_advance(s: Seq<u8>, pos: int, n: int, wps: Seq<WaypointV>)
    requires
        pos <= s.len(),
    ensures
        (v2_points_spec(s, pos, n, wps) matches SpecOut::Val(v) ==> pos <= v.0 <= s.len()),
    decreases n,
{
    if n > 0 && pos + 16 <= s.len() {
        lemma_v2_points_advance(
            s,
            pos + 16,
            n - 1,
            wps.push(wp_plain(le64_at(s, pos + 8), le64_at(s, pos), Seq::<char>::empty())),
        );
    }
}

proof fn lemma_v2_entry_advance(
    s: Seq<u8>,
    pos: int,
    entry_type: u16,
    track_name: Seq<char>,
    g: GeodataV,
)
    requires
        pos <= s.len(),
    ensures
        (v2_entry_spec(s, pos, entry_type, track_name, g) matches SpecOut::Val(v) ==> pos <= v.0
            <= s.len()),
{
    if entry_type == 3 || entry_type == 4 {
        if pos + 8 <= s.len() {
            let n = le16_at(s, pos + 6) as int;
            lemma_v2_points_advance(s, pos + 8, n, Seq::<WaypointV>::empty());
        }
    }
}

/// The flat stream of typed entries that follows the version-2 header.
pub open spec fn v2_entries_spec(s: Seq<u8>, pos: int, g: GeodataV) -> SpecOut<(int, GeodataV)>
    decreases s.len() - pos,
    via v2_entries_spec_dec
{
    if pos >= s.len() {
        SpecOut::Val((pos, g))
    } else if pos + 2 > s.len() {
        spec_missing("entry type"@)
    } else if pos + 4 > s.len() {
        spec_missing("entry group"@)
    } else if pos + 6 > s.len() {
        spec_missing("entry zoom"@)
    } else if pos + 8 > s.len() {
        spec_missing("entry subtype"@)
    } else {
        let entry_type = le16_at(s, pos);
        let subtype = le16_at(s, pos + 6);
        let named = if subtype != 1 {
            text32_spec(s, pos + 8, "track name"@)
        } else {
            SpecOut::Val((Seq::<char>::empty(), pos + 8))
        };
        match named {
            SpecOut::Val((track_name, p)) => match v2_entry_spec(s, p, entry_type, track_name, g) {
                SpecOut::Val((p2, g2)) => v2_entries_spec(s, p2, g2),
                SpecOut::Fail { kind, field } => SpecOut::Fail { kind, field },
            },
            SpecOut::Fail { kind, field } => SpecOut::Fail { kind, field },
        }
    }
}

#[via_fn]
proof fn v2_entries_spec_dec(s: Seq<u8>, pos: int, g: GeodataV) {
    if pos < s.len() && pos + 8 <= s.len() {
        let entry_type = le16_at(s, pos);
        let subtype = le16_at(s, pos + 6);
        let named = if subtype != 1 {
            text32_spec(s, pos + 8, "track name"@)
        } else {
            SpecOut::Val((Seq::<char>::empty(), pos + 8))
        };
        if let SpecOut::Val((track_name, p)) = named {
            assert(pos + 8 <= p <= s.len());
            lemma_v2_entry_advance(s, p, entry_type, track_name, g);
        }
    }
}

/// The whole version-2 stream: magic, optional name block, then entries
/// until the buffer is exhausted.
pub open spec fn v2_spec(s: Seq<u8>, g: GeodataV) -> SpecOut<(int, GeodataV)> {
    if !is_magic(s) {
        SpecOut::Fail { kind: DecodeErrorKind::LiteralMismatch, field: "magic"@ }
    } else {
        match v2_header_spec(s, 23) {
            SpecOut::Val((p, _name)) => v2_entries_spec(s, p, g),
            SpecOut::Fail { kind, field } => SpecOut::Fail { kind, field },
        }
    }
}

//////////////////////////////////////////////////////////////////////
//            version 2: executable decoder
//////////////////////////////////////////////////////////////////////

/// Decode the optional version-2 name block, returning the position behind
/// it and the raw (NUL-truncated, unnormalized) name.
fn read_header_v2(buf: &[u8], pos: usize) -> (r: Result<(usize, String), DecodeError>)
    ensures
        (match v2_header_spec(buf@, pos as int) {
            SpecOut::Val(v) => r matches Ok(o) && o.0 == v.0 && o.1@ == v.1,
            SpecOut::Fail { kind, field } => r matches Err(e) && e.kind == kind && e.field@
                == field && e.version == 0,
        }),
{
    let (header_len, p) = read_u16(buf, pos, "map name len")?;
    if header_len == 0 {
        return Ok((p, String::new()));
    }
    let p = skip_bytes(buf, p, 4, "map name")?;
    let width: u16 = if header_len >= 4 {
        header_len - 4
    } else {
        header_len + 0xFFFC
    };
    proof {
        assert(width == (header_len - 4) % 0x10000);
    }
    let (raw, p) = take_bytes(buf, p, width as usize, "map name")?;
    let cut = crate::text::cut_nul_bytes(&raw);
    Ok((p, crate::text::decode_latin1_raw(cut.as_slice())))
}

/// Decode one version-2 entry payload into the accumulator.
fn read_v2_entries(
    buf: &[u8],
    pos: usize,
    entry_type: u16,
    track_name: &String,
    geodata: &mut Geodata,
) -> (r: Result<usize, DecodeError>)
    requires
        old(geodata).wf(),
    ensures
        (match v2_entry_spec(buf@, pos as int, entry_type, track_name@, old(geodata)@) {
            SpecOut::Val(v) => r matches Ok(p) && p == v.0 && final(geodata)@ == v.1
                && final(geodata).wf(),
            SpecOut::Fail { kind, field } => r matches Err(e) && e.kind == kind && e.field@
                == field && e.version == 0,
        }),
{
    if entry_type == 2 {
        let p = read_u16(buf, pos, "text color")?.1;
        let p = read_u16(buf, p, "text size")?.1;
        let p = read_u16(buf, p, "text trans")?.1;
        let p = read_u16(buf, p, "text font")?.1;
        let p = read_u16(buf, p, "text angle")?.1;
        let (lon, p) = read_double_bits(buf, p, "text lon")?;
        let (lat, p) = read_double_bits(buf, p, "text lat")?;
        let (label, p) = read_text16(buf, p, "text label")?;
        geodata.add_waypoint(Waypoint::new().with_lat(lat).with_lon(lon).with_name(label.as_str()));
        Ok(p)
    } else if entry_type == 3 || entry_type == 4 {
        let p = read_u16(buf, pos, "line color")?.1;
        let p = read_u16(buf, p, "line width")?.1;
        let p = read_u16(buf, p, "line type")?.1;
        let (line_points, p) = read_u16(buf, p, "line points")?;
        let mut list = WaypointList::new();
        if !track_name.as_str().is_empty() {
            list.set_name(track_name.as_str());
        }
        proof {
            assert(list@.name =~= track_name@);
            assert(list@.waypoints =~= Seq::<WaypointV>::empty());
        }
        let ghost p0 = p as int;
        let mut pos2: usize = p;
        let mut k: u16 = 0;
        while k < line_points
            invariant
                k <= line_points,
                entry_type == 3 || entry_type == 4,
                pos + 8 <= buf@.len(),
                p0 == pos + 8,
                line_points == le16_at(buf@, pos + 6),
                list@.name == track_name@,
                geodata@ == old(geodata)@,
                geodata.wf(),
                old(geodata).wf(),
                v2_points_spec(buf@, p0, line_points as int, Seq::<WaypointV>::empty())
                    == v2_points_spec(
                    buf@,
                    pos2 as int,
                    (line_points - k) as int,
                    list@.waypoints,
                ),
            decreases line_points - k,
        {
            let (lon, q) = match read_double_bits(buf, pos2, "text lon") {
                Ok(v) => v,
                Err(e) => {
                    return Err(e);
                },
            };
            let (lat, q) = match read_double_bits(buf, q, "text lat") {
                Ok(v) => v,
                Err(e) => {
                    return Err(e);
                },
            };
            list.add_waypoint(Waypoint::new().with_lat(lat).with_lon(lon));
            proof {
                assert(wp_plain(lat, lon, Seq::<char>::empty()) == (WaypointV {
                    latitude: lat,
                    longitude: lon,
                    elevation: None::<u64>,
                    name: Seq::<char>::empty(),
                }));
            }
            pos2 = q;
            k = k + 1;
        }
        let ghost lv = list@;
        geodata.add_track(list);
        proof {
            assert(geodata@ == push_track(
                old(geodata)@,
                WaypointListV { waypoints: lv.waypoints, name: track_name@ },
            ));
        }
        Ok(pos2)
    } else if entry_type == 5 || entry_type == 6 || entry_type == 7 {
        let p = read_u16(buf, pos, "geom color")?.1;
        let p = read_u16(buf, p, "geom prop1")?.1;
        let p = read_u16(buf, p, "geom prop2")?.1;
        let p = read_u16(buf, p, "geom angle")?.1;
        let p = read_u16(buf, p, "geom stroke")?.1;
        let p = read_u16(buf, p, "geom area")?.1;
        let p = read_double_bits(buf, p, "geom lon")?.1;
        let p = read_double_bits(buf, p, "geom lat")?.1;
        Ok(p)
    } else if entry_type == 9 {
        let p = read_u16(buf, pos, "bmp color")?.1;
        let p = read_u16(buf, p, "bmp prop1")?.1;
        let p = read_u16(buf, p, "bmp prop2")?.1;
        let p = read_u16(buf, p, "bmp prop3")?.1;
        let p = read_double_bits(buf, p, "bmp lon")?.1;
        let p = read_double_bits(buf, p, "bmp lat")?.1;
        let (bmp_len, p) = read_u32(buf, p, "bmp len")?;
        if bmp_len > MAX_TEXT_LEN {
            return Err(DecodeError {
                kind: DecodeErrorKind::FieldTooLarge,
                field: String::from_str("bmp len"),
                version: 0,
            });
        }
        let (blob, p) = take_bytes(buf, p, bmp_len as usize, "bmp data")?;
        if let Some(data) = build_bitmap_file(&blob) {
            geodata.add_data("bmp", data);
        }
        Ok(p)
    } else {
        Err(DecodeError {
            kind: DecodeErrorKind::UnsupportedEntryType { code: entry_type },
            field: String::from_str("entry type"),
            version: 0,
        })
    }
}

/// Decode a whole version-2 stream into the accumulator.
#[verifier::rlimit(80)]
pub fn read_v2(buf: &[u8], geodata: &mut Geodata) -> (r: Result<usize, DecodeError>)
    requires
        old(geodata).wf(),
    ensures
        (match v2_spec(buf@, old(geodata)@) {
            SpecOut::Val(v) => r matches Ok(p) && p == v.0 && final(geodata)@ == v.1
                && final(geodata).wf(),
            SpecOut::Fail { kind, field } => r matches Err(e) && e.kind == kind && e.field@
                == field && e.version == 0,
        }),
{
    let (_version, _header) = match parse_magic(buf) {
        Ok(v) => v,
        Err(e) => {
            return Err(e);
        },
    };
    let (mut pos, _map_name) = read_header_v2(buf, 23)?;
    let ghost ph = pos as int;
    let ghost gh = geodata@;
    proof {
        assert(gh == old(geodata)@);
        assert(v2_spec(buf@, old(geodata)@) == v2_entries_spec(buf@, ph, gh));
    }
    while pos < buf.len()
        invariant
            old(geodata).wf(),
            geodata.wf(),
            v2_spec(buf@, old(geodata)@) == v2_entries_spec(buf@, ph, gh),
            v2_entries_spec(buf@, ph, gh) == v2_entries_spec(buf@, pos as int, geodata@),
        decreases buf@.len() - pos,
    {
        let (entry_type, p) = match read_u16(buf, pos, "entry type") {
            Ok(v) => v,
            Err(e) => {
                return Err(e);
            },
        };
        let p = match read_u16(buf, p, "entry group") {
            Ok(v) => v.1,
            Err(e) => {
                return Err(e);
            },
        };
        let p = match read_u16(buf, p, "entry zoom") {
            Ok(v) => v.1,
            Err(e) => {
                return Err(e);
            },
        };
        let (entry_subtype, p) = match read_u16(buf, p, "entry subtype") {
            Ok(v) => v,
            Err(e) => {
                return Err(e);
            },
        };
        let (track_name, p) = if entry_subtype != 1 {
            match read_text32(buf, p, "track name") {
                Ok(v) => v,
                Err(e) => {
                    return Err(e);
                },
            }
        } else {
            (String::new(), p)
        };
        let ghost g_before = geodata@;
        let p2 = match read_v2_entries(buf, p, entry_type, &track_name, geodata) {
            Ok(v) => v,
            Err(e) => {
                return Err(e);
            },
        };
        proof {
            lemma_v2_entry_advance(buf@, p as int, entry_type, track_name@, g_before);
            assert(pos < p2 <= buf@.len());
            assert(v2_entries_spec(buf@, pos as int, g_before) == v2_entries_spec(
                buf@,
                p2 as int,
                geodata@,
            ));
        }
        pos = p2;
    }
    proof {
        assert(v2_entries_spec(buf@, pos as int, geodata@) == SpecOut::<(int, GeodataV)>::Val(
            (pos as int, geodata@),
        ));
    }
    Ok(pos)
}


//////////////////////////////////////////////////////////////////////
//            versions 3 and 4: specification
//////////////////////////////////////////////////////////////////////

/// One block header: an 8-byte preamble, label and record counts, a text
/// field and several fixed fields, then a length-prefixed map-name block
/// (used only for diagnostics; its first four bytes are an internal
/// sub-header).
pub open spec fn v34_header_spec(s: Seq<u8>, pos: int) -> SpecOut<(int, u32, u32)> {
    if pos + 8 > s.len() {
        spec_missing("unknown"@)
    } else if pos + 12 > s.len() {
        spec_missing("num labels"@)
    } else if pos + 16 > s.len() {
        spec_missing("num records"@)
    } else {
        let label_count = le32_at(s, pos + 8);
        let record_count = le32_at(s, pos + 12);
        match text16_spec(s, pos + 16, "text label"@) {
            SpecOut::Fail { kind, field } => SpecOut::Fail { kind, field },
            SpecOut::Val((_txt, p)) => {
                if p + 2 > s.len() {
                    spec_missing("unknown"@)
                } else if p + 4 > s.len() {
                    spec_missing("unknown"@)
                } else if p + 6 > s.len() {
                    spec_missing("unknown"@)
                } else if p + 8 > s.len() {
                    spec_missing("header len"@)
                } else if p + 10 > s.len() {
                    spec_missing("unknown"@)
                } else if p + 12 > s.len() {
                    spec_missing("unknown"@)
                } else {
                    let header_len = le16_at(s, p + 6) as int;
                    let q = p + 12;
                    if header_len == 0 {
                        SpecOut::Val((q, label_count, record_count))
                    } else if q + header_len > s.len() {
                        spec_missing("map name"@)
                    } else if header_len < 4 {
                        spec_missing("map name"@)
                    } else {
                        SpecOut::Val((q + header_len, label_count, record_count))
                    }
                }
            },
        }
    }
}

/// One label record: fixed header, fixed numeric field, a text field and two
/// flags.  Parsed only to advance the cursor.
pub open spec fn v34_label_spec(s: Seq<u8>, pos: int) -> SpecOut<int> {
    if pos + 8 > s.len() {
        spec_missing("label header"@)
    } else if pos + 28 > s.len() {
        spec_missing("label number"@)
    } else {
        match text16_spec(s, pos + 28, "label text"@) {
            SpecOut::Fail { kind, field } => SpecOut::Fail { kind, field },
            SpecOut::Val((_t, p)) => {
                if p + 2 > s.len() {
                    spec_missing("label flag1"@)
                } else if p + 4 > s.len() {
                    spec_missing("label flag2"@)
                } else {
                    SpecOut::Val(p + 4)
                }
            },
        }
    }
}

/// A run of `count` label records.
pub open spec fn v34_labels_spec(s: Seq<u8>, pos: int, count: int) -> SpecOut<int>
    decreases count,
{
    if count <= 0 {
        SpecOut::Val(pos)
    } else {
        match v34_label_spec(s, pos) {
            SpecOut::Val(p) => v34_labels_spec(s, p, count - 1),
            SpecOut::Fail { kind, field } => SpecOut::Fail { kind, field },
        }
    }
}

/// The common prefix of every record: nine fixed 16-bit fields and a zoom
/// field, the candidate name, and up to two optional cross-reference text
/// fields, each read only when the 16-bit marker before it is not 1.
pub open spec fn v34_common_spec(s: Seq<u8>, pos: int) -> SpecOut<(Seq<char>, int)> {
    if pos + 2 > s.len() {
        spec_missing("entry group"@)
    } else if pos + 4 > s.len() {
        spec_missing("entry prop2"@)
    } else if pos + 6 > s.len() {
        spec_missing("entry prop3"@)
    } else if pos + 8 > s.len() {
        spec_missing("entry prop4"@)
    } else if pos + 10 > s.len() {
        spec_missing("entry prop5"@)
    } else if pos + 12 > s.len() {
        spec_missing("entry prop6"@)
    } else if pos + 14 > s.len() {
        spec_missing("entry prop7"@)
    } else if pos + 16 > s.len() {
        spec_missing("entry prop8"@)
    } else if pos + 18 > s.len() {
        spec_missing("entry zoom"@)
    } else if pos + 20 > s.len() {
        spec_missing("entry prop10"@)
    } else {
        match text16_spec(s, pos + 20, "entry txt"@) {
            SpecOut::Fail { kind, field } => SpecOut::Fail { kind, field },
            SpecOut::Val((txt, p)) => {
                if p + 2 > s.len() {
                    spec_missing("entry type1"@)
                } else {
                    let type1 = le16_at(s, p);
                    let step1 = if type1 != 1 {
                        match text32_spec(s, p + 2, "entry object"@) {
                            SpecOut::Val((_o, q)) => SpecOut::Val(q),
                            SpecOut::Fail { kind, field } => SpecOut::Fail { kind, field },
                        }
                    } else {
                        SpecOut::Val(p + 2)
                    };
                    match step1 {
                        SpecOut::Fail { kind, field } => SpecOut::Fail { kind, field },
                        SpecOut::Val(p2) => {
                            if p2 + 2 > s.len() {
                                spec_missing("entry type2"@)
                            } else {
                                let type2 = le16_at(s, p2);
                                if type2 != 1 {
                                    match text32_spec(s, p2 + 2, "entry object"@) {
                                        SpecOut::Val((_o, q)) => SpecOut::Val((txt, q)),
                                        SpecOut::Fail { kind, field } => SpecOut::Fail {
                                            kind,
                                            field,
                                        },
                                    }
                                } else {
                                    SpecOut::Val((txt, p2 + 2))
                                }
                            }
                        },
                    }
                }
            },
        }
    }
}

/// One (longitude, latitude, discarded) triple per point.
pub open spec fn v34_points_spec(s: Seq<u8>, pos: int, n: int, wps: Seq<WaypointV>) -> SpecOut<
    (int, Seq<WaypointV>),
>
    decreases n,
{
    if n <= 0 {
        SpecOut::Val((pos, wps))
    } else if pos + 8 > s.len() {
        spec_missing("line lon"@)
    } else if pos + 16 > s.len() {
        spec_missing("line lat"@)
    } else if pos + 24 > s.len() {
        spec_missing("line unk"@)
    } else {
        v34_points_spec(
            s,
            pos + 24,
            n - 1,
            wps.push(wp_plain(le64_at(s, pos + 8), le64_at(s, pos), Seq::<char>::empty())),
        )
    }
}

/// The type-specific payload of one record.
pub open spec fn v34_payload_spec(
    s: Seq<u8>,
    pos: int,
    entry_type: u16,
    label: Seq<char>,
    g: GeodataV,
) -> SpecOut<(int, GeodataV)> {
    if entry_type == 2 {
        if pos + 2 > s.len() {
            spec_missing("text prop1"@)
        } else if pos + 6 > s.len() {
            spec_missing("text prop2"@)
        } else if pos + 8 > s.len() {
            spec_missing("text prop3"@)
        } else if pos + 12 > s.len() {
            spec_missing("text prop4"@)
        } else if pos + 14 > s.len() {
            spec_missing("text ltype"@)
        } else if pos + 16 > s.len() {
            spec_missing("text angle"@)
        } else if pos + 18 > s.len() {
            spec_missing("text size"@)
        } else if pos + 20 > s.len() {
            spec_missing("text area"@)
        } else if pos + 28 > s.len() {
            spec_missing("text lon"@)
        } else if pos + 36 > s.len() {
            spec_missing("text lat"@)
        } else if pos + 44 > s.len() {
            spec_missing("text unk"@)
        } else {
            let lon = le64_at(s, pos + 20);
            let lat = le64_at(s, pos + 28);
            match text16_spec(s, pos + 44, "text label"@) {
                SpecOut::Val((txt, p)) => SpecOut::Val(
                    (p, push_loose_waypoint(g, wp_plain(lat, lon, txt))),
                ),
                SpecOut::Fail { kind, field } => SpecOut::Fail { kind, field },
            }
        }
    } else if entry_type == 3 || entry_type == 4 || entry_type == 0x17 {
        if pos + 2 > s.len() {
            spec_missing("line prop1"@)
        } else if pos + 6 > s.len() {
            spec_missing("line prop2"@)
        } else if pos + 8 > s.len() {
            spec_missing("line prop3"@)
        } else if pos + 12 > s.len() {
            spec_missing("line color"@)
        } else if pos + 14 > s.len() {
            spec_missing("line size"@)
        } else if pos + 16 > s.len() {
            spec_missing("line stroke"@)
        } else if pos + 18 > s.len() {
            spec_missing("line points"@)
        } else if entry_type == 4 && pos + 20 > s.len() {
            spec_missing("line pad"@)
        } else {
            let n = le16_at(s, pos + 16) as int;
            let start = if entry_type == 4 { pos + 20 } else { pos + 18 };
            match v34_points_spec(s, start, n, Seq::<WaypointV>::empty()) {
                SpecOut::Val((p, pts)) => SpecOut::Val(
                    (p, push_track(g, WaypointListV { waypoints: pts, name: label })),
                ),
                SpecOut::Fail { kind, field } => SpecOut::Fail { kind, field },
            }
        }
    } else if entry_type == 5 || entry_type == 6 || entry_type == 7 {
        if pos + 2 > s.len() {
            spec_missing("circle prop1"@)
        } else if pos + 6 > s.len() {
            spec_missing("circle prop2"@)
        } else if pos + 8 > s.len() {
            spec_missing("circle prop3"@)
        } else if pos + 12 > s.len() {
            spec_missing("circle color"@)
        } else if pos + 16 > s.len() {
            spec_missing("circle prop5"@)
        } else if pos + 20 > s.len() {
            spec_missing("circle prop6"@)
        } else if pos + 22 > s.len() {
            spec_missing("circle ltype"@)
        } else if pos + 24 > s.len() {
            spec_missing("circle angle"@)
        } else if pos + 26 > s.len() {
            spec_missing("circle size"@)
        } else if pos + 28 > s.len() {
            spec_missing("circle area"@)
        } else if pos + 36 > s.len() {
            spec_missing("circle lon"@)
        } else if pos + 44 > s.len() {
            spec_missing("circle lat"@)
        } else if pos + 52 > s.len() {
            spec_missing("circle unk"@)
        } else {
            SpecOut::Val((pos + 52, g))
        }
    } else if entry_type == 9 {
        if pos + 2 > s.len() {
            spec_missing("bmp prop1"@)
        } else if pos + 6 > s.len() {
            spec_missing("bmp prop2"@)
        } else if pos + 8 > s.len() {
            spec_missing("bmp prop3"@)
        } else if pos + 12 > s.len() {
            spec_missing("bmp prop4"@)
        } else if pos + 16 > s.len() {
            spec_missing("bmp prop5"@)
        } else if pos + 20 > s.len() {
            spec_missing("bmp prop6"@)
        } else if pos + 28 > s.len() {
            spec_missing("bmp lon"@)
        } else if pos + 36 > s.len() {
            spec_missing("bmp lat"@)
        } else if pos + 44 > s.len() {
            spec_missing("bmp unk"@)
        } else if pos + 48 > s.len() {
            spec_missing("bmp len"@)
        } else {
            let n = le32_at(s, pos + 44) as int;
            if n > MAX_TEXT_LEN {
                SpecOut::Fail { kind: DecodeErrorKind::FieldTooLarge, field: "bmp len"@ }
            } else if pos + 50 > s.len() {
                spec_missing("bmp prop"@)
            } else if pos + 50 + n > s.len() {
                spec_missing("bmp data"@)
            } else {
                SpecOut::Val((pos + 50 + n, attach_bitmap(g, s.subrange(pos + 50, pos + 50 + n))))
            }
        }
    } else {
        SpecOut::Fail {
            kind: DecodeErrorKind::UnsupportedEntryType { code: entry_type },
            field: "entry type"@,
        }
    }
}

/// One record: its type code, the common prefix, then the payload.
pub open spec fn v34_record_spec(s: Seq<u8>, pos: int, g: GeodataV) -> SpecOut<(int, GeodataV)> {
    if pos + 2 > s.len() {
        spec_missing("entry type"@)
    } else {
        let entry_type = le16_at(s, pos);
        match v34_common_spec(s, pos + 2) {
            SpecOut::Fail { kind, field } => SpecOut::Fail { kind, field },
            SpecOut::Val((label, p)) => v34_payload_spec(s, p, entry_type, label, g),
        }
    }
}

/// A run of `count` records.
pub open spec fn v34_records_spec(s: Seq<u8>, pos: int, count: int, g: GeodataV) -> SpecOut<
    (int, GeodataV),
>
    decreases count,
{
    if count <= 0 {
        SpecOut::Val((pos, g))
    } else {
        match v34_record_spec(s, pos, g) {
            SpecOut::Val((p, g2)) => v34_records_spec(s, p, count - 1, g2),
            SpecOut::Fail { kind, field } => SpecOut::Fail { kind, field },
        }
    }
}

proof fn lemma_v34_header_advance(s: Seq<u8>, pos: int)
    requires
        pos <= s.len(),
    ensures
        (v34_header_spec(s, pos) matches SpecOut::Val(v) ==> pos + 30 <= v.0 <= s.len()),
{
}

proof fn lemma_v34_labels_advance(s: Seq<u8>, pos: int, count: int)
    requires
        pos <= s.len(),
    ensures
        (v34_labels_spec(s, pos, count) matches SpecOut::Val(p) ==> pos <= p <= s.len()),
    decreases count,
{
    if count > 0 {
        if let SpecOut::Val(p) = v34_label_spec(s, pos) {
            lemma_v34_labels_advance(s, p, count - 1);
        }
    }
}

proof fn lemma_v34_points_advance(s: Seq<u8>, pos: int, n: int, wps: Seq<WaypointV>)
    requires
        pos <= s.len(),
    ensures
        (v34_points_spec(s, pos, n, wps) matches SpecOut::Val(v) ==> pos <= v.0 <= s.len()),
    decreases n,
{
    if n > 0 && pos + 24 <= s.len() {
        lemma_v34_points_advance(
            s,
            pos + 24,
            n - 1,
            wps.push(wp_plain(le64_at(s, pos + 8), le64_at(s, pos), Seq::<char>::empty())),
        );
    }
}

proof fn lemma_v34_record_advance(s: Seq<u8>, pos: int, g: GeodataV)
    requires
        pos <= s.len(),
    ensures
        (v34_record_spec(s, pos, g) matches SpecOut::Val(v) ==> pos <= v.0 <= s.len()),
{
    if pos + 2 <= s.len() {
        let entry_type = le16_at(s, pos);
        if let SpecOut::Val((label, p)) = v34_common_spec(s, pos + 2) {
            assert(pos + 2 <= p <= s.len());
            if entry_type == 3 || entry_type == 4 || entry_type == 0x17 {
                if p + 18 <= s.len() && (entry_type != 4 || p + 20 <= s.len()) {
                    let n = le16_at(s, p + 16) as int;
                    let start = if entry_type == 4 { p + 20 } else { p + 18 };
                    lemma_v34_points_advance(s, start, n, Seq::<WaypointV>::empty());
                }
            }
        }
    }
}

proof fn lemma_v34_records_advance(s: Seq<u8>, pos: int, count: int, g: GeodataV)
    requires
        pos <= s.len(),
    ensures
        (v34_records_spec(s, pos, count, g) matches SpecOut::Val(v) ==> pos <= v.0 <= s.len()),
    decreases count,
{
    if count > 0 {
        lemma_v34_record_advance(s, pos, g);
        if let SpecOut::Val((p, g2)) = v34_record_spec(s, pos, g) {
            lemma_v34_records_advance(s, p, count - 1, g2);
        }
    }
}

/// The outer loop of a version-3/4 stream: blocks until the buffer is empty,
/// each separated by a fixed 23-byte span that is skipped without
/// validation.
pub open spec fn v34_blocks_spec(s: Seq<u8>, pos: int, g: GeodataV) -> SpecOut<(int, GeodataV)>
    decreases s.len() - pos,
    via v34_blocks_spec_dec
{
    if pos >= s.len() {
        SpecOut::Val((pos, g))
    } else {
        match v34_header_spec(s, pos) {
            SpecOut::Fail { kind, field } => SpecOut::Fail { kind, field },
            SpecOut::Val((p, label_count, record_count)) => match v34_labels_spec(
                s,
                p,
                label_count as int,
            ) {
                SpecOut::Fail { kind, field } => SpecOut::Fail { kind, field },
                SpecOut::Val(p2) => match v34_records_spec(s, p2, record_count as int, g) {
                    SpecOut::Fail { kind, field } => SpecOut::Fail { kind, field },
                    SpecOut::Val((p3, g3)) => {
                        if p3 >= s.len() {
                            SpecOut::Val((p3, g3))
                        } else if p3 + 23 > s.len() {
                            spec_missing("magicbytes"@)
                        } else {
                            v34_blocks_spec(s, p3 + 23, g3)
                        }
                    },
                },
            },
        }
    }
}

#[via_fn]
proof fn v34_blocks_spec_dec(s: Seq<u8>, pos: int, g: GeodataV) {
    if pos < s.len() {
        lemma_v34_header_advance(s, pos);
        if let SpecOut::Val((p, label_count, record_count)) = v34_header_spec(s, pos) {
            lemma_v34_labels_advance(s, p, label_count as int);
            if let SpecOut::Val(p2) = v34_labels_spec(s, p, label_count as int) {
                lemma_v34_records_advance(s, p2, record_count as int, g);
            }
        }
    }
}

/// The whole version-3/4 stream: magic, then blocks.
pub open spec fn v34_spec(s: Seq<u8>, g: GeodataV) -> SpecOut<(int, GeodataV)> {
    if !is_magic(s) {
        SpecOut::Fail { kind: DecodeErrorKind::LiteralMismatch, field: "magic"@ }
    } else {
        v34_blocks_spec(s, 23, g)
    }
}


//////////////////////////////////////////////////////////////////////
//            versions 3 and 4: executable decoder
//////////////////////////////////////////////////////////////////////

/// Decode one block header, returning the position behind it and the label
/// and record counts.
fn read_header_v34(buf: &[u8], pos: usize) -> (r: Result<(usize, u32, u32), DecodeError>)
    ensures
        (match v34_header_spec(buf@, pos as int) {
            SpecOut::Val(v) => r matches Ok(o) && o.0 == v.0 && o.1 == v.1 && o.2 == v.2,
            SpecOut::Fail { kind, field } => r matches Err(e) && e.kind == kind && e.field@
                == field && e.version == 0,
        }),
{
    let p = skip_bytes(buf, pos, 8, "unknown")?;
    let (label_count, p) = read_u32(buf, p, "num labels")?;
    let (record_count, p) = read_u32(buf, p, "num records")?;
    let (_block_label, p) = read_text16(buf, p, "text label")?;
    let p = read_u16(buf, p, "unknown")?.1;
    let p = read_u16(buf, p, "unknown")?.1;
    let p = read_u16(buf, p, "unknown")?.1;
    let (header_len, p) = read_u16(buf, p, "header len")?;
    let p = read_u16(buf, p, "unknown")?.1;
    let p = read_u16(buf, p, "unknown")?.1;
    if header_len == 0 {
        return Ok((p, label_count, record_count));
    }
    let (map_name, p) = take_bytes(buf, p, header_len as usize, "map name")?;
    // The block carries a 4-byte internal sub-header before the
    // diagnostics-only, NUL-truncated map name.
    if map_name.len() < 4 {
        return Err(DecodeError {
            kind: DecodeErrorKind::InsufficientData,
            field: String::from_str("map name"),
            version: 0,
        });
    }
    Ok((p, label_count, record_count))
}

/// Walk one label record (fully parsed for cursor advancement, not
/// retained).
fn read_label_v34(buf: &[u8], pos: usize) -> (r: Result<usize, DecodeError>)
    ensures
        (match v34_label_spec(buf@, pos as int) {
            SpecOut::Val(v) => r matches Ok(p) && p == v,
            SpecOut::Fail { kind, field } => r matches Err(e) && e.kind == kind && e.field@
                == field && e.version == 0,
        }),
{
    let p = skip_bytes(buf, pos, 8, "label header")?;
    let p = skip_bytes(buf, p, 20, "label number")?;
    let (_text, p) = read_text16(buf, p, "label text")?;
    let p = read_u16(buf, p, "label flag1")?.1;
    let p = read_u16(buf, p, "label flag2")?.1;
    Ok(p)
}

/// Decode the common prefix of one record, returning the candidate name.
fn read_common_v34(buf: &[u8], pos: usize) -> (r: Result<(String, usize), DecodeError>)
    ensures
        (match v34_common_spec(buf@, pos as int) {
            SpecOut::Val(v) => r matches Ok(o) && o.0@ == v.0 && o.1 == v.1,
            SpecOut::Fail { kind, field } => r matches Err(e) && e.kind == kind && e.field@
                == field && e.version == 0,
        }),
{
    let p = read_u16(buf, pos, "entry group")?.1;
    let p = read_u16(buf, p, "entry prop2")?.1;
    let p = read_u16(buf, p, "entry prop3")?.1;
    let p = read_u16(buf, p, "entry prop4")?.1;
    let p = read_u16(buf, p, "entry prop5")?.1;
    let p = read_u16(buf, p, "entry prop6")?.1;
    let p = read_u16(buf, p, "entry prop7")?.1;
    let p = read_u16(buf, p, "entry prop8")?.1;
    let p = read_u16(buf, p, "entry zoom")?.1;
    let p = read_u16(buf, p, "entry prop10")?.1;
    let (entry_text, p) = read_text16(buf, p, "entry txt")?;
    let (entry_type1, p) = read_u16(buf, p, "entry type1")?;
    let p = if entry_type1 != 1 {
        read_text32(buf, p, "entry object")?.1
    } else {
        p
    };
    let (entry_type2, p) = read_u16(buf, p, "entry type2")?;
    let p = if entry_type2 != 1 {
        read_text32(buf, p, "entry object")?.1
    } else {
        p
    };
    Ok((entry_text, p))
}

/// Decode one record payload into the accumulator.
fn read_payload_v34(
    buf: &[u8],
    pos: usize,
    entry_type: u16,
    label: &String,
    geodata: &mut Geodata,
) -> (r: Result<usize, DecodeError>)
    requires
        old(geodata).wf(),
    ensures
        (match v34_payload_spec(buf@, pos as int, entry_type, label@, old(geodata)@) {
            SpecOut::Val(v) => r matches Ok(p) && p == v.0 && final(geodata)@ == v.1
                && final(geodata).wf(),
            SpecOut::Fail { kind, field } => r matches Err(e) && e.kind == kind && e.field@
                == field && e.version == 0,
        }),
{
    if entry_type == 2 {
        let p = read_u16(buf, pos, "text prop1")?.1;
        let p = read_u32(buf, p, "text prop2")?.1;
        let p = read_u16(buf, p, "text prop3")?.1;
        let p = read_u32(buf, p, "text prop4")?.1;
        let p = read_u16(buf, p, "text ltype")?.1;
        let p = read_u16(buf, p, "text angle")?.1;
        let p = read_u16(buf, p, "text size")?.1;
        let p = read_u16(buf, p, "text area")?.1;
        let (lon, p) = read_double_bits(buf, p, "text lon")?;
        let (lat, p) = read_double_bits(buf, p, "text lat")?;
        let p = read_double_bits(buf, p, "text unk")?.1;
        let (txt, p) = read_text16(buf, p, "text label")?;
        geodata.add_waypoint(Waypoint::new().with_lat(lat).with_lon(lon).with_name(txt.as_str()));
        Ok(p)
    } else if entry_type == 3 || entry_type == 4 || entry_type == 0x17 {
        let p = read_u16(buf, pos, "line prop1")?.1;
        let p = read_u32(buf, p, "line prop2")?.1;
        let p = read_u16(buf, p, "line prop3")?.1;
        let p = read_u32(buf, p, "line color")?.1;
        let p = read_u16(buf, p, "line size")?.1;
        let p = read_u16(buf, p, "line stroke")?.1;
        let (line_points, p) = read_u16(buf, p, "line points")?;
        let p = if entry_type == 4 {
            // a padding field seen in files written by the legacy viewer
            read_u16(buf, p, "line pad")?.1
        } else {
            p
        };
        let mut track = WaypointList::new();
        if !label.as_str().is_empty() {
            track.set_name(label.as_str());
        }
        proof {
            assert(track@.name =~= label@);
            assert(track@.waypoints =~= Seq::<WaypointV>::empty());
        }
        let ghost p0 = p as int;
        let mut pos2: usize = p;
        let mut k: u16 = 0;
        while k < line_points
            invariant
                k <= line_points,
                entry_type == 3 || entry_type == 4 || entry_type == 0x17,
                pos + 18 <= buf@.len(),
                entry_type == 4 ==> pos + 20 <= buf@.len(),
                p0 == if entry_type == 4 { pos + 20 } else { pos + 18 },
                line_points == le16_at(buf@, pos + 16),
                track@.name == label@,
                geodata@ == old(geodata)@,
                geodata.wf(),
                old(geodata).wf(),
                v34_points_spec(buf@, p0, line_points as int, Seq::<WaypointV>::empty())
                    == v34_points_spec(
                    buf@,
                    pos2 as int,
                    (line_points - k) as int,
                    track@.waypoints,
                ),
            decreases line_points - k,
        {
            let (lon, q) = match read_double_bits(buf, pos2, "line lon") {
                Ok(v) => v,
                Err(e) => {
                    return Err(e);
                },
            };
            let (lat, q) = match read_double_bits(buf, q, "line lat") {
                Ok(v) => v,
                Err(e) => {
                    return Err(e);
                },
            };
            let q = match read_double_bits(buf, q, "line unk") {
                Ok(v) => v.1,
                Err(e) => {
                    return Err(e);
                },
            };
            track.add_waypoint(Waypoint::new().with_lat(lat).with_lon(lon));
            proof {
                assert(wp_plain(lat, lon, Seq::<char>::empty()) == (WaypointV {
                    latitude: lat,
                    longitude: lon,
                    elevation: None::<u64>,
                    name: Seq::<char>::empty(),
                }));
            }
            pos2 = q;
            k = k + 1;
        }
        let ghost tv = track@;
        geodata.add_track(track);
        proof {
            assert(geodata@ == push_track(
                old(geodata)@,
                WaypointListV { waypoints: tv.waypoints, name: label@ },
            ));
        }
        Ok(pos2)
    } else if entry_type == 5 || entry_type == 6 || entry_type == 7 {
        let p = read_u16(buf, pos, "circle prop1")?.1;
        let p = read_u32(buf, p, "circle prop2")?.1;
        let p = read_u16(buf, p, "circle prop3")?.1;
        let p = read_u32(buf, p, "circle color")?.1;
        let p = read_u32(buf, p, "circle prop5")?.1;
        let p = read_u32(buf, p, "circle prop6")?.1;
        let p = read_u16(buf, p, "circle ltype")?.1;
        let p = read_u16(buf, p, "circle angle")?.1;
        let p = read_u16(buf, p, "circle size")?.1;
        let p = read_u16(buf, p, "circle area")?.1;
        let p = read_double_bits(buf, p, "circle lon")?.1;
        let p = read_double_bits(buf, p, "circle lat")?.1;
        let p = read_double_bits(buf, p, "circle unk")?.1;
        Ok(p)
    } else if entry_type == 9 {
        let p = read_u16(buf, pos, "bmp prop1")?.1;
        let p = read_u32(buf, p, "bmp prop2")?.1;
        let p = read_u16(buf, p, "bmp prop3")?.1;
        let p = read_u32(buf, p, "bmp prop4")?.1;
        let p = read_u32(buf, p, "bmp prop5")?.1;
        let p = read_u32(buf, p, "bmp prop6")?.1;
        let p = read_double_bits(buf, p, "bmp lon")?.1;
        let p = read_double_bits(buf, p, "bmp lat")?.1;
        let p = read_double_bits(buf, p, "bmp unk")?.1;
        let (bmp_len, p) = read_u32(buf, p, "bmp len")?;
        if bmp_len > MAX_TEXT_LEN {
            return Err(DecodeError {
                kind: DecodeErrorKind::FieldTooLarge,
                field: String::from_str("bmp len"),
                version: 0,
            });
        }
        let p = read_u16(buf, p, "bmp prop")?.1;
        let (blob, p) = take_bytes(buf, p, bmp_len as usize, "bmp data")?;
        if let Some(data) = build_bitmap_file(&blob) {
            geodata.add_data("bmp", data);
        }
        Ok(p)
    } else {
        Err(DecodeError {
            kind: DecodeErrorKind::UnsupportedEntryType { code: entry_type },
            field: String::from_str("entry type"),
            version: 0,
        })
    }
}

/// Decode one record into the accumulator.
fn read_record_v34(buf: &[u8], pos: usize, geodata: &mut Geodata) -> (r: Result<
    usize,
    DecodeError,
>)
    requires
        old(geodata).wf(),
    ensures
        (match v34_record_spec(buf@, pos as int, old(geodata)@) {
            SpecOut::Val(v) => r matches Ok(p) && p == v.0 && final(geodata)@ == v.1
                && final(geodata).wf(),
            SpecOut::Fail { kind, field } => r matches Err(e) && e.kind == kind && e.field@
                == field && e.version == 0,
        }),
{
    let (entry_type, p) = read_u16(buf, pos, "entry type")?;
    let (label, p) = read_common_v34(buf, p)?;
    read_payload_v34(buf, p, entry_type, &label, geodata)
}

/// Decode a whole version-3/4 stream into the accumulator.
#[verifier::rlimit(80)]
pub fn read_v34(buf: &[u8], geodata: &mut Geodata) -> (r: Result<usize, DecodeError>)
    requires
        old(geodata).wf(),
    ensures
        (match v34_spec(buf@, old(geodata)@) {
            SpecOut::Val(v) => r matches Ok(p) && p == v.0 && final(geodata)@ == v.1
                && final(geodata).wf(),
            SpecOut::Fail { kind, field } => r matches Err(e) && e.kind == kind && e.field@
                == field && e.version == 0,
        }),
{
    let (_version, _header) = match parse_magic(buf) {
        Ok(v) => v,
        Err(e) => {
            return Err(e);
        },
    };
    let mut pos: usize = 23;
    let ghost ph = pos as int;
    let ghost gh = geodata@;
    proof {
        assert(gh == old(geodata)@);
        assert(v34_spec(buf@, old(geodata)@) == v34_blocks_spec(buf@, ph, gh));
    }
    while pos < buf.len()
        invariant
            old(geodata).wf(),
            geodata.wf(),
            v34_spec(buf@, old(geodata)@) == v34_blocks_spec(buf@, ph, gh),
            v34_blocks_spec(buf@, ph, gh) == v34_blocks_spec(buf@, pos as int, geodata@),
        decreases buf@.len() - pos,
    {
        let ghost posb = pos as int;
        let ghost gblock = geodata@;
        let (p, label_count, record_count) = match read_header_v34(buf, pos) {
            Ok(v) => v,
            Err(e) => {
                return Err(e);
            },
        };
        let mut p2: usize = p;
        let mut k: u32 = 0;
        while k < label_count
            invariant
                k <= label_count,
                posb < buf@.len(),
                old(geodata).wf(),
                geodata.wf(),
                geodata@ == gblock,
                v34_spec(buf@, old(geodata)@) == v34_blocks_spec(buf@, ph, gh),
                v34_blocks_spec(buf@, ph, gh) == v34_blocks_spec(buf@, posb, gblock),
                v34_header_spec(buf@, posb) == SpecOut::<(int, u32, u32)>::Val(
                    (p as int, label_count, record_count),
                ),
                v34_labels_spec(buf@, p as int, label_count as int) == v34_labels_spec(
                    buf@,
                    p2 as int,
                    (label_count - k) as int,
                ),
            decreases label_count - k,
        {
            let pn = match read_label_v34(buf, p2) {
                Ok(v) => v,
                Err(e) => {
                    return Err(e);
                },
            };
            p2 = pn;
            k = k + 1;
        }
        let ghost p2g = p2 as int;
        let mut p3: usize = p2;
        let mut j: u32 = 0;
        while j < record_count
            invariant
                j <= record_count,
                posb < buf@.len(),
                old(geodata).wf(),
                geodata.wf(),
                v34_spec(buf@, old(geodata)@) == v34_blocks_spec(buf@, ph, gh),
                v34_blocks_spec(buf@, ph, gh) == v34_blocks_spec(buf@, posb, gblock),
                v34_header_spec(buf@, posb) == SpecOut::<(int, u32, u32)>::Val(
                    (p as int, label_count, record_count),
                ),
                v34_labels_spec(buf@, p as int, label_count as int) == SpecOut::<int>::Val(p2g),
                v34_records_spec(buf@, p2g, record_count as int, gblock) == v34_records_spec(
                    buf@,
                    p3 as int,
                    (record_count - j) as int,
                    geodata@,
                ),
            decreases record_count - j,
        {
            let ghost g_before = geodata@;
            let pn = match read_record_v34(buf, p3, geodata) {
                Ok(v) => v,
                Err(e) => {
                    return Err(e);
                },
            };
            proof {
                assert(v34_records_spec(
                    buf@,
                    p3 as int,
                    (record_count - j) as int,
                    g_before,
                ) == v34_records_spec(buf@, pn as int, (record_count - j - 1) as int, geodata@));
            }
            p3 = pn;
            j = j + 1;
        }
        proof {
            lemma_v34_header_advance(buf@, posb);
            lemma_v34_labels_advance(buf@, p as int, label_count as int);
            lemma_v34_records_advance(buf@, p2g, record_count as int, gblock);
            assert(posb < p3 <= buf@.len());
        }
        if p3 < buf.len() {
            let pn = match skip_bytes(buf, p3, 23, "magicbytes") {
                Ok(v) => v,
                Err(e) => {
                    return Err(e);
                },
            };
            pos = pn;
        } else {
            pos = p3;
        }
    }
    proof {
        assert(v34_blocks_spec(buf@, pos as int, geodata@) == SpecOut::<(int, GeodataV)>::Val(
            (pos as int, geodata@),
        ));
    }
    Ok(pos)
}



//////////////////////////////////////////////////////////////////////
//            the verbosity level never changes the result
//////////////////////////////////////////////////////////////////////

/// The same accumulator with another verbosity level.
pub open spec fn with_dbg(g: GeodataV, d: u8) -> GeodataV {
    GeodataV { debug: d, ..g }
}

proof fn lemma_v2_entry_dbg(
    s: Seq<u8>,
    pos: int,
    entry_type: u16,
    track_name: Seq<char>,
    g: GeodataV,
    d: u8,
)
    ensures
        v2_entry_spec(s, pos, entry_type, track_name, with_dbg(g, d)) == (match v2_entry_spec(
            s,
            pos,
            entry_type,
            track_name,
            g,
        ) {
            SpecOut::Val((p, g2)) => SpecOut::Val((p, with_dbg(g2, d))),
            SpecOut::Fail { kind, field } => SpecOut::Fail { kind, field },
        }),
{
}

proof fn lemma_v2_entries_dbg(s: Seq<u8>, pos: int, g: GeodataV, d: u8)
    ensures
        v2_entries_spec(s, pos, with_dbg(g, d)) == (match v2_entries_spec(s, pos, g) {
            SpecOut::Val((p, g2)) => SpecOut::Val((p, with_dbg(g2, d))),
            SpecOut::Fail { kind, field } => SpecOut::Fail { kind, field },
        }),
    decreases s.len() - pos,
{
    if pos < s.len() && pos + 8 <= s.len() {
        let entry_type = le16_at(s, pos);
        let subtype = le16_at(s, pos + 6);
        let named = if subtype != 1 {
            text32_spec(s, pos + 8, "track name"@)
        } else {
            SpecOut::Val((Seq::<char>::empty(), pos + 8))
        };
        if let SpecOut::Val((track_name, p)) = named {
            lemma_v2_entry_dbg(s, p, entry_type, track_name, g, d);
            lemma_v2_entry_advance(s, p, entry_type, track_name, g);
            if let SpecOut::Val((p2, g2)) = v2_entry_spec(s, p, entry_type, track_name, g) {
                lemma_v2_entries_dbg(s, p2, g2, d);
            }
        }
    }
}

proof fn lemma_v34_payload_dbg(
    s: Seq<u8>,
    pos: int,
    entry_type: u16,
    label: Seq<char>,
    g: GeodataV,
    d: u8,
)
    ensures
        v34_payload_spec(s, pos, entry_type, label, with_dbg(g, d)) == (match v34_payload_spec(
            s,
            pos,
            entry_type,
            label,
            g,
        ) {
            SpecOut::Val((p, g2)) => SpecOut::Val((p, with_dbg(g2, d))),
            SpecOut::Fail { kind, field } => SpecOut::Fail { kind, field },
        }),
{
}

proof fn lemma_v34_record_dbg(s: Seq<u8>, pos: int, g: GeodataV, d: u8)
    ensures
        v34_record_spec(s, pos, with_dbg(g, d)) == (match v34_record_spec(s, pos, g) {
            SpecOut::Val((p, g2)) => SpecOut::Val((p, with_dbg(g2, d))),
            SpecOut::Fail { kind, field } => SpecOut::Fail { kind, field },
        }),
{
    if pos + 2 <= s.len() {
        let entry_type = le16_at(s, pos);
        if let SpecOut::Val((label, p)) = v34_common_spec(s, pos + 2) {
            lemma_v34_payload_dbg(s, p, entry_type, label, g, d);
        }
    }
}

proof fn lemma_v34_records_dbg(s: Seq<u8>, pos: int, count: int, g: GeodataV, d: u8)
    ensures
        v34_records_spec(s, pos, count, with_dbg(g, d)) == (match v34_records_spec(
            s,
            pos,
            count,
            g,
        ) {
            SpecOut::Val((p, g2)) => SpecOut::Val((p, with_dbg(g2, d))),
            SpecOut::Fail { kind, field } => SpecOut::Fail { kind, field },
        }),
    decreases count,
{
    if count > 0 {
        lemma_v34_record_dbg(s, pos, g, d);
        if let SpecOut::Val((p, g2)) = v34_record_spec(s, pos, g) {
            lemma_v34_records_dbg(s, p, count - 1, g2, d);
        }
    }
}

proof fn lemma_v34_blocks_dbg(s: Seq<u8>, pos: int, g: GeodataV, d: u8)
    ensures
        v34_blocks_spec(s, pos, with_dbg(g, d)) == (match v34_blocks_spec(s, pos, g) {
            SpecOut::Val((p, g2)) => SpecOut::Val((p, with_dbg(g2, d))),
            SpecOut::Fail { kind, field } => SpecOut::Fail { kind, field },
        }),
    decreases s.len() - pos,
{
    if pos < s.len() {
        if let SpecOut::Val((p, label_count, record_count)) = v34_header_spec(s, pos) {
            lemma_v34_header_advance(s, pos);
            if let SpecOut::Val(p2) = v34_labels_spec(s, p, label_count as int) {
                lemma_v34_labels_advance(s, p, label_count as int);
                lemma_v34_records_dbg(s, p2, record_count as int, g, d);
                lemma_v34_records_advance(s, p2, record_count as int, g);
                if let SpecOut::Val((p3, g3)) = v34_records_spec(
                    s,
                    p2,
                    record_count as int,
                    g,
                ) {
                    if p3 < s.len() && p3 + 23 <= s.len() {
                        lemma_v34_blocks_dbg(s, p3 + 23, g3, d);
                    }
                }
            }
        }
    }
}

/// Law: the verbosity level is configuration for diagnostics alone.  Two
/// decodes of the same bytes at different levels agree on every decoded
/// entry, every error, and everything else but the stored level itself.
pub proof fn lemma_debug_level_never_changes_decode(s: Seq<u8>, d1: u8, d2: u8)
    ensures
        v2_spec(s, initial_geodata(d1)) == (match v2_spec(s, initial_geodata(d2)) {
            SpecOut::Val((p, g)) => SpecOut::Val((p, with_dbg(g, d1))),
            SpecOut::Fail { kind, field } => SpecOut::Fail { kind, field },
        }),
        v34_spec(s, initial_geodata(d1)) == (match v34_spec(s, initial_geodata(d2)) {
            SpecOut::Val((p, g)) => SpecOut::Val((p, with_dbg(g, d1))),
            SpecOut::Fail { kind, field } => SpecOut::Fail { kind, field },
        }),
{
    assert(initial_geodata(d1) == with_dbg(initial_geodata(d2), d1));
    if is_magic(s) {
        match v2_header_spec(s, 23) {
            SpecOut::Val((p, _name)) => {
                lemma_v2_entries_dbg(s, p, initial_geodata(d2), d1);
            },
            SpecOut::Fail { .. } => {},
        }
        lemma_v34_blocks_dbg(s, 23, initial_geodata(d2), d1);
    }
}

//////////////////////////////////////////////////////////////////////
//            format handle
//////////////////////////////////////////////////////////////////////

/// Give a decode failure the format version it belongs to.
fn with_version(e: DecodeError, version: u8) -> (r: DecodeError)
    ensures
        r.kind == e.kind,
        r.field@ == e.field@,
        r.version == version,
{
    DecodeError { version, ..e }
}

/// The binary overlay format handle: probe, full decode, and capability
/// flags.  The verbosity level is plain injected configuration; it never
/// changes the decoded result.
pub struct GgvBinFormat {
    debug: u8,
}

impl View for GgvBinFormat {
    type V = u8;

    closed spec fn view(&self) -> u8 {
        self.debug
    }
}

impl GgvBinFormat {
    pub fn new() -> (r: Self)
        ensures
            r@ == 0,
    {
        Self { debug: 0 }
    }

    /// Cheap, side-effect-free format sniff: exactly the magic-signature
    /// match, true for version digits 2, 3 and 4 and false for every other
    /// prefix.
    pub fn probe(&self, buf: &[u8]) -> (r: bool)
        ensures
            r == is_magic(buf@),
    {
        match parse_magic(buf) {
            Ok(_) => true,
            _ => false,
        }
    }

    /// Full decode: version detection, then the version-specific record
    /// grammar, populating a fresh accumulator.  On failure the error
    /// carries the detected version, or 0 when detection itself failed.
    pub fn read(&self, buf: &[u8]) -> (r: Result<Geodata, DecodeError>)
        ensures
            !is_magic(buf@) ==> (r matches Err(e) && e.kind == DecodeErrorKind::LiteralMismatch
                && e.field@ == "magic"@ && e.version == 0),
            is_magic(buf@) && magic_version(buf@) == 2 ==> (match v2_spec(
                buf@,
                initial_geodata(self@),
            ) {
                SpecOut::Val(v) => r matches Ok(g) && g@ == v.1 && g.wf(),
                SpecOut::Fail { kind, field } => r matches Err(e) && e.kind == kind && e.field@
                    == field && e.version == 2,
            }),
            is_magic(buf@) && (magic_version(buf@) == 3 || magic_version(buf@) == 4) ==> (
            match v34_spec(buf@, initial_geodata(self@)) {
                SpecOut::Val(v) => r matches Ok(g) && g@ == v.1 && g.wf(),
                SpecOut::Fail { kind, field } => r matches Err(e) && e.kind == kind && e.field@
                    == field && e.version == magic_version(buf@),
            }),
    {
        let mut geodata = Geodata::new().with_debug(self.debug);
        proof {
            assert(geodata@ == initial_geodata(self@));
        }
        let ver: u8 = match parse_magic(buf) {
            Ok(v) => v.0,
            _ => 0,
        };
        if ver == 2 {
            match read_v2(buf, &mut geodata) {
                Ok(_) => Ok(geodata),
                Err(e) => Err(with_version(e, 2)),
            }
        } else if ver == 3 || ver == 4 {
            match read_v34(buf, &mut geodata) {
                Ok(_) => Ok(geodata),
                Err(e) => Err(with_version(e, ver)),
            }
        } else {
            Err(magic_mismatch())
        }
    }

    /// Writing the binary overlay format is not supported.
    pub fn write(&self, _geodata: &Geodata) -> (r: Result<String, CustomError>)
        ensures
            (r matches Err(e) && e@ == "not implemented: ggv_bin write support"@),
    {
        Err(CustomError::new("not implemented: ggv_bin write support"))
    }

    pub fn name(&self) -> (r: &'static str)
        ensures
            r@ == "ggv_bin"@,
    {
        "ggv_bin"
    }

    pub fn can_read(&self) -> (r: bool)
        ensures
            r,
    {
        true
    }

    pub fn can_write(&self) -> (r: bool)
        ensures
            !r,
    {
        false
    }

    pub fn set_debug(&mut self, debug: u8)
        ensures
            final(self)@ == debug,
    {
        self.debug = debug;
    }

    pub fn debug(&self) -> (r: u8)
        ensures
            r == self@,
    {
        self.debug
    }
}


} // verus!
