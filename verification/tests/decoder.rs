use ggvtogpx::error::DecodeErrorKind;
use ggvtogpx::geodata::Geodata;
use ggvtogpx::ggv_bin::GgvBinFormat;

fn push_u16(v: &mut Vec<u8>, x: u16) {
    v.extend_from_slice(&x.to_le_bytes());
}

fn push_u32(v: &mut Vec<u8>, x: u32) {
    v.extend_from_slice(&x.to_le_bytes());
}

fn push_f64(v: &mut Vec<u8>, x: f64) {
    v.extend_from_slice(&x.to_bits().to_le_bytes());
}

fn magic(ver: u8) -> Vec<u8> {
    let mut v = format!("DOMGVCRD Ovlfile V{}.0:", ver).into_bytes();
    v.push(0);
    v
}

/// A version-2 stream: magic, empty name block, then the given entries.
fn v2_stream(entries: &[u8]) -> Vec<u8> {
    let mut v = magic(2);
    push_u16(&mut v, 0);
    v.extend_from_slice(entries);
    v
}

/// Entry header for version 2: type, group, zoom, subtype.
fn v2_entry_header(v: &mut Vec<u8>, entry_type: u16, subtype: u16) {
    push_u16(v, entry_type);
    push_u16(v, 0);
    push_u16(v, 0);
    push_u16(v, subtype);
}

fn v2_text_entry(label: &[u8]) -> Vec<u8> {
    let mut e = Vec::new();
    v2_entry_header(&mut e, 2, 1);
    for _ in 0..5 {
        push_u16(&mut e, 0);
    }
    push_f64(&mut e, 13.0);
    push_f64(&mut e, 52.0);
    push_u16(&mut e, label.len() as u16);
    e.extend_from_slice(label);
    e
}

fn read_v2_label(label: &[u8]) -> String {
    let geodata = GgvBinFormat::new().read(&v2_stream(&v2_text_entry(label))).unwrap();
    assert_eq!(geodata.waypoints_len(), 1);
    geodata.waypoints().waypoints()[0].name()
}

#[test]
fn v2_single_waypoint() {
    let buf = v2_stream(&v2_text_entry(b"Berlin"));
    let geodata = GgvBinFormat::new().read(&buf).unwrap();
    assert_eq!(geodata.waypoints_len(), 1);
    let wp = &geodata.waypoints().waypoints()[0];
    assert_eq!(wp.latitude(), 52.0f64.to_bits());
    assert_eq!(wp.longitude(), 13.0f64.to_bits());
    assert_eq!(wp.elevation(), None);
    assert_eq!(wp.name(), "Berlin");
    assert_eq!(geodata.routes().len(), 0);
    assert_eq!(geodata.tracks().len(), 0);
}

#[test]
fn v2_unsupported_entry_type() {
    let mut entries = Vec::new();
    v2_entry_header(&mut entries, 0xFF, 1);
    let buf = v2_stream(&entries);
    let err = GgvBinFormat::new().read(&buf).unwrap_err();
    assert_eq!(err.kind, DecodeErrorKind::UnsupportedEntryType { code: 0xFF });
    assert_eq!(err.version, 2);
}

#[test]
fn v2_truncated_line_fails_insufficient() {
    let mut entries = Vec::new();
    v2_entry_header(&mut entries, 3, 1);
    push_u16(&mut entries, 0); // line color
    push_u16(&mut entries, 0); // line width
    push_u16(&mut entries, 0); // line type
    push_u16(&mut entries, 5); // line points, but only 2 pairs follow
    for _ in 0..2 {
        push_f64(&mut entries, 10.0);
        push_f64(&mut entries, 50.0);
    }
    let buf = v2_stream(&entries);
    let err = GgvBinFormat::new().read(&buf).unwrap_err();
    assert_eq!(err.kind, DecodeErrorKind::InsufficientData);
    assert_eq!(err.field, "text lon");
    assert_eq!(err.version, 2);
}

#[test]
fn v2_track_name_too_large_rejected() {
    let mut entries = Vec::new();
    v2_entry_header(&mut entries, 3, 0); // subtype != 1: a track name follows
    push_u32(&mut entries, 65536); // one above the 65535 ceiling
    let buf = v2_stream(&entries);
    let err = GgvBinFormat::new().read(&buf).unwrap_err();
    assert_eq!(err.kind, DecodeErrorKind::FieldTooLarge);
    assert_eq!(err.field, "track name");
    assert_eq!(err.version, 2);
}

#[test]
fn v2_named_track() {
    let mut entries = Vec::new();
    v2_entry_header(&mut entries, 3, 0);
    push_u32(&mut entries, 5);
    entries.extend_from_slice(b"Trail");
    push_u16(&mut entries, 0); // line color
    push_u16(&mut entries, 0); // line width
    push_u16(&mut entries, 0); // line type
    push_u16(&mut entries, 2); // line points
    push_f64(&mut entries, 8.0);
    push_f64(&mut entries, 49.0);
    push_f64(&mut entries, 8.5);
    push_f64(&mut entries, 49.5);
    let buf = v2_stream(&entries);
    let geodata = GgvBinFormat::new().read(&buf).unwrap();
    assert_eq!(geodata.tracks().len(), 1);
    let track = &geodata.tracks()[0];
    assert_eq!(track.name(), "Trail");
    assert_eq!(track.len(), 2);
    assert_eq!(track.waypoints()[0].longitude(), 8.0f64.to_bits());
    assert_eq!(track.waypoints()[0].latitude(), 49.0f64.to_bits());
    assert_eq!(track.waypoints()[1].longitude(), 8.5f64.to_bits());
    assert_eq!(track.waypoints()[1].latitude(), 49.5f64.to_bits());
}

#[test]
fn v2_shape_entries_discarded() {
    let mut entries = Vec::new();
    v2_entry_header(&mut entries, 5, 1);
    for _ in 0..6 {
        push_u16(&mut entries, 0);
    }
    push_f64(&mut entries, 1.0);
    push_f64(&mut entries, 2.0);
    entries.extend_from_slice(&v2_text_entry(b"Spot"));
    let buf = v2_stream(&entries);
    let geodata = GgvBinFormat::new().read(&buf).unwrap();
    assert_eq!(geodata.waypoints_len(), 1);
    assert_eq!(geodata.waypoints().waypoints()[0].name(), "Spot");
    assert_eq!(geodata.tracks().len(), 0);
    assert_eq!(geodata.data().len(), 0);
}

fn dib_blob(pixel_bits: u16) -> Vec<u8> {
    let mut blob = Vec::new();
    push_u32(&mut blob, 40); // info header size
    push_u32(&mut blob, 16); // width
    push_u32(&mut blob, 16); // height
    push_u16(&mut blob, 1); // color planes
    push_u16(&mut blob, pixel_bits);
    push_u32(&mut blob, 0); // compression
    push_u32(&mut blob, 0); // image size
    push_u32(&mut blob, 0); // x resolution
    push_u32(&mut blob, 0); // y resolution
    push_u32(&mut blob, 0); // palette colors
    push_u32(&mut blob, 0); // important colors
    blob
}

fn v2_bitmap_entry(blob: &[u8]) -> Vec<u8> {
    let mut e = Vec::new();
    v2_entry_header(&mut e, 9, 1);
    for _ in 0..4 {
        push_u16(&mut e, 0);
    }
    push_f64(&mut e, 0.0);
    push_f64(&mut e, 0.0);
    push_u32(&mut e, blob.len() as u32);
    e.extend_from_slice(blob);
    e
}

#[test]
fn v2_bitmap_resource_length() {
    let blob = dib_blob(24);
    let buf = v2_stream(&v2_bitmap_entry(&blob));
    let geodata = GgvBinFormat::new().read(&buf).unwrap();
    assert_eq!(geodata.data().len(), 1);
    let (name, data) = &geodata.data()[0];
    assert_eq!(name, "bmp");
    assert_eq!(data.len(), blob.len() + 14);
    assert_eq!(&data[0..2], b"BM");
    assert_eq!(u32::from_le_bytes(data[2..6].try_into().unwrap()), 54);
    assert_eq!(&data[6..10], &[0, 0, 0, 0]);
    // 24 bits per pixel: no palette, pixel data follows the two headers
    assert_eq!(u32::from_le_bytes(data[10..14].try_into().unwrap()), 54);
    assert_eq!(&data[14..], &blob[..]);
}

#[test]
fn v2_bitmap_palette_offset() {
    let blob = dib_blob(8);
    let buf = v2_stream(&v2_bitmap_entry(&blob));
    let geodata = GgvBinFormat::new().read(&buf).unwrap();
    let (_, data) = &geodata.data()[0];
    // 8 bits per pixel: 256 palette entries of 4 bytes each
    assert_eq!(u32::from_le_bytes(data[10..14].try_into().unwrap()), 54 + 256 * 4);
}

#[test]
fn v2_bitmap_unknown_header_ignored() {
    let mut blob = dib_blob(24);
    blob[0] = 41; // header size is not 40: blob left unprocessed
    let buf = v2_stream(&v2_bitmap_entry(&blob));
    let geodata = GgvBinFormat::new().read(&buf).unwrap();
    assert_eq!(geodata.data().len(), 0);
}

/// A version-3 block header with the given counts and an empty map name.
fn v3_block_header(v: &mut Vec<u8>, labels: u32, records: u32) {
    v.extend_from_slice(&[0u8; 8]); // preamble
    push_u32(v, labels);
    push_u32(v, records);
    push_u16(v, 0); // empty block text
    push_u16(v, 0);
    push_u16(v, 0);
    push_u16(v, 0);
    push_u16(v, 0); // header len 0: no map name block
    push_u16(v, 0);
    push_u16(v, 0);
}

fn v34_common(v: &mut Vec<u8>, txt: &[u8]) {
    for _ in 0..10 {
        push_u16(v, 0);
    }
    push_u16(v, txt.len() as u16);
    v.extend_from_slice(txt);
    push_u16(v, 1); // marker 1: no first object field
    push_u16(v, 1); // marker 1: no second object field
}

#[test]
fn v3_line_two_points() {
    let mut buf = magic(3);
    v3_block_header(&mut buf, 0, 1);
    push_u16(&mut buf, 0x03);
    v34_common(&mut buf, b"");
    push_u16(&mut buf, 0); // line prop1
    push_u32(&mut buf, 0); // line prop2
    push_u16(&mut buf, 0); // line prop3
    push_u32(&mut buf, 0); // line color
    push_u16(&mut buf, 0); // line size
    push_u16(&mut buf, 0); // line stroke
    push_u16(&mut buf, 2); // line points
    for _ in 0..2 {
        push_f64(&mut buf, 11.0);
        push_f64(&mut buf, 47.0);
        push_f64(&mut buf, 0.0); // discarded
    }
    let geodata = GgvBinFormat::new().read(&buf).unwrap();
    assert_eq!(geodata.tracks().len(), 1);
    let track = &geodata.tracks()[0];
    assert_eq!(track.len(), 2);
    for wp in track.waypoints() {
        assert_eq!(wp.elevation(), None);
        assert_eq!(wp.longitude(), 11.0f64.to_bits());
        assert_eq!(wp.latitude(), 47.0f64.to_bits());
    }
}

#[test]
fn v3_labels_records_and_second_block() {
    let mut buf = magic(3);
    // first block: one label, one text record
    v3_block_header(&mut buf, 1, 1);
    buf.extend_from_slice(&[0u8; 8]); // label header
    buf.extend_from_slice(&[0u8; 20]); // label number
    push_u16(&mut buf, 3);
    buf.extend_from_slice(b"abc");
    push_u16(&mut buf, 0); // label flag1
    push_u16(&mut buf, 0); // label flag2
    push_u16(&mut buf, 0x02);
    v34_common(&mut buf, b"");
    push_u16(&mut buf, 0); // text prop1
    push_u32(&mut buf, 0); // text prop2
    push_u16(&mut buf, 0); // text prop3
    push_u32(&mut buf, 0); // text prop4
    push_u16(&mut buf, 0); // text ltype
    push_u16(&mut buf, 0); // text angle
    push_u16(&mut buf, 0); // text size
    push_u16(&mut buf, 0); // text area
    push_f64(&mut buf, 7.5);
    push_f64(&mut buf, 51.25);
    push_f64(&mut buf, 0.0); // discarded
    push_u16(&mut buf, 4);
    buf.extend_from_slice(b"Dorf");
    // the next block's magic span is skipped without validation
    buf.extend_from_slice(&[0xAAu8; 23]);
    // second block: one polygon record with a padding field
    v3_block_header(&mut buf, 0, 1);
    push_u16(&mut buf, 0x04);
    v34_common(&mut buf, b"Ring");
    push_u16(&mut buf, 0); // line prop1
    push_u32(&mut buf, 0); // line prop2
    push_u16(&mut buf, 0); // line prop3
    push_u32(&mut buf, 0); // line color
    push_u16(&mut buf, 0); // line size
    push_u16(&mut buf, 0); // line stroke
    push_u16(&mut buf, 1); // line points
    push_u16(&mut buf, 0); // padding field peculiar to type 4
    push_f64(&mut buf, 6.0);
    push_f64(&mut buf, 50.0);
    push_f64(&mut buf, 0.0);
    let geodata = GgvBinFormat::new().read(&buf).unwrap();
    assert_eq!(geodata.waypoints_len(), 1);
    let wp = &geodata.waypoints().waypoints()[0];
    assert_eq!(wp.name(), "Dorf");
    assert_eq!(wp.latitude(), 51.25f64.to_bits());
    assert_eq!(wp.longitude(), 7.5f64.to_bits());
    assert_eq!(geodata.tracks().len(), 1);
    assert_eq!(geodata.tracks()[0].name(), "Ring");
    assert_eq!(geodata.tracks()[0].len(), 1);
}

#[test]
fn v3_unsupported_record_type() {
    let mut buf = magic(3);
    v3_block_header(&mut buf, 0, 1);
    push_u16(&mut buf, 0x55);
    v34_common(&mut buf, b"");
    let err = GgvBinFormat::new().read(&buf).unwrap_err();
    assert_eq!(err.kind, DecodeErrorKind::UnsupportedEntryType { code: 0x55 });
    assert_eq!(err.version, 3);
}

#[test]
fn v4_uses_v34_grammar() {
    let mut buf = magic(4);
    v3_block_header(&mut buf, 0, 0);
    let geodata = GgvBinFormat::new().read(&buf).unwrap();
    assert_eq!(geodata.waypoints_len(), 0);
    assert_eq!(geodata.tracks().len(), 0);
}

#[test]
fn read_rejects_unknown_version() {
    let err = GgvBinFormat::new().read(b"not an overlay file").unwrap_err();
    assert_eq!(err.kind, DecodeErrorKind::LiteralMismatch);
    assert_eq!(err.field, "magic");
    assert_eq!(err.version, 0);
}

#[test]
fn label_normalization_crlf_becomes_space() {
    assert_eq!(read_v2_label(b"He\r\nllo"), "He llo");
}

#[test]
fn label_normalization_collapses_spaces() {
    assert_eq!(read_v2_label(b"A  B"), "A B");
}

#[test]
fn label_normalization_trims() {
    assert_eq!(read_v2_label(b" A "), "A");
}

#[test]
fn label_normalization_strips_controls() {
    assert_eq!(read_v2_label(b"A\tB\x07"), "AB");
}

#[test]
fn label_truncates_at_nul() {
    assert_eq!(read_v2_label(b"AB\0CD"), "AB");
}

#[test]
fn label_legacy_encoding_decoded() {
    assert_eq!(read_v2_label(&[0xC4, 0x6C, 0x70, 0x65, 0x6E]), "\u{C4}lpen");
}

#[test]
fn label_normalized_input_unchanged() {
    assert_eq!(read_v2_label(b"Schloss Neuschwanstein"), "Schloss Neuschwanstein");
}

#[test]
fn geodata_accumulates_in_file_order() {
    let mut entries = v2_text_entry(b"One");
    entries.extend_from_slice(&v2_text_entry(b"Two"));
    let buf = v2_stream(&entries);
    let geodata = GgvBinFormat::new().read(&buf).unwrap();
    assert_eq!(geodata.waypoints_len(), 2);
    assert_eq!(geodata.waypoints().waypoints()[0].name(), "One");
    assert_eq!(geodata.waypoints().waypoints()[1].name(), "Two");
}

#[test]
fn geodata_new_is_empty() {
    let geodata = Geodata::new();
    assert_eq!(geodata.waypoints_len(), 0);
    assert_eq!(geodata.routes().len(), 0);
    assert_eq!(geodata.tracks().len(), 0);
    assert_eq!(geodata.data().len(), 0);
    assert_eq!(geodata.waypoints_vec().len(), 1);
}

#[test]
fn v2_name_block_skipped() {
    // a non-empty name block: 16-bit length, 4-byte sub-header, name bytes
    let mut buf = magic(2);
    push_u16(&mut buf, 9);
    buf.extend_from_slice(&[0, 0, 0, 0]);
    buf.extend_from_slice(b"Karte");
    buf.extend_from_slice(&v2_text_entry(b"Pin"));
    let geodata = GgvBinFormat::new().read(&buf).unwrap();
    assert_eq!(geodata.waypoints_len(), 1);
    assert_eq!(geodata.waypoints().waypoints()[0].name(), "Pin");
}

#[test]
fn v2_empty_after_header_is_ok() {
    let buf = v2_stream(&[]);
    let geodata = GgvBinFormat::new().read(&buf).unwrap();
    assert_eq!(geodata.waypoints_len(), 0);
    assert_eq!(geodata.tracks().len(), 0);
}

#[test]
fn v2_truncated_magic_fails() {
    let mut buf = magic(2);
    buf.pop();
    let err = GgvBinFormat::new().read(&buf).unwrap_err();
    assert_eq!(err.kind, DecodeErrorKind::LiteralMismatch);
    assert_eq!(err.version, 0);
}

#[test]
fn v3_header_with_map_name() {
    let mut buf = magic(3);
    buf.extend_from_slice(&[0u8; 8]); // preamble
    push_u32(&mut buf, 0); // labels
    push_u32(&mut buf, 0); // records
    push_u16(&mut buf, 0); // empty block text
    push_u16(&mut buf, 0);
    push_u16(&mut buf, 0);
    push_u16(&mut buf, 0);
    push_u16(&mut buf, 10); // map-name block length
    push_u16(&mut buf, 0);
    push_u16(&mut buf, 0);
    buf.extend_from_slice(&[0, 0, 0, 0]); // internal sub-header
    buf.extend_from_slice(b"Platte");
    let geodata = GgvBinFormat::new().read(&buf).unwrap();
    assert_eq!(geodata.waypoints_len(), 0);
}

#[test]
fn v3_record_with_object_references() {
    let mut buf = magic(3);
    v3_block_header(&mut buf, 0, 1);
    push_u16(&mut buf, 0x02);
    // common prefix with both cross-reference markers set
    for _ in 0..10 {
        push_u16(&mut buf, 0);
    }
    push_u16(&mut buf, 3);
    buf.extend_from_slice(b"Ort");
    push_u16(&mut buf, 0); // first marker differs from 1: object text follows
    push_u32(&mut buf, 4);
    buf.extend_from_slice(b"ref1");
    push_u16(&mut buf, 0); // second marker differs from 1 as well
    push_u32(&mut buf, 4);
    buf.extend_from_slice(b"ref2");
    // text payload
    push_u16(&mut buf, 0);
    push_u32(&mut buf, 0);
    push_u16(&mut buf, 0);
    push_u32(&mut buf, 0);
    for _ in 0..4 {
        push_u16(&mut buf, 0);
    }
    push_f64(&mut buf, 9.0);
    push_f64(&mut buf, 53.5);
    push_f64(&mut buf, 0.0);
    push_u16(&mut buf, 5);
    buf.extend_from_slice(b"Hafen");
    let geodata = GgvBinFormat::new().read(&buf).unwrap();
    assert_eq!(geodata.waypoints_len(), 1);
    assert_eq!(geodata.waypoints().waypoints()[0].name(), "Hafen");
    assert_eq!(geodata.waypoints().waypoints()[0].latitude(), 53.5f64.to_bits());
}

#[test]
fn v3_shape_record_discarded() {
    let mut buf = magic(3);
    v3_block_header(&mut buf, 0, 1);
    push_u16(&mut buf, 0x06);
    v34_common(&mut buf, b"");
    push_u16(&mut buf, 0); // circle prop1
    push_u32(&mut buf, 0); // circle prop2
    push_u16(&mut buf, 0); // circle prop3
    push_u32(&mut buf, 0); // circle color
    push_u32(&mut buf, 0); // circle prop5
    push_u32(&mut buf, 0); // circle prop6
    push_u16(&mut buf, 0); // circle ltype
    push_u16(&mut buf, 0); // circle angle
    push_u16(&mut buf, 0); // circle size
    push_u16(&mut buf, 0); // circle area
    push_f64(&mut buf, 1.0);
    push_f64(&mut buf, 2.0);
    push_f64(&mut buf, 0.0);
    let geodata = GgvBinFormat::new().read(&buf).unwrap();
    assert_eq!(geodata.waypoints_len(), 0);
    assert_eq!(geodata.tracks().len(), 0);
    assert_eq!(geodata.data().len(), 0);
}

#[test]
fn v3_bitmap_record() {
    let blob = dib_blob(24);
    let mut buf = magic(3);
    v3_block_header(&mut buf, 0, 1);
    push_u16(&mut buf, 0x09);
    v34_common(&mut buf, b"");
    push_u16(&mut buf, 0); // bmp prop1
    push_u32(&mut buf, 0); // bmp prop2
    push_u16(&mut buf, 0); // bmp prop3
    push_u32(&mut buf, 0); // bmp prop4
    push_u32(&mut buf, 0); // bmp prop5
    push_u32(&mut buf, 0); // bmp prop6
    push_f64(&mut buf, 0.0);
    push_f64(&mut buf, 0.0);
    push_f64(&mut buf, 0.0);
    push_u32(&mut buf, blob.len() as u32);
    push_u16(&mut buf, 0); // one more fixed field before the blob
    buf.extend_from_slice(&blob);
    let geodata = GgvBinFormat::new().read(&buf).unwrap();
    assert_eq!(geodata.data().len(), 1);
    let (name, data) = &geodata.data()[0];
    assert_eq!(name, "bmp");
    assert_eq!(data.len(), blob.len() + 14);
}

#[test]
fn v3_bitmap_length_above_ceiling_rejected() {
    let mut buf = magic(3);
    v3_block_header(&mut buf, 0, 1);
    push_u16(&mut buf, 0x09);
    v34_common(&mut buf, b"");
    push_u16(&mut buf, 0);
    push_u32(&mut buf, 0);
    push_u16(&mut buf, 0);
    push_u32(&mut buf, 0);
    push_u32(&mut buf, 0);
    push_u32(&mut buf, 0);
    push_f64(&mut buf, 0.0);
    push_f64(&mut buf, 0.0);
    push_f64(&mut buf, 0.0);
    push_u32(&mut buf, 0x0001_0000);
    let err = GgvBinFormat::new().read(&buf).unwrap_err();
    assert_eq!(err.kind, DecodeErrorKind::FieldTooLarge);
    assert_eq!(err.field, "bmp len");
    assert_eq!(err.version, 3);
}

#[test]
fn v3_polyline_variant_without_padding() {
    // type 0x17 shares the line grammar of type 0x03
    let mut buf = magic(3);
    v3_block_header(&mut buf, 0, 1);
    push_u16(&mut buf, 0x17);
    v34_common(&mut buf, b"Weg");
    push_u16(&mut buf, 0);
    push_u32(&mut buf, 0);
    push_u16(&mut buf, 0);
    push_u32(&mut buf, 0);
    push_u16(&mut buf, 0);
    push_u16(&mut buf, 0);
    push_u16(&mut buf, 1);
    push_f64(&mut buf, 10.0);
    push_f64(&mut buf, 45.0);
    push_f64(&mut buf, 0.0);
    let geodata = GgvBinFormat::new().read(&buf).unwrap();
    assert_eq!(geodata.tracks().len(), 1);
    assert_eq!(geodata.tracks()[0].name(), "Weg");
    assert_eq!(geodata.tracks()[0].len(), 1);
}

#[test]
fn v3_truncated_block_between_records() {
    // a second block announced by leftover bytes, but too short for the
    // 23-byte separator span
    let mut buf = magic(3);
    v3_block_header(&mut buf, 0, 0);
    buf.extend_from_slice(&[0xAA; 5]);
    let err = GgvBinFormat::new().read(&buf).unwrap_err();
    assert_eq!(err.kind, DecodeErrorKind::InsufficientData);
    assert_eq!(err.field, "magicbytes");
    assert_eq!(err.version, 3);
}
