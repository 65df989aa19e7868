use ggvtogpx::error::CustomError;
use ggvtogpx::geodata::{Geodata, Waypoint, WaypointList};
use ggvtogpx::ggv_bin::GgvBinFormat;
use ggvtogpx::ggv_ovl::GgvOvlFormat;
use ggvtogpx::ggv_xml::GgvXmlFormat;
use ggvtogpx::gpx::GpxFormat;

fn bin_magic(ver: u8) -> Vec<u8> {
    let mut v = format!("DOMGVCRD Ovlfile V{}.0:", ver).into_bytes();
    v.push(0);
    v
}

#[test]
fn bin_probe_accepts_each_version() {
    let f = GgvBinFormat::new();
    for ver in [2u8, 3, 4] {
        assert!(f.probe(&bin_magic(ver)));
    }
}

#[test]
fn bin_probe_rejects_other_prefixes() {
    let f = GgvBinFormat::new();
    assert!(!f.probe(b""));
    assert!(!f.probe(b"DOMGVCRD Ovlfile V5.0:\0"));
    assert!(!f.probe(b"DOMGVCRD Ovlfile V2.0:")); // NUL missing
    assert!(!f.probe(b"domgvcrd ovlfile v2.0:\0"));
    assert!(!f.probe(b"[Overlay]"));
}

#[test]
fn bin_probe_accepts_trailing_bytes() {
    let mut v = bin_magic(3);
    v.extend_from_slice(b"whatever follows");
    assert!(GgvBinFormat::new().probe(&v));
}

#[test]
fn bin_header_text_returned() {
    let (version, header) = ggvtogpx::ggv_bin::parse_magic(&bin_magic(3)).unwrap();
    assert_eq!(version, 3);
    assert_eq!(header, "DOMGVCRD Ovlfile V3.0:");
}

#[test]
fn bin_capabilities() {
    let f = GgvBinFormat::new();
    assert_eq!(f.name(), "ggv_bin");
    assert!(f.can_read());
    assert!(!f.can_write());
}

#[test]
fn bin_write_not_implemented() {
    let err = GgvBinFormat::new().write(&Geodata::new()).unwrap_err();
    assert_eq!(err.message(), "not implemented: ggv_bin write support");
}

#[test]
fn ovl_probe() {
    let f = GgvOvlFormat::new();
    assert!(f.probe(b"[Symbol 1]\nTyp=2\n"));
    assert!(f.probe(b"[Overlay]\nSymbols=1\n"));
    assert!(!f.probe(b"[Section]\nfoo=bar\n"));
    assert!(!f.probe(b""));
    assert!(!f.probe(b"[Symbo"));
}

#[test]
fn ovl_capabilities() {
    let f = GgvOvlFormat::new();
    assert_eq!(f.name(), "ggv_ovl");
    assert!(f.can_read());
    assert!(f.can_write());
    assert_eq!(f.write_empty_document(), "\r\n");
}

#[test]
fn xml_probe() {
    let f = GgvXmlFormat::new();
    assert!(f.probe(b"PK\x03\x04rest of archive"));
    assert!(!f.probe(b"PK\x05\x06"));
    assert!(!f.probe(b"<?xml version=\"1.0\"?>"));
    assert!(!f.probe(b""));
}

#[test]
fn xml_capabilities() {
    let f = GgvXmlFormat::new();
    assert_eq!(f.name(), "ggv_xml");
    assert!(f.can_read());
    assert!(!f.can_write());
    let err = f.write(&Geodata::new()).unwrap_err();
    assert_eq!(err.message(), "not implemented: ggv_xml write support");
}

#[test]
fn gpx_builders() {
    let f = GpxFormat::new();
    assert_eq!(f.creator(), "ggvtogpx");
    assert!(!f.testmode());
    let f = f.with_creator("unit-test").with_testmode(true);
    assert_eq!(f.creator(), "unit-test");
    assert!(f.testmode());
    assert_eq!(f.name(), "gpx");
    assert!(f.can_read());
    assert!(f.can_write());
}

#[test]
fn custom_error_keeps_message() {
    let e = CustomError::new("something went wrong");
    assert_eq!(e.message(), "something went wrong");
}

#[test]
fn waypoint_builders() {
    let wp = Waypoint::new();
    assert_eq!(wp.latitude(), 0);
    assert_eq!(wp.longitude(), 0);
    assert_eq!(wp.elevation(), None);
    assert_eq!(wp.name(), "");
    let wp = wp
        .with_lat(48.1f64.to_bits())
        .with_lon(11.5f64.to_bits())
        .with_elevation(519.0f64.to_bits())
        .with_name("Munich");
    assert_eq!(wp.latitude(), 48.1f64.to_bits());
    assert_eq!(wp.longitude(), 11.5f64.to_bits());
    assert_eq!(wp.elevation(), Some(519.0f64.to_bits()));
    assert_eq!(wp.name(), "Munich");
    let mut wp = wp;
    wp.set_name("Renamed");
    assert_eq!(wp.name(), "Renamed");
}

#[test]
fn waypoint_list_keeps_order() {
    let mut list = WaypointList::new();
    assert_eq!(list.len(), 0);
    list.set_name("a list");
    list.add_waypoint(Waypoint::new().with_name("first"));
    list.add_waypoint(Waypoint::new().with_name("second"));
    assert_eq!(list.len(), 2);
    assert_eq!(list.name(), "a list");
    assert_eq!(list.extract_first_waypoint().name(), "first");
    assert_eq!(list.waypoints()[1].name(), "second");
}

#[test]
fn geodata_routes_and_tracks() {
    let mut geodata = Geodata::new();
    let mut route = WaypointList::new();
    route.set_name("route");
    route.add_waypoint(Waypoint::new());
    geodata.add_route(route);
    let mut track = WaypointList::new();
    track.set_name("track");
    geodata.add_track(track);
    geodata.add_waypoint(Waypoint::new().with_name("loose"));
    assert_eq!(geodata.routes().len(), 1);
    assert_eq!(geodata.routes()[0].name(), "route");
    assert_eq!(geodata.tracks().len(), 1);
    assert_eq!(geodata.tracks()[0].name(), "track");
    assert_eq!(geodata.waypoints_len(), 1);
    assert_eq!(geodata.waypoints().waypoints()[0].name(), "loose");
}
