//! Decoder library for Geogrid-Viewer overlay files.
//!
//! The core of the crate is the verified decoder for the proprietary binary
//! overlay format (versions 2, 3 and 4): magic detection, the version-specific
//! record grammars, length-prefixed legacy text fields and the embedded bitmap
//! extractor.  Decoded entries populate the shared [`geodata::Geodata`] model.
//!
//! The sibling readers (ASCII key/value overlays, zipped-XML overlays, GPX)
//! are thin field mappers around outside parsers; only their format handles
//! and byte-level probes live here.

pub mod bitmap;
pub mod error;
pub mod geodata;
pub mod ggv_bin;
pub mod ggv_ovl;
pub mod ggv_xml;
pub mod gpx;
pub mod reader;
pub mod text;

pub use error::CustomError;
pub use error::DecodeError;
pub use error::DecodeErrorKind;
pub use geodata::Geodata;
pub use geodata::Waypoint;
pub use geodata::WaypointList;
pub use ggv_bin::GgvBinFormat;
pub use ggv_ovl::GgvOvlFormat;
pub use ggv_xml::GgvXmlFormat;
pub use gpx::GpxFormat;
