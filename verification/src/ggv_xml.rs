//! Format handle for zipped-XML overlay files.
//!
//! The zipped-XML reader is a thin field mapper around outside archive and
//! XML-tree crates and floating-point coordinate values; only the format
//! handle and its byte-level probe live in the verified library.

use vstd::prelude::*;

use crate::error::CustomError;
use crate::geodata::Geodata;

verus! {

/// Whether `s` starts with the archive signature `PK\x03\x04`.
pub open spec fn zip_prefix(s: Seq<u8>) -> bool {
    s.len() >= 4 && s[0] == 0x50u8 && s[1] == 0x4Bu8 && s[2] == 0x03u8 && s[3] == 0x04u8
}

/// The zipped-XML overlay format handle.
pub struct GgvXmlFormat {
    debug: u8,
}

impl View for GgvXmlFormat {
    type V = u8;

    closed spec fn view(&self) -> u8 {
        self.debug
    }
}

impl GgvXmlFormat {
    pub fn new() -> (r: Self)
        ensures
            r@ == 0,
    {
        Self { debug: 0 }
    }

    /// Cheap format sniff: the input opens with the archive signature.
    pub fn probe(&self, buf: &[u8]) -> (r: bool)
        ensures
            r == zip_prefix(buf@),
    {
        buf.len() >= 4 && buf[0] == 0x50 && buf[1] == 0x4B && buf[2] == 0x03 && buf[3] == 0x04
    }

    /// Writing the zipped-XML overlay format is not supported.
    pub fn write(&self, _geodata: &Geodata) -> (r: Result<String, CustomError>)
        ensures
            (r matches Err(e) && e@ == "not implemented: ggv_xml write support"@),
    {
        Err(CustomError::new("not implemented: ggv_xml write support"))
    }

    pub fn name(&self) -> (r: &'static str)
        ensures
            r@ == "ggv_xml"@,
    {
        "ggv_xml"
    }

    pub fn can_read(&self) -> (r: bool)
        ensures
            r,
    {
        true
    }

    pub fn can_write(&self) -> (r: bool)
        ensures
            !r,
    {
        false
    }

    pub fn set_debug(&mut self, debug: u8)
        ensures
            final(self)@ == debug,
    {
        self.debug = debug;
    }

    pub fn debug(&self) -> (r: u8)
        ensures
            r == self@,
    {
        self.debug
    }
}

} // verus!
