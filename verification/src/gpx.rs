//! Format handle for GPX documents.
//!
//! Reading and writing GPX goes through outside XML crates and formats
//! floating-point coordinates; that field mapping lives outside the verified
//! library.  The handle itself — the creator string, the test-mode flag used
//! to pin the emitted timestamp, and the capability surface — is verified
//! here.

use vstd::prelude::*;

verus! {

/// Mathematical image of a [`GpxFormat`].
pub ghost struct GpxFormatV {
    pub creator: Seq<char>,
    pub testmode: bool,
    pub debug: u8,
}

/// The GPX format handle.
#[derive(Debug)]
pub struct GpxFormat {
    creator: String,
    testmode: bool,
    debug: u8,
}

impl View for GpxFormat {
    type V = GpxFormatV;

    closed spec fn view(&self) -> GpxFormatV {
        GpxFormatV { creator: self.creator@, testmode: self.testmode, debug: self.debug }
    }
}

impl GpxFormat {
    /// A fresh handle with the default creator and test mode off; callers
    /// that take those from the environment do so through the builders.
    pub fn new() -> (r: Self)
        ensures
            r@ == (GpxFormatV { creator: "ggvtogpx"@, testmode: false, debug: 0 }),
    {
        Self { creator: String::from_str("ggvtogpx"), testmode: false, debug: 0 }
    }

    pub fn with_creator(self, creator: &str) -> (r: Self)
        ensures
            r@ == (GpxFormatV { creator: creator@, ..self@ }),
    {
        Self { creator: String::from_str(creator), ..self }
    }

    pub fn with_testmode(self, testmode: bool) -> (r: Self)
        ensures
            r@ == (GpxFormatV { testmode: testmode, ..self@ }),
    {
        Self { testmode, ..self }
    }

    pub fn creator(&self) -> (r: &String)
        ensures
            r@ == self@.creator,
    {
        &self.creator
    }

    pub fn testmode(&self) -> (r: bool)
        ensures
            r == self@.testmode,
    {
        self.testmode
    }

    pub fn name(&self) -> (r: &'static str)
        ensures
            r@ == "gpx"@,
    {
        "gpx"
    }

    pub fn can_read(&self) -> (r: bool)
        ensures
            r,
    {
        true
    }

    pub fn can_write(&self) -> (r: bool)
        ensures
            r,
    {
        true
    }

    pub fn set_debug(&mut self, debug: u8)
        ensures
            final(self)@ == (GpxFormatV { debug: debug, ..old(self)@ }),
    {
        self.debug = debug;
    }

    pub fn debug(&self) -> (r: u8)
        ensures
            r == self@.debug,
    {
        self.debug
    }
}

} // verus!
