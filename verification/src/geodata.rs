//! Geodata storage for waypoints, routes and tracks.
//!
//! Geographic coordinates travel through this crate as the raw little-endian
//! IEEE 754 bit pattern of the on-disk double field (a `u64`).  The decoders
//! only move those bits from the wire into the model; interpreting them as a
//! floating-point number is left to the callers that render or compare
//! coordinates.  Elevation absence is a distinguished state (`None`), never a
//! sentinel value.

use vstd::prelude::*;

verus! {

/// Mathematical image of a [`Waypoint`].
pub ghost struct WaypointV {
    pub latitude: u64,
    pub longitude: u64,
    pub elevation: Option<u64>,
    pub name: Seq<char>,
}

/// A single geographic point with optional name and elevation.
#[derive(Debug, Clone)]
pub struct Waypoint {
    latitude: u64,
    longitude: u64,
    elevation: Option<u64>,
    name: String,
}

impl View for Waypoint {
    type V = WaypointV;

    closed spec fn view(&self) -> WaypointV {
        WaypointV {
            latitude: self.latitude,
            longitude: self.longitude,
            elevation: self.elevation,
            name: self.name@,
        }
    }
}

impl Waypoint {
    pub fn new() -> (r: Self)
        ensures
            r@ == (WaypointV {
                latitude: 0u64,
                longitude: 0u64,
                elevation: None::<u64>,
                name: Seq::<char>::empty(),
            }),
    {
        Self { latitude: 0, longitude: 0, elevation: None, name: String::new() }
    }

    pub fn with_lat(self, lat: u64) -> (r: Self)
        ensures
            r@ == (WaypointV { latitude: lat, ..self@ }),
    {
        Self { latitude: lat, ..self }
    }

    pub fn with_lon(self, lon: u64) -> (r: Self)
        ensures
            r@ == (WaypointV { longitude: lon, ..self@ }),
    {
        Self { longitude: lon, ..self }
    }

    pub fn with_elevation(self, ele: u64) -> (r: Self)
        ensures
            r@ == (WaypointV { elevation: Some(ele), ..self@ }),
    {
        Self { elevation: Some(ele), ..self }
    }

    pub fn with_name(self, name: &str) -> (r: Self)
        ensures
            r@ == (WaypointV { name: name@, ..self@ }),
    {
        Self { name: String::from_str(name), ..self }
    }

    pub fn latitude(&self) -> (r: u64)
        ensures
            r == self@.latitude,
    {
        self.latitude
    }

    pub fn longitude(&self) -> (r: u64)
        ensures
            r == self@.longitude,
    {
        self.longitude
    }

    pub fn elevation(&self) -> (r: Option<u64>)
        ensures
            r == self@.elevation,
    {
        self.elevation
    }

    pub fn name(&self) -> (r: String)
        ensures
            r@ == self@.name,
    {
        self.name.clone()
    }

    pub fn set_name(&mut self, name: &str)
        ensures
            final(self)@ == (WaypointV { name: name@, ..old(self)@ }),
    {
        self.name = String::from_str(name);
    }
}

/// Mathematical image of a [`WaypointList`].
pub ghost struct WaypointListV {
    pub waypoints: Seq<WaypointV>,
    pub name: Seq<char>,
}

/// An ordered sequence of waypoints plus a name; used uniformly for both
/// routes and tracks.
#[derive(Debug)]
pub struct WaypointList {
    waypoints: Vec<Waypoint>,
    name: String,
}

impl View for WaypointList {
    type V = WaypointListV;

    closed spec fn view(&self) -> WaypointListV {
        WaypointListV {
            waypoints: self.waypoints@.map_values(|w: Waypoint| w@),
            name: self.name@,
        }
    }
}

impl WaypointList {
    pub fn new() -> (r: Self)
        ensures
            r@ == (WaypointListV {
                waypoints: Seq::<WaypointV>::empty(),
                name: Seq::<char>::empty(),
            }),
    {
        let r = Self { waypoints: Vec::new(), name: String::new() };
        proof {
            assert(r@.waypoints =~= Seq::<WaypointV>::empty());
        }
        r
    }

    pub fn add_waypoint(&mut self, wp: Waypoint)
        ensures
            final(self)@ == (WaypointListV {
                waypoints: old(self)@.waypoints.push(wp@),
                ..old(self)@
            }),
    {
        let ghost prev = self@.waypoints;
        let ghost wpv = wp@;
        self.waypoints.push(wp);
        proof {
            assert(self@.waypoints =~= prev.push(wpv));
        }
    }

    pub fn name(&self) -> (r: String)
        ensures
            r@ == self@.name,
    {
        self.name.clone()
    }

    pub fn set_name(&mut self, name: &str)
        ensures
            final(self)@ == (WaypointListV { name: name@, ..old(self)@ }),
    {
        self.name = String::from_str(name);
    }

    pub fn extract_first_waypoint(&self) -> (r: &Waypoint)
        requires
            self@.waypoints.len() > 0,
        ensures
            r@ == self@.waypoints[0],
    {
        &self.waypoints[0]
    }

    pub fn waypoints(&self) -> (r: &Vec<Waypoint>)
        ensures
            r@.map_values(|w: Waypoint| w@) == self@.waypoints,
    {
        &self.waypoints
    }

    pub fn len(&self) -> (r: usize)
        ensures
            r == self@.waypoints.len(),
    {
        self.waypoints.len()
    }
}

/// Mathematical image of a [`Geodata`].
pub ghost struct GeodataV {
    pub debug: u8,
    pub waypoints: Seq<WaypointListV>,
    pub routes: Seq<WaypointListV>,
    pub tracks: Seq<WaypointListV>,
    pub data: Seq<(Seq<char>, Seq<u8>)>,
}

/// The shared result structure populated by the decoders: one implicit list of
/// loose waypoints, ordered routes and tracks, and named binary resources.
#[derive(Debug)]
pub struct Geodata {
    debug: u8,
    waypoints: Vec<WaypointList>,
    routes: Vec<WaypointList>,
    tracks: Vec<WaypointList>,
    data: Vec<(String, Vec<u8>)>,
}

impl View for Geodata {
    type V = GeodataV;

    closed spec fn view(&self) -> GeodataV {
        GeodataV {
            debug: self.debug,
            waypoints: self.waypoints@.map_values(|l: WaypointList| l@),
            routes: self.routes@.map_values(|l: WaypointList| l@),
            tracks: self.tracks@.map_values(|l: WaypointList| l@),
            data: self.data@.map_values(|d: (String, Vec<u8>)| (d.0@, d.1@)),
        }
    }
}

/// The view of a freshly created [`Geodata`]: one empty implicit waypoint
/// list and nothing else.
pub open spec fn initial_geodata(debug: u8) -> GeodataV {
    GeodataV {
        debug: debug,
        waypoints: seq![
            WaypointListV {
                waypoints: Seq::<WaypointV>::empty(),
                name: Seq::<char>::empty(),
            },
        ],
        routes: Seq::<WaypointListV>::empty(),
        tracks: Seq::<WaypointListV>::empty(),
        data: Seq::<(Seq<char>, Seq<u8>)>::empty(),
    }
}

impl Geodata {
    /// Every list is in place from the start: the implicit waypoint list is
    /// created here and never removed.
    pub open spec fn wf(&self) -> bool {
        self@.waypoints.len() >= 1
    }

    pub fn new() -> (r: Self)
        ensures
            r@ == initial_geodata(0),
            r.wf(),
    {
        let mut waypoints: Vec<WaypointList> = Vec::new();
        waypoints.push(WaypointList::new());
        let r = Self {
            debug: 0,
            waypoints,
            routes: Vec::new(),
            tracks: Vec::new(),
            data: Vec::new(),
        };
        proof {
            assert(r@.waypoints =~= initial_geodata(0).waypoints);
            assert(r@.routes =~= initial_geodata(0).routes);
            assert(r@.tracks =~= initial_geodata(0).tracks);
            assert(r@.data =~= initial_geodata(0).data);
        }
        r
    }

    pub fn with_debug(self, value: u8) -> (r: Self)
        ensures
            r@ == (GeodataV { debug: value, ..self@ }),
            self.wf() ==> r.wf(),
    {
        Self { debug: value, ..self }
    }

    pub fn add_waypoint(&mut self, wp: Waypoint)
        requires
            old(self).wf(),
        ensures
            final(self).wf(),
            final(self)@ == (GeodataV {
                waypoints: old(self)@.waypoints.update(
                    0,
                    WaypointListV {
                        waypoints: old(self)@.waypoints[0].waypoints.push(wp@),
                        ..old(self)@.waypoints[0]
                    },
                ),
                ..old(self)@
            }),
    {
        let ghost prev = self@;
        let ghost wpv = wp@;
        let first = &mut self.waypoints[0];
        first.add_waypoint(wp);
        proof {
            assert(self@.waypoints =~= prev.waypoints.update(
                0,
                WaypointListV {
                    waypoints: prev.waypoints[0].waypoints.push(wpv),
                    ..prev.waypoints[0]
                },
            ));
            assert(self@.routes =~= prev.routes);
            assert(self@.tracks =~= prev.tracks);
            assert(self@.data =~= prev.data);
        }
    }

    pub fn add_route(&mut self, route: WaypointList)
        ensures
            final(self)@ == (GeodataV { routes: old(self)@.routes.push(route@), ..old(self)@ }),
            old(self).wf() ==> final(self).wf(),
    {
        let ghost prev = self@;
        let ghost rv = route@;
        self.routes.push(route);
        proof {
            assert(self@.routes =~= prev.routes.push(rv));
            assert(self@.waypoints =~= prev.waypoints);
            assert(self@.tracks =~= prev.tracks);
            assert(self@.data =~= prev.data);
        }
    }

    pub fn add_track(&mut self, track: WaypointList)
        ensures
            final(self)@ == (GeodataV { tracks: old(self)@.tracks.push(track@), ..old(self)@ }),
            old(self).wf() ==> final(self).wf(),
    {
        let ghost prev = self@;
        let ghost tv = track@;
        self.tracks.push(track);
        proof {
            assert(self@.tracks =~= prev.tracks.push(tv));
            assert(self@.waypoints =~= prev.waypoints);
            assert(self@.routes =~= prev.routes);
            assert(self@.data =~= prev.data);
        }
    }

    /// Attach a named binary resource (an extracted image).
    pub fn add_data(&mut self, name: &str, data: Vec<u8>)
        ensures
            final(self)@ == (GeodataV {
                data: old(self)@.data.push((name@, data@)),
                ..old(self)@
            }),
            old(self).wf() ==> final(self).wf(),
    {
        let ghost prev = self@;
        let ghost dv = (name@, data@);
        self.data.push((String::from_str(name), data));
        proof {
            assert(self@.data =~= prev.data.push(dv));
            assert(self@.waypoints =~= prev.waypoints);
            assert(self@.routes =~= prev.routes);
            assert(self@.tracks =~= prev.tracks);
        }
    }

    pub fn waypoints(&self) -> (r: &WaypointList)
        requires
            self.wf(),
        ensures
            r@ == self@.waypoints[0],
    {
        &self.waypoints[0]
    }

    pub fn waypoints_len(&self) -> (r: usize)
        ensures
            r == if self@.waypoints.len() > 0 {
                self@.waypoints[0].waypoints.len()
            } else {
                0
            },
    {
        if self.waypoints.len() > 0 {
            self.waypoints[0].len()
        } else {
            0
        }
    }

    pub fn waypoints_vec(&self) -> (r: &Vec<WaypointList>)
        ensures
            r@.map_values(|l: WaypointList| l@) == self@.waypoints,
    {
        &self.waypoints
    }

    pub fn routes(&self) -> (r: &Vec<WaypointList>)
        ensures
            r@.map_values(|l: WaypointList| l@) == self@.routes,
    {
        &self.routes
    }

    pub fn tracks(&self) -> (r: &Vec<WaypointList>)
        ensures
            r@.map_values(|l: WaypointList| l@) == self@.tracks,
    {
        &self.tracks
    }

    /// The named binary resources attached by the decoders.
    pub fn data(&self) -> (r: &Vec<(String, Vec<u8>)>)
        ensures
            r@.map_values(|d: (String, Vec<u8>)| (d.0@, d.1@)) == self@.data,
    {
        &self.data
    }
}

} // verus!
