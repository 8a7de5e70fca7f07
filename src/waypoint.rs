use vstd::prelude::*;

verus! {

/// A signed angle in degrees, held exactly as the fraction
/// `numerator / denominator`.
#[derive(Clone, Copy, Debug, PartialEq, Eq)]
pub struct Coordinate {
    pub numerator: i64,
    pub denominator: u64,
}

impl Coordinate {
    /// A coordinate is well formed when its denominator is positive.
    pub open spec fn wf(self) -> bool {
        self.denominator > 0
    }
}

/// A named geographic point of interest.
#[derive(Clone, Debug, PartialEq)]
pub struct Waypoint {
    pub name: String,
    pub latitude: Coordinate,
    pub longitude: Coordinate,
    pub altitude: u16,
    pub description: String,
}

/// The mathematical content of a [`Waypoint`].
pub ghost struct WaypointView {
    pub name: Seq<char>,
    pub latitude: Coordinate,
    pub longitude: Coordinate,
    pub altitude: u16,
    pub description: Seq<char>,
}

impl View for Waypoint {
    type V = WaypointView;

    open spec fn view(&self) -> WaypointView {
        WaypointView {
            name: self.name@,
            latitude: self.latitude,
            longitude: self.longitude,
            altitude: self.altitude,
            description: self.description@,
        }
    }
}

impl WaypointView {
    pub open spec fn wf(self) -> bool {
        self.latitude.wf() && self.longitude.wf()
    }
}

/// The name shown for a waypoint: its name, then a space and its description
/// when the description is not empty.
pub open spec fn display_name_of(name: Seq<char>, description: Seq<char>) -> Seq<char> {
    if description.len() == 0 {
        name
    } else {
        name + " "@ + description
    }
}

impl Waypoint {
    pub fn display_name(&self) -> (r: String)
        ensures
            r@ == display_name_of(self.name@, self.description@),
    {
        let mut r = self.name.clone();
        if !self.description.as_str().is_empty() {
            r.append(" ");
            r.append(self.description.as_str());
        }
        r
    }
}

} // verus!
