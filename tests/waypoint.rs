use wpt2gpx::waypoint::{Coordinate, Waypoint};

fn sample() -> Waypoint {
    Waypoint {
        name: "AAT054".to_string(),
        latitude: Coordinate { numerator: 36276783, denominator: 1000000 },
        longitude: Coordinate { numerator: 140145417, denominator: 1000000 },
        altitude: 540,
        description: "ASIO HG TO".to_string(),
    }
}

#[test]
fn test_display_name() {
    assert_eq!(sample().display_name(), "AAT054 ASIO HG TO");
}

#[test]
fn test_display_name_no_description() {
    let waypoint = Waypoint { description: "".to_string(), ..sample() };
    assert_eq!(waypoint.display_name(), "AAT054");
}

#[test]
fn display_name_keeps_inner_spaces() {
    let waypoint = Waypoint { description: " two  words".to_string(), ..sample() };
    assert_eq!(waypoint.display_name(), "AAT054  two  words");
}
