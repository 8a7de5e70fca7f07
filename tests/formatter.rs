use wpt2gpx::formatter::{format_waypoint, format_waypoints};
use wpt2gpx::waypoint::{Coordinate, Waypoint};

fn point(name: &str, lat: (i64, u64), lon: (i64, u64), altitude: u16, description: &str) -> Waypoint {
    Waypoint {
        name: name.to_string(),
        latitude: Coordinate { numerator: lat.0, denominator: lat.1 },
        longitude: Coordinate { numerator: lon.0, denominator: lon.1 },
        altitude,
        description: description.to_string(),
    }
}

fn two() -> Vec<Waypoint> {
    vec![
        point("AAT054", (36276783, 1000000), (140145417, 1000000), 540, "ASIO HG TO"),
        point("ACT052", (36269475, 1000000), (140141306, 1000000), 524, "COO TO"),
    ]
}

fn one_line(w: &Waypoint) -> String {
    let mut out = String::new();
    format_waypoint(w, &mut out, 0, false);
    out
}

#[test]
fn test_format() {
    let bytes = wpt2gpx::formatter::format(&two());
    let s = String::from_utf8(bytes).unwrap();
    assert_eq!(
        s,
        r#"<gpx xmlns="http://www.topografix.com/GPX/1/0" version="1.0">
  <wpt lat="36.276783" lon="140.145417">
    <ele>540</ele>
    <name>AAT054 ASIO HG TO</name>
  </wpt>
  <wpt lat="36.269475" lon="140.141306">
    <ele>524</ele>
    <name>ACT052 COO TO</name>
  </wpt>
</gpx>"#,
    );
}

#[test]
fn test_format_waypoints() {
    let mut out = String::new();
    format_waypoints(&two(), &mut out, 0, false);
    assert_eq!(
        out,
        [
            r#"<wpt lat="36.276783" lon="140.145417"><ele>540</ele><name>AAT054 ASIO HG TO</name></wpt>"#,
            r#"<wpt lat="36.269475" lon="140.141306"><ele>524</ele><name>ACT052 COO TO</name></wpt>"#,
        ]
        .concat()
    );
}

#[test]
fn test_format_waypoint() {
    let w = point("AAT054", (36276783, 1000000), (140145417, 1000000), 540, "ASIO HG TO");
    assert_eq!(
        one_line(&w),
        r#"<wpt lat="36.276783" lon="140.145417"><ele>540</ele><name>AAT054 ASIO HG TO</name></wpt>"#
    );
}

#[test]
fn test_format_waypoint_fractions() {
    let w = point("AAT054", (36276, 1000), (14014541789, 100000000), 1540, "ASIO HG TO");
    assert_eq!(
        one_line(&w),
        r#"<wpt lat="36.276000" lon="140.145418"><ele>1540</ele><name>AAT054 ASIO HG TO</name></wpt>"#
    );
}

#[test]
fn format_twice_gives_same_bytes() {
    assert_eq!(wpt2gpx::formatter::format(&two()), wpt2gpx::formatter::format(&two()));
}

#[test]
fn format_empty_list() {
    let s = String::from_utf8(wpt2gpx::formatter::format(&[])).unwrap();
    assert_eq!(s, "<gpx xmlns=\"http://www.topografix.com/GPX/1/0\" version=\"1.0\">\n</gpx>");
}

#[test]
fn format_negative_and_whole_coordinates() {
    let w = point("S1", (-36276783, 1000000), (-140, 1), 0, "");
    assert_eq!(
        one_line(&w),
        r#"<wpt lat="-36.276783" lon="-140.000000"><ele>0</ele><name>S1</name></wpt>"#
    );
}

#[test]
fn format_rounds_ties_to_even() {
    let w = point("T", (5, 10000000), (15, 10000000), 65535, "x");
    assert_eq!(
        one_line(&w),
        r#"<wpt lat="0.000000" lon="0.000002"><ele>65535</ele><name>T x</name></wpt>"#
    );
}

#[test]
fn format_parsed_angle_units() {
    // 36 16 36.42 in hundredths of a second of arc
    let w = point("P", (13059642, 360000), (50452350, 360000), 1, "");
    assert_eq!(
        one_line(&w),
        r#"<wpt lat="36.276783" lon="140.145417"><ele>1</ele><name>P</name></wpt>"#
    );
}

#[test]
fn format_escapes_display_name() {
    let w = point("A1", (0, 1), (0, 1), 7, "Tom & \"Jerry\" <'x'>");
    assert_eq!(
        one_line(&w),
        "<wpt lat=\"0.000000\" lon=\"0.000000\"><ele>7</ele><name>A1 Tom &amp; &quot;Jerry&quot; &lt;&apos;x&apos;&gt;</name></wpt>"
    );
}

#[test]
fn format_waypoint_indented_at_depth() {
    let w = point("A1", (1, 1), (2, 1), 3, "");
    let mut out = String::new();
    format_waypoint(&w, &mut out, 1, true);
    assert_eq!(
        out,
        "\n  <wpt lat=\"1.000000\" lon=\"2.000000\">\n    <ele>3</ele>\n    <name>A1</name>\n  </wpt>"
    );
}
