
use wpt2gpx::parser::{
    altitude, degree, description, header, latitude, longitude, name, parse, waypoint, waypoints,
    ErrorKind, ParseError,
};
use wpt2gpx::waypoint::Coordinate;

const DOCUMENT: &str = "$FormatGEO
AAT054    N 36 16 36.42    E 140 08 43.50   540  ASIO HG TO
ACT052    N 36 16 10.11    E 140 08 28.70   524  COO TO
";

fn degrees(c: Coordinate) -> f64 {
    c.numerator as f64 / c.denominator as f64
}

fn assert_approx(c: Coordinate, expected: f64) {
    let value = degrees(c);
    assert!((value - expected).abs() <= 1e-6, "{} is not close to {}", value, expected);
}

fn error(remaining: &str, kind: ErrorKind) -> ParseError {
    ParseError { remaining: remaining.to_string(), kind }
}

#[test]
fn test_parse() {
    let waypoints = parse(DOCUMENT).unwrap();
    assert_eq!(waypoints.len(), 2);

    let with_tail = format!("{}X", DOCUMENT);
    assert_eq!(parse(&with_tail), Err(error("X", ErrorKind::Eof)));
}

#[test]
fn test_waypoints() {
    assert_eq!(waypoints("$FormatGEO\n"), Ok(("".to_string(), vec![])));
    let (_, waypoints) = waypoints(DOCUMENT).unwrap();
    assert_eq!(waypoints.len(), 2);
}

#[test]
fn test_header() {
    assert_eq!(header("$FormatGEO\nAAT054"), Ok(("AAT054".to_string(), ())));
    assert_eq!(header("$FormatGEO"), Err(error("", ErrorKind::CrLf)));
    assert_eq!(header("$FormatGEOX\nAAT054"), Err(error("X\nAAT054", ErrorKind::CrLf)));
}

#[test]
fn test_waypoint() {
    let (_, w) =
        waypoint("AAT054    N 36 16 36.42    E 140 08 43.50   540  ASIO HG TO\n").unwrap();
    assert_eq!(w.name, "AAT054");
    assert_approx(w.latitude, 36.276783);
    assert_approx(w.longitude, 140.145417);
    assert_eq!(w.altitude, 540);
    assert_eq!(w.description, "ASIO HG TO");

    assert_eq!(
        waypoint("AAT054    N 36 16 36.42    E 140 08 43.50   XXX  ASIO HG TO\n"),
        Err(error("XXX  ASIO HG TO\n", ErrorKind::Digit))
    );
}

#[test]
fn test_name() {
    assert_eq!(name("AAT054 "), Ok((" ".to_string(), "AAT054".to_string())));
}

#[test]
fn test_latitude() {
    assert_approx(latitude("N 36 16 36.42").unwrap().1, 36.276783);
    assert_approx(latitude("S 36 16 36.42").unwrap().1, -36.276783);
    assert_eq!(latitude("N 36 16 36"), Err(error("", ErrorKind::Char)));
}

#[test]
fn test_longitude() {
    assert_approx(longitude("E 140 08 43.50").unwrap().1, 140.145417);
    assert_approx(longitude("W 140 08 43.50").unwrap().1, -140.145417);
    assert_eq!(longitude("140 08 43.50"), Err(error("140 08 43.50", ErrorKind::OneOf)));
}

#[test]
fn test_degree() {
    assert_approx(degree("140 08 43.50").unwrap().1, 140.145417);
    assert_approx(degree("36 16 36.42").unwrap().1, 36.276783);
    assert_eq!(degree("E 140 08 43.50"), Err(error("E 140 08 43.50", ErrorKind::Digit)));
}

#[test]
fn test_altitude() {
    assert_eq!(altitude("540 "), Ok((" ".to_string(), 540)));
    assert_eq!(altitude("1280"), Ok(("".to_string(), 1280)));
    assert_eq!(altitude("A"), Err(error("A", ErrorKind::Digit)));
}

#[test]
fn test_description() {
    assert_eq!(
        description("ASIO HG TO\nACT052"),
        Ok(("\nACT052".to_string(), "ASIO HG TO".to_string()))
    );
    assert_eq!(description("ASIO HG TO"), Ok(("".to_string(), "ASIO HG TO".to_string())));
}

#[test]
fn parse_header_only_is_empty() {
    assert_eq!(parse("$FormatGEO\n"), Ok(vec![]));
}

#[test]
fn parse_then_format_end_to_end() {
    let waypoints = parse(DOCUMENT).unwrap();
    let s = String::from_utf8(wpt2gpx::formatter::format(&waypoints)).unwrap();
    assert_eq!(
        s,
        r#"<gpx xmlns="http://www.topografix.com/GPX/1/0" version="1.0">
  <wpt lat="36.276783" lon="140.145417">
    <ele>540</ele>
    <name>AAT054 ASIO HG TO</name>
  </wpt>
  <wpt lat="36.269475" lon="140.141306">
    <ele>524</ele>
    <name>ACT052 COO TO</name>
  </wpt>
</gpx>"#
    );
}

#[test]
fn degree_exact_units() {
    let (rest, c) = degree("140 08 43.50").unwrap();
    assert_eq!(rest, "");
    assert_eq!(c, Coordinate { numerator: 50452350, denominator: 360000 });
    // the part after the dot always counts hundredths
    let (_, c) = degree("0 0 1.5").unwrap();
    assert_eq!(c, Coordinate { numerator: 105, denominator: 360000 });
}

#[test]
fn hemisphere_negates_exactly() {
    let (_, north) = latitude("N 36 16 36.42").unwrap();
    let (_, south) = latitude("S 36 16 36.42").unwrap();
    assert_eq!(south.numerator, -north.numerator);
    assert_eq!(south.denominator, north.denominator);
    let (_, east) = longitude("E 140 08 43.50").unwrap();
    let (_, west) = longitude("W 140 08 43.50").unwrap();
    assert_eq!(west.numerator, -east.numerator);
    assert_eq!(latitude("X 36 16 36.42"), Err(error("X 36 16 36.42", ErrorKind::OneOf)));
}

#[test]
fn altitude_bounds() {
    assert_eq!(altitude("65535"), Ok(("".to_string(), 65535)));
    assert_eq!(altitude("65536 m"), Err(error("65536 m", ErrorKind::Digit)));
    assert_eq!(altitude("XXX"), Err(error("XXX", ErrorKind::Digit)));
}

#[test]
fn parse_error_kinds() {
    assert_eq!(parse("$Format\n"), Err(error("$Format\n", ErrorKind::Tag)));
    assert_eq!(name(" A"), Err(error(" A", ErrorKind::AlphaNumeric)));
    assert_eq!(latitude("N36 16 36.42"), Err(error("36 16 36.42", ErrorKind::Space)));
    assert_eq!(description("A\rB"), Err(error("A\rB", ErrorKind::Tag)));
    let bad_line = "$FormatGEO\nAAT054    N 36 16 36.42    E 140 08 43.50   XXX  ASIO\n";
    assert_eq!(
        parse(bad_line),
        Err(error("AAT054    N 36 16 36.42    E 140 08 43.50   XXX  ASIO\n", ErrorKind::Eof))
    );
}

#[test]
fn parse_accepts_crlf_and_tabs() {
    let text = "$FormatGEO\r\nA1\tN 1 2 3.4\tW 5 6 7.8\t9\t\r\n";
    let ws = parse(text).unwrap();
    assert_eq!(ws.len(), 1);
    assert_eq!(ws[0].name, "A1");
    assert_eq!(ws[0].description, "");
    assert_eq!(ws[0].altitude, 9);
    assert_eq!(ws[0].latitude.numerator, 360000 + 2 * 6000 + 3 * 100 + 4);
    assert_eq!(ws[0].longitude.numerator, -(5 * 360000 + 6 * 6000 + 7 * 100 + 8));
}
