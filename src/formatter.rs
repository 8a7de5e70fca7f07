use crate::parser::{in_class, views, Class};
use crate::waypoint::{display_name_of, Coordinate, Waypoint, WaypointView};
use vstd::prelude::*;
use vstd::arithmetic::div_mod::lemma_fundamental_div_mod;
use vstd::utf8::encode_utf8;

verus! {

/// The text that stands for a character in XML text and attribute values:
/// `<`, `>`, `&`, `'` and `"` become entities, every other character stays.
pub open spec fn escape_char(c: char) -> Seq<char> {
    if c == '<' {
        "&lt;"@
    } else if c == '>' {
        "&gt;"@
    } else if c == '&' {
        "&amp;"@
    } else if c == '\'' {
        "&apos;"@
    } else if c == '"' {
        "&quot;"@
    } else {
        seq![c]
    }
}

/// `s` with each character escaped for XML.
pub open spec fn xml_escaped(s: Seq<char>) -> Seq<char>
    decreases s.len(),
{
    if s.len() == 0 {
        Seq::empty()
    } else {
        xml_escaped(s.drop_last()) + escape_char(s.last())
    }
}

/// Relies on `quick_xml::escape::escape`, which replaces each of `<`, `>`,
/// `&`, `'` and `"` by its entity and keeps every other character.
#[verifier::external_body]
fn escape_xml(s: &str) -> (r: String)
    ensures
        r@ == xml_escaped(s@),
{
    quick_xml::escape::escape(s).into_owned()
}

/// The decimal digit `d`.
pub open spec fn digit_text(d: nat) -> Seq<char> {
    "0123456789"@.subrange(d as int, d as int + 1)
}

/// `n` in decimal, without leading zeros.
pub open spec fn decimal_text(n: nat) -> Seq<char>
    decreases n,
{
    if n < 10 {
        digit_text(n)
    } else {
        decimal_text(n / 10) + digit_text(n % 10)
    }
}

/// The last `width` decimal digits of `n`, with leading zeros.
pub open spec fn fixed_digits(n: nat, width: nat) -> Seq<char>
    decreases width,
{
    if width == 0 {
        Seq::empty()
    } else {
        fixed_digits(n / 10, (width - 1) as nat) + digit_text(n % 10)
    }
}

pub open spec fn abs(x: int) -> nat {
    if x < 0 {
        (-x) as nat
    } else {
        x as nat
    }
}

/// The magnitude of `c` in millionths of a degree, rounded to the nearest
/// integer, a tie going to the even one.
pub open spec fn micro_units(c: Coordinate) -> nat
    recommends
        c.wf(),
{
    let a = abs(c.numerator as int) * 1000000;
    let d = c.denominator as nat;
    let q = a / d;
    let r = a % d;
    if 2 * r > d || (2 * r == d && q % 2 == 1) {
        q + 1
    } else {
        q
    }
}

/// `c` in degrees with exactly six decimals.
pub open spec fn coordinate_text(c: Coordinate) -> Seq<char> {
    let q = micro_units(c);
    (if c.numerator < 0 {
        "-"@
    } else {
        Seq::empty()
    }) + decimal_text(q / 1000000) + "."@ + fixed_digits(q % 1000000, 6)
}

/// The break before an element at nesting `depth`: a line feed and two
/// spaces per level when the output is indented, nothing otherwise.
pub open spec fn line_break(depth: nat, indented: bool) -> Seq<char> {
    if indented {
        "\n"@ + Seq::new(2 * depth, |i: int| ' ')
    } else {
        Seq::empty()
    }
}

/// The start tag of a `wpt` element, with its `lat` and `lon` attributes.
pub open spec fn wpt_start(w: WaypointView, depth: nat, indented: bool) -> Seq<char> {
    line_break(depth, indented) + "<wpt lat=\""@ + coordinate_text(w.latitude) + "\" lon=\""@
        + coordinate_text(w.longitude) + "\">"@
}

/// An element that holds only the text `content`.
pub open spec fn text_element(
    start: Seq<char>,
    content: Seq<char>,
    end: Seq<char>,
    depth: nat,
    indented: bool,
) -> Seq<char> {
    line_break(depth, indented) + start + content + end
}

/// The `wpt` element of one waypoint at nesting `depth`: its altitude in an
/// `ele` element, then its display name in a `name` element.
pub open spec fn waypoint_element(w: WaypointView, depth: nat, indented: bool) -> Seq<char> {
    wpt_start(w, depth, indented) + text_element(
        "<ele>"@,
        decimal_text(w.altitude as nat),
        "</ele>"@,
        depth + 1,
        indented,
    ) + text_element(
        "<name>"@,
        xml_escaped(display_name_of(w.name, w.description)),
        "</name>"@,
        depth + 1,
        indented,
    ) + line_break(depth, indented) + "</wpt>"@
}

/// The `wpt` elements of a list of waypoints, in order.
pub open spec fn waypoint_elements(ws: Seq<WaypointView>, depth: nat, indented: bool) -> Seq<char>
    decreases ws.len(),
{
    if ws.len() == 0 {
        Seq::empty()
    } else {
        waypoint_elements(ws.drop_last(), depth, indented) + waypoint_element(
            ws.last(),
            depth,
            indented,
        )
    }
}

/// The GPX document of a list of waypoints.
pub open spec fn gpx_document(ws: Seq<WaypointView>) -> Seq<char> {
    "<gpx xmlns=\"http://www.topografix.com/GPX/1/0\" version=\"1.0\">"@ + waypoint_elements(
        ws,
        1,
        true,
    ) + line_break(0, true) + "</gpx>"@
}

fn push_digit(out: &mut String, d: u128)
    requires
        d < 10,
    ensures
        final(out)@ == old(out)@ + digit_text(d as nat),
{
    proof {
        reveal_strlit("0123456789");
    }
    let digits = "0123456789";
    out.append(digits.substring_char(d as usize, d as usize + 1));
}

fn push_decimal(out: &mut String, n: u128)
    ensures
        final(out)@ == old(out)@ + decimal_text(n as nat),
    decreases n,
{
    if n < 10 {
        push_digit(out, n);
    } else {
        push_decimal(out, n / 10);
        push_digit(out, n % 10);
        assert(final(out)@ =~= old(out)@ + decimal_text(n as nat));
    }
}

fn push_fixed(out: &mut String, n: u128, width: usize)
    ensures
        final(out)@ == old(out)@ + fixed_digits(n as nat, width as nat),
    decreases width,
{
    if width == 0 {
        assert(final(out)@ =~= old(out)@ + fixed_digits(n as nat, width as nat));
    } else {
        push_fixed(out, n / 10, width - 1);
        push_digit(out, n % 10);
        assert(final(out)@ =~= old(out)@ + fixed_digits(n as nat, width as nat));
    }
}


fn push_coordinate(out: &mut String, c: Coordinate)
    requires
        c.wf(),
    ensures
        final(out)@ == old(out)@ + coordinate_text(c),
{
    let magnitude: u128 = if c.numerator < 0 {
        (-(c.numerator as i128)) as u128
    } else {
        c.numerator as u128
    };
    assert(magnitude == abs(c.numerator as int));
    let a: u128 = magnitude * 1000000;
    let d: u128 = c.denominator as u128;
    let q: u128 = a / d;
    let r: u128 = a % d;
    let rounded: u128 = if 2 * r > d || (2 * r == d && q % 2 == 1) {
        q + 1
    } else {
        q
    };
    assert(rounded == micro_units(c));
    let ghost start = out@;
    if c.numerator < 0 {
        out.append("-");
    }
    push_decimal(out, rounded / 1000000);
    out.append(".");
    push_fixed(out, rounded % 1000000, 6);
    assert(out@ =~= start + coordinate_text(c));
}

fn push_break(out: &mut String, depth: usize, indented: bool)
    ensures
        final(out)@ == old(out)@ + line_break(depth as nat, indented),
{
    if indented {
        let ghost start = out@;
        out.append("\n");
        let mut k: usize = 0;
        while k < depth
            invariant
                k <= depth,
                out@ == start + "\n"@ + Seq::new(2 * k as nat, |i: int| ' '),
            decreases depth - k,
        {
            proof {
                reveal_strlit("  ");
            }
            out.append("  ");
            assert(out@ =~= start + "\n"@ + Seq::new(2 * (k + 1) as nat, |i: int| ' '));
            k = k + 1;
        }
    } else {
        assert(out@ =~= old(out)@ + line_break(depth as nat, indented));
    }
}

fn push_wpt_start(out: &mut String, waypoint: &Waypoint, depth: usize, indented: bool)
    requires
        waypoint@.wf(),
    ensures
        final(out)@ == old(out)@ + wpt_start(waypoint@, depth as nat, indented),
{
    let ghost start = out@;
    push_break(out, depth, indented);
    out.append("<wpt lat=\"");
    push_coordinate(out, waypoint.latitude);
    out.append("\" lon=\"");
    push_coordinate(out, waypoint.longitude);
    out.append("\">");
    assert(out@ =~= start + wpt_start(waypoint@, depth as nat, indented));
}

fn push_text_element(out: &mut String, start: &str, content: &str, end: &str, depth: usize, indented: bool)
    ensures
        final(out)@ == old(out)@ + text_element(start@, content@, end@, depth as nat, indented),
{
    let ghost first = out@;
    push_break(out, depth, indented);
    out.append(start);
    out.append(content);
    out.append(end);
    assert(out@ =~= first + text_element(start@, content@, end@, depth as nat, indented));
}

/// Writes the `wpt` element of one waypoint at nesting `depth`, indented by
/// two spaces per level when `indented` holds, on one line otherwise.
pub fn format_waypoint(waypoint: &Waypoint, out: &mut String, depth: usize, indented: bool)
    requires
        waypoint@.wf(),
        depth < usize::MAX,
    ensures
        final(out)@ == old(out)@ + waypoint_element(waypoint@, depth as nat, indented),
{
    let ghost first = out@;
    push_wpt_start(out, waypoint, depth, indented);
    let mut altitude = String::new();
    push_decimal(&mut altitude, waypoint.altitude as u128);
    assert(altitude@ =~= decimal_text(waypoint.altitude as nat));
    push_text_element(out, "<ele>", altitude.as_str(), "</ele>", depth + 1, indented);
    let shown = waypoint.display_name();
    let escaped = escape_xml(shown.as_str());
    push_text_element(out, "<name>", escaped.as_str(), "</name>", depth + 1, indented);
    push_break(out, depth, indented);
    out.append("</wpt>");
    assert(out@ =~= first + waypoint_element(waypoint@, depth as nat, indented));
}

/// Writes the `wpt` elements of the waypoints, in order.
pub fn format_waypoints(waypoints: &[Waypoint], out: &mut String, depth: usize, indented: bool)
    requires
        forall|i: int| 0 <= i < waypoints@.len() ==> (#[trigger] waypoints@[i])@.wf(),
        depth < usize::MAX,
    ensures
        final(out)@ == old(out)@ + waypoint_elements(views(waypoints@), depth as nat, indented),
{
    let ghost start = out@;
    let mut k: usize = 0;
    while k < waypoints.len()
        invariant
            k <= waypoints@.len(),
            forall|i: int| 0 <= i < waypoints@.len() ==> (#[trigger] waypoints@[i])@.wf(),
            depth < usize::MAX,
            out@ == start + waypoint_elements(views(waypoints@.take(k as int)), depth as nat, indented),
        decreases waypoints@.len() - k,
    {
        format_waypoint(&waypoints[k], out, depth, indented);
        assert(views(waypoints@.take(k + 1)).drop_last() =~= views(waypoints@.take(k as int)));
        assert(out@ =~= start + waypoint_elements(views(waypoints@.take(k + 1)), depth as nat, indented));
        k = k + 1;
    }
    assert(waypoints@.take(k as int) =~= waypoints@);
}

/// Writes the GPX 1.0 document of the waypoints as UTF-8: a `gpx` root
/// element holding one `wpt` element per waypoint, indented by two spaces
/// per level.
pub fn format(waypoints: &[Waypoint]) -> (r: Vec<u8>)
    requires
        forall|i: int| 0 <= i < waypoints@.len() ==> (#[trigger] waypoints@[i])@.wf(),
    ensures
        r@ == encode_utf8(gpx_document(views(waypoints@))),
{
    let mut out = String::new();
    out.append("<gpx xmlns=\"http://www.topografix.com/GPX/1/0\" version=\"1.0\">");
    format_waypoints(waypoints, &mut out, 1, true);
    push_break(&mut out, 0, true);
    out.append("</gpx>");
    assert(out@ =~= gpx_document(views(waypoints@)));
    out.as_str().as_bytes_vec()
}


proof fn lemma_digit_text(d: nat)
    requires
        d < 10,
    ensures
        digit_text(d).len() == 1,
        in_class(digit_text(d)[0], Class::Digit),
{
    reveal_strlit("0123456789");
}

proof fn lemma_fixed_digits(n: nat, width: nat)
    ensures
        fixed_digits(n, width).len() == width,
        forall|j: int| 0 <= j < width ==> in_class(#[trigger] fixed_digits(n, width)[j], Class::Digit),
    decreases width,
{
    if width > 0 {
        lemma_fixed_digits(n / 10, (width - 1) as nat);
        lemma_digit_text(n % 10);
    }
}

proof fn lemma_decimal_text_nonempty(n: nat)
    ensures
        decimal_text(n).len() >= 1,
    decreases n,
{
    if n < 10 {
        lemma_digit_text(n);
    } else {
        lemma_decimal_text_nonempty(n / 10);
        lemma_digit_text(n % 10);
    }
}

/// A coordinate is written with exactly six digits after the decimal point,
/// and those digits hold its value rounded to the nearest millionth of a
/// degree.
pub proof fn lemma_fixed_precision(c: Coordinate)
    requires
        c.wf(),
    ensures
        ({
            let t = coordinate_text(c);
            &&& t.len() >= 8
            &&& t[t.len() - 7] == '.'
            &&& forall|j: int| t.len() - 6 <= j < t.len() ==> in_class(#[trigger] t[j], Class::Digit)
        }),
        2 * abs(micro_units(c) * c.denominator - abs(c.numerator as int) * 1000000)
            <= c.denominator,
{
    reveal_strlit(".");
    reveal_strlit("-");
    let q = micro_units(c);
    lemma_decimal_text_nonempty(q / 1000000);
    lemma_fixed_digits(q % 1000000, 6);
    let t = coordinate_text(c);
    let sign: Seq<char> = if c.numerator < 0 {
        "-"@
    } else {
        Seq::empty()
    };
    let head = sign + decimal_text(q / 1000000);
    let tail = fixed_digits(q % 1000000, 6);
    assert(t == head + "."@ + tail);
    assert forall|j: int| t.len() - 6 <= j < t.len() implies in_class(#[trigger] t[j], Class::Digit) by {
        assert(t[j] == tail[j - (t.len() - 6)]);
    }
    let a: int = (abs(c.numerator as int) * 1000000) as int;
    let d: int = c.denominator as int;
    lemma_fundamental_div_mod(a, d);
    let q0: int = a / d;
    let r: int = a % d;
    assert(0 <= r < d);
    assert((q0 + 1) * d == q0 * d + d) by (nonlinear_arith);
    assert(d * q0 == q0 * d) by (nonlinear_arith);
    if 2 * r > d || (2 * r == d && q0 % 2 == 1) {
        assert(q == q0 + 1);
        assert(q * d - a == d - r);
    } else {
        assert(q == q0);
        assert(q * d - a == -r);
    }
}

/// Formatting depends on nothing but the waypoints: two lists with the same
/// content give the same bytes.
pub proof fn lemma_format_deterministic(a: Seq<Waypoint>, b: Seq<Waypoint>)
    requires
        views(a) == views(b),
    ensures
        encode_utf8(gpx_document(views(a))) == encode_utf8(gpx_document(views(b))),
{
}

} // verus!
