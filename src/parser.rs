use crate::waypoint::{Coordinate, Waypoint, WaypointView};
use vstd::prelude::*;
use vstd::std_specs::iter::IteratorSpec;

verus! {

/// What the parser expected at the place where it stopped.
#[derive(Clone, Copy, Debug, PartialEq, Eq)]
pub enum ErrorKind {
    /// A fixed word.
    Tag,
    /// A line ending, `"\n"` or `"\r\n"`.
    CrLf,
    /// An ASCII letter or digit.
    AlphaNumeric,
    /// A space or a tab.
    Space,
    /// One of a set of letters.
    OneOf,
    /// A given character.
    Char,
    /// A decimal number that fits in 16 bits.
    Digit,
    /// The end of the input.
    Eof,
}

/// A parse failure: the input left where the parser stopped, and what it
/// expected there.
#[derive(Clone, Debug, PartialEq, Eq)]
pub struct ParseError {
    pub remaining: String,
    pub kind: ErrorKind,
}

/// A failure inside the scanner: a position in the character sequence.
pub struct Failure {
    pub pos: usize,
    pub kind: ErrorKind,
}

/// The result of a grammar rule applied at a position: the position after
/// what it consumed and its value, or the position of the failure and what
/// was expected there.
pub type Outcome<T> = Result<(int, T), (int, ErrorKind)>;

/// An executable result agrees with a grammar rule's outcome.
pub open spec fn agrees<T>(r: Result<(usize, T), Failure>, m: Outcome<T>) -> bool {
    match r {
        Ok((p, v)) => m == Outcome::<T>::Ok((p as int, v)),
        Err(f) => m == Outcome::<T>::Err((f.pos as int, f.kind)),
    }
}

/// A result on a string agrees with a grammar rule's outcome on its
/// characters, with the remaining input as a string.
pub open spec fn reported<T>(s: Seq<char>, r: Result<(String, T), ParseError>, m: Outcome<T>) -> bool {
    match r {
        Ok((rest, v)) => m is Ok && rest@ == s.skip(m->Ok_0.0) && v == m->Ok_0.1,
        Err(e) => m is Err && e.remaining@ == s.skip(m->Err_0.0) && e.kind == m->Err_0.1,
    }
}

/// The character classes the grammar scans over.
pub enum Class {
    Space,
    AlphaNumeric,
    Digit,
    Text,
}

pub open spec fn in_class(c: char, k: Class) -> bool {
    let u = c as u32;
    match k {
        Class::Space => c == ' ' || c == '\t',
        Class::AlphaNumeric => (48 <= u <= 57) || (65 <= u <= 90) || (97 <= u <= 122),
        Class::Digit => 48 <= u <= 57,
        Class::Text => c != '\r' && c != '\n',
    }
}

/// The end of the longest run of characters of class `k` from `i`.
pub open spec fn span_end(s: Seq<char>, i: int, k: Class) -> int
    decreases s.len() - i,
{
    if 0 <= i < s.len() && in_class(s[i], k) {
        span_end(s, i + 1, k)
    } else {
        i
    }
}

/// The value of a sequence of decimal digits.
pub open spec fn digits_value(d: Seq<char>) -> nat
    decreases d.len(),
{
    if d.len() == 0 {
        0
    } else {
        digits_value(d.drop_last()) * 10 + ((d.last() as u32) - 48) as nat
    }
}

/// One or more spaces or tabs.
pub open spec fn space1_at(s: Seq<char>, i: int) -> Outcome<()> {
    let e = span_end(s, i, Class::Space);
    if e == i {
        Err((i, ErrorKind::Space))
    } else {
        Ok((e, ()))
    }
}

/// A line ending: `"\n"` or `"\r\n"`.
pub open spec fn line_ending_at(s: Seq<char>, i: int) -> Outcome<()> {
    if 0 <= i < s.len() && s[i] == '\n' {
        Ok((i + 1, ()))
    } else if 0 <= i && i + 1 < s.len() && s[i] == '\r' && s[i + 1] == '\n' {
        Ok((i + 2, ()))
    } else {
        Err((i, ErrorKind::CrLf))
    }
}

/// The character `c`.
pub open spec fn char_at(s: Seq<char>, i: int, c: char) -> Outcome<()> {
    if 0 <= i < s.len() && s[i] == c {
        Ok((i + 1, ()))
    } else {
        Err((i, ErrorKind::Char))
    }
}

/// One of two letters; the value tells whether it was the first.
pub open spec fn one_of_at(s: Seq<char>, i: int, a: char, b: char) -> Outcome<bool> {
    if 0 <= i < s.len() && (s[i] == a || s[i] == b) {
        Ok((i + 1, s[i] == a))
    } else {
        Err((i, ErrorKind::OneOf))
    }
}

/// A decimal number of one or more digits whose value fits in 16 bits.
/// A value out of range fails at the number's first digit.
pub open spec fn number_at(s: Seq<char>, i: int) -> Outcome<u16> {
    let e = span_end(s, i, Class::Digit);
    let v = digits_value(s.subrange(i, e));
    if e == i || v > 65535 {
        Err((i, ErrorKind::Digit))
    } else {
        Ok((e, v as u16))
    }
}

proof fn lemma_span_end_bounds(s: Seq<char>, i: int, k: Class)
    requires
        0 <= i <= s.len(),
    ensures
        i <= span_end(s, i, k) <= s.len(),
        forall|j: int| i <= j < span_end(s, i, k) ==> in_class(#[trigger] s[j], k),
        span_end(s, i, k) < s.len() ==> !in_class(s[span_end(s, i, k)], k),
    decreases s.len() - i,
{
    if i < s.len() && in_class(s[i], k) {
        lemma_span_end_bounds(s, i + 1, k);
    }
}

proof fn lemma_digits_value_grows(d: Seq<char>, n: int)
    requires
        0 <= n <= d.len(),
    ensures
        digits_value(d.subrange(0, n)) <= digits_value(d),
    decreases d.len() - n,
{
    if n < d.len() {
        lemma_digits_value_grows(d.drop_last(), n);
        assert(d.drop_last().subrange(0, n) =~= d.subrange(0, n));
    } else {
        assert(d.subrange(0, n) =~= d);
    }
}

fn in_class_exec(c: char, k: &Class) -> (r: bool)
    ensures
        r == in_class(c, *k),
{
    let u = c as u32;
    match k {
        Class::Space => c == ' ' || c == '\t',
        Class::AlphaNumeric => (48 <= u && u <= 57) || (65 <= u && u <= 90) || (97 <= u && u
            <= 122),
        Class::Digit => 48 <= u && u <= 57,
        Class::Text => c != '\r' && c != '\n',
    }
}

fn scan(s: &Vec<char>, i: usize, k: Class) -> (r: usize)
    requires
        i <= s@.len(),
    ensures
        r == span_end(s@, i as int, k),
        i <= r <= s@.len(),
{
    proof {
        lemma_span_end_bounds(s@, i as int, k);
    }
    let mut j = i;
    while j < s.len() && in_class_exec(s[j], &k)
        invariant
            i <= j <= s@.len(),
            span_end(s@, i as int, k) == span_end(s@, j as int, k),
        decreases s@.len() - j,
    {
        j = j + 1;
    }
    j
}

fn space1(s: &Vec<char>, i: usize) -> (r: Result<(usize, ()), Failure>)
    requires
        i <= s@.len(),
    ensures
        agrees(r, space1_at(s@, i as int)),
        r matches Ok((e, _)) ==> i <= e <= s@.len(),
        r matches Err(f) ==> f.pos <= s@.len(),
{
    let e = scan(s, i, Class::Space);
    if e == i {
        Err(Failure { pos: i, kind: ErrorKind::Space })
    } else {
        Ok((e, ()))
    }
}

fn line_ending(s: &Vec<char>, i: usize) -> (r: Result<(usize, ()), Failure>)
    requires
        i <= s@.len(),
    ensures
        agrees(r, line_ending_at(s@, i as int)),
        r matches Ok((e, _)) ==> i <= e <= s@.len(),
        r matches Err(f) ==> f.pos <= s@.len(),
{
    if i < s.len() && s[i] == '\n' {
        Ok((i + 1, ()))
    } else if i < s.len() && i + 1 < s.len() && s[i] == '\r' && s[i + 1] == '\n' {
        Ok((i + 2, ()))
    } else {
        Err(Failure { pos: i, kind: ErrorKind::CrLf })
    }
}

fn char_exact(s: &Vec<char>, i: usize, c: char) -> (r: Result<(usize, ()), Failure>)
    requires
        i <= s@.len(),
    ensures
        agrees(r, char_at(s@, i as int, c)),
        r matches Ok((e, _)) ==> i <= e <= s@.len(),
        r matches Err(f) ==> f.pos <= s@.len(),
{
    if i < s.len() && s[i] == c {
        Ok((i + 1, ()))
    } else {
        Err(Failure { pos: i, kind: ErrorKind::Char })
    }
}

fn one_of(s: &Vec<char>, i: usize, a: char, b: char) -> (r: Result<(usize, bool), Failure>)
    requires
        i <= s@.len(),
    ensures
        agrees(r, one_of_at(s@, i as int, a, b)),
        r matches Ok((e, _)) ==> i <= e <= s@.len(),
        r matches Err(f) ==> f.pos <= s@.len(),
{
    if i < s.len() && (s[i] == a || s[i] == b) {
        Ok((i + 1, s[i] == a))
    } else {
        Err(Failure { pos: i, kind: ErrorKind::OneOf })
    }
}

fn number(s: &Vec<char>, i: usize) -> (r: Result<(usize, u16), Failure>)
    requires
        i <= s@.len(),
    ensures
        agrees(r, number_at(s@, i as int)),
        r matches Ok((e, _)) ==> i <= e <= s@.len(),
        r matches Err(f) ==> f.pos <= s@.len(),
{
    let ghost e = span_end(s@, i as int, Class::Digit);
    proof {
        lemma_span_end_bounds(s@, i as int, Class::Digit);
    }
    let mut j = i;
    let mut value: u32 = 0;
    while j < s.len() && in_class_exec(s[j], &Class::Digit)
        invariant
            i <= j <= e <= s@.len(),
            e == span_end(s@, i as int, Class::Digit),
            span_end(s@, i as int, Class::Digit) == span_end(s@, j as int, Class::Digit),
            forall|m: int| i <= m < e ==> in_class(#[trigger] s@[m], Class::Digit),
            value == digits_value(s@.subrange(i as int, j as int)),
            value <= 65535,
        decreases s@.len() - j,
    {
        proof {
            lemma_span_end_bounds(s@, j + 1, Class::Digit);
        }
        let d = (s[j] as u32) - 48;
        assert(s@.subrange(i as int, j + 1).drop_last() =~= s@.subrange(i as int, j as int));
        if value * 10 + d > 65535 {
            proof {
                let whole = s@.subrange(i as int, e);
                lemma_digits_value_grows(whole, j + 1 - i);
                assert(whole.subrange(0, j + 1 - i) =~= s@.subrange(i as int, j + 1));
            }
            return Err(Failure { pos: i, kind: ErrorKind::Digit });
        }
        value = value * 10 + d;
        j = j + 1;
    }
    if j == i {
        Err(Failure { pos: i, kind: ErrorKind::Digit })
    } else {
        Ok((j, value as u16))
    }
}


/// The marker word of the header line.
pub open spec fn header_word() -> Seq<char> {
    seq!['$', 'F', 'o', 'r', 'm', 'a', 't', 'G', 'E', 'O']
}

/// The value of degrees, minutes, seconds and hundredths of a second, in
/// hundredths of a second of arc.
pub open spec fn arc_units(d: u16, m: u16, sec: u16, h: u16) -> int {
    d * 360000 + m * 6000 + sec * 100 + h
}

/// An angle in degrees, minutes and seconds: `degrees minutes seconds.hundredths`,
/// with the part after the dot always counted in hundredths of a second.
pub open spec fn degree_at(s: Seq<char>, i: int) -> Outcome<Coordinate> {
    match number_at(s, i) {
        Err(e) => Err(e),
        Ok((i1, d)) => match space1_at(s, i1) {
            Err(e) => Err(e),
            Ok((i2, _)) => match number_at(s, i2) {
                Err(e) => Err(e),
                Ok((i3, m)) => match space1_at(s, i3) {
                    Err(e) => Err(e),
                    Ok((i4, _)) => match number_at(s, i4) {
                        Err(e) => Err(e),
                        Ok((i5, sec)) => match char_at(s, i5, '.') {
                            Err(e) => Err(e),
                            Ok((i6, _)) => match number_at(s, i6) {
                                Err(e) => Err(e),
                                Ok((i7, h)) => Ok(
                                    (
                                        i7,
                                        Coordinate {
                                            numerator: arc_units(d, m, sec, h) as i64,
                                            denominator: 360000,
                                        },
                                    ),
                                ),
                            },
                        },
                    },
                },
            },
        },
    }
}

/// The coordinate `c` with its sign flipped.
pub open spec fn negated(c: Coordinate) -> Coordinate {
    Coordinate { numerator: (-c.numerator) as i64, denominator: c.denominator }
}

/// A hemisphere letter, spaces, and an angle: positive after `pos`,
/// negated after `neg`.
pub open spec fn angle_at(s: Seq<char>, i: int, pos: char, neg: char) -> Outcome<Coordinate> {
    match one_of_at(s, i, pos, neg) {
        Err(e) => Err(e),
        Ok((i1, positive)) => match space1_at(s, i1) {
            Err(e) => Err(e),
            Ok((i2, _)) => match degree_at(s, i2) {
                Err(e) => Err(e),
                Ok((i3, c)) => Ok(
                    (
                        i3,
                        if positive {
                            c
                        } else {
                            negated(c)
                        },
                    ),
                ),
            },
        },
    }
}

/// A name: one or more ASCII letters or digits.
pub open spec fn name_at(s: Seq<char>, i: int) -> Outcome<()> {
    let e = span_end(s, i, Class::AlphaNumeric);
    if e == i {
        Err((i, ErrorKind::AlphaNumeric))
    } else {
        Ok((e, ()))
    }
}

/// Free text up to a line ending or the end of the input. A carriage
/// return that does not start `"\r\n"` fails at the start of the text.
pub open spec fn description_at(s: Seq<char>, i: int) -> Outcome<()> {
    let e = span_end(s, i, Class::Text);
    if e < s.len() && s[e] == '\r' && !(e + 1 < s.len() && s[e + 1] == '\n') {
        Err((i, ErrorKind::Tag))
    } else {
        Ok((e, ()))
    }
}

/// The header line: the marker word and a line ending.
pub open spec fn header_at(s: Seq<char>, i: int) -> Outcome<()> {
    if 0 <= i && i + 10 <= s.len() && s.subrange(i, i + 10) == header_word() {
        line_ending_at(s, i + 10)
    } else {
        Err((i, ErrorKind::Tag))
    }
}

/// One waypoint line: name, latitude, longitude, altitude and description,
/// separated by spaces, then a line ending.
pub open spec fn waypoint_at(s: Seq<char>, i: int) -> Outcome<WaypointView> {
    match name_at(s, i) {
        Err(e) => Err(e),
        Ok((i1, _)) => match space1_at(s, i1) {
            Err(e) => Err(e),
            Ok((i2, _)) => match angle_at(s, i2, 'N', 'S') {
                Err(e) => Err(e),
                Ok((i3, lat)) => match space1_at(s, i3) {
                    Err(e) => Err(e),
                    Ok((i4, _)) => match angle_at(s, i4, 'E', 'W') {
                        Err(e) => Err(e),
                        Ok((i5, lon)) => match space1_at(s, i5) {
                            Err(e) => Err(e),
                            Ok((i6, _)) => match number_at(s, i6) {
                                Err(e) => Err(e),
                                Ok((i7, alt)) => match space1_at(s, i7) {
                                    Err(e) => Err(e),
                                    Ok((i8, _)) => match description_at(s, i8) {
                                        Err(e) => Err(e),
                                        Ok((i9, _)) => match line_ending_at(s, i9) {
                                            Err(e) => Err(e),
                                            Ok((i10, _)) => Ok(
                                                (
                                                    i10,
                                                    WaypointView {
                                                        name: s.subrange(i, i1),
                                                        latitude: lat,
                                                        longitude: lon,
                                                        altitude: alt,
                                                        description: s.subrange(i8, i9),
                                                    },
                                                ),
                                            ),
                                        },
                                    },
                                },
                            },
                        },
                    },
                },
            },
        },
    }
}


fn degree_from(s: &Vec<char>, i: usize) -> (r: Result<(usize, Coordinate), Failure>)
    requires
        i <= s@.len(),
    ensures
        agrees(r, degree_at(s@, i as int)),
        r matches Ok((e, _)) ==> i <= e <= s@.len(),
        r matches Err(f) ==> f.pos <= s@.len(),
{
    let (i1, d) = match number(s, i) {
        Err(f) => return Err(f),
        Ok(x) => x,
    };
    let (i2, _) = match space1(s, i1) {
        Err(f) => return Err(f),
        Ok(x) => x,
    };
    let (i3, m) = match number(s, i2) {
        Err(f) => return Err(f),
        Ok(x) => x,
    };
    let (i4, _) = match space1(s, i3) {
        Err(f) => return Err(f),
        Ok(x) => x,
    };
    let (i5, sec) = match number(s, i4) {
        Err(f) => return Err(f),
        Ok(x) => x,
    };
    let (i6, _) = match char_exact(s, i5, '.') {
        Err(f) => return Err(f),
        Ok(x) => x,
    };
    let (i7, h) = match number(s, i6) {
        Err(f) => return Err(f),
        Ok(x) => x,
    };
    let units: i64 = d as i64 * 360000 + m as i64 * 6000 + sec as i64 * 100 + h as i64;
    Ok((i7, Coordinate { numerator: units, denominator: 360000 }))
}

fn angle(s: &Vec<char>, i: usize, pos: char, neg: char) -> (r: Result<(usize, Coordinate), Failure>)
    requires
        i <= s@.len(),
    ensures
        agrees(r, angle_at(s@, i as int, pos, neg)),
        r matches Ok((e, _)) ==> i <= e <= s@.len(),
        r matches Err(f) ==> f.pos <= s@.len(),
{
    let (i1, positive) = match one_of(s, i, pos, neg) {
        Err(f) => return Err(f),
        Ok(x) => x,
    };
    let (i2, _) = match space1(s, i1) {
        Err(f) => return Err(f),
        Ok(x) => x,
    };
    let (i3, c) = match degree_from(s, i2) {
        Err(f) => return Err(f),
        Ok(x) => x,
    };
    if positive {
        Ok((i3, c))
    } else {
        Ok((i3, Coordinate { numerator: -c.numerator, denominator: c.denominator }))
    }
}

fn name_span(s: &Vec<char>, i: usize) -> (r: Result<(usize, ()), Failure>)
    requires
        i <= s@.len(),
    ensures
        agrees(r, name_at(s@, i as int)),
        r matches Ok((e, _)) ==> i <= e <= s@.len(),
        r matches Err(f) ==> f.pos <= s@.len(),
{
    let e = scan(s, i, Class::AlphaNumeric);
    if e == i {
        Err(Failure { pos: i, kind: ErrorKind::AlphaNumeric })
    } else {
        Ok((e, ()))
    }
}

fn description_span(s: &Vec<char>, i: usize) -> (r: Result<(usize, ()), Failure>)
    requires
        i <= s@.len(),
    ensures
        agrees(r, description_at(s@, i as int)),
        r matches Ok((e, _)) ==> i <= e <= s@.len(),
        r matches Err(f) ==> f.pos <= s@.len(),
{
    let e = scan(s, i, Class::Text);
    if e < s.len() && s[e] == '\r' && !(e + 1 < s.len() && s[e + 1] == '\n') {
        Err(Failure { pos: i, kind: ErrorKind::Tag })
    } else {
        Ok((e, ()))
    }
}

fn header_line(s: &Vec<char>, i: usize) -> (r: Result<(usize, ()), Failure>)
    requires
        i <= s@.len(),
    ensures
        agrees(r, header_at(s@, i as int)),
        r matches Ok((e, _)) ==> i <= e <= s@.len(),
        r matches Err(f) ==> f.pos <= s@.len(),
{
    let word: [char; 10] = ['$', 'F', 'o', 'r', 'm', 'a', 't', 'G', 'E', 'O'];
    assert(word@ =~= header_word());
    if s.len() - i < 10 {
        return Err(Failure { pos: i, kind: ErrorKind::Tag });
    }
    let mut k: usize = 0;
    while k < 10
        invariant
            k <= 10,
            i + 10 <= s@.len() <= usize::MAX,
            word@ == header_word(),
            forall|m: int| 0 <= m < k ==> s@[i + m] == header_word()[m],
        decreases 10 - k,
    {
        if s[i + k] != word[k] {
            assert(s@.subrange(i as int, i + 10)[k as int] != header_word()[k as int]);
            return Err(Failure { pos: i, kind: ErrorKind::Tag });
        }
        k = k + 1;
    }
    assert(s@.subrange(i as int, i + 10) =~= header_word());
    line_ending(s, i + 10)
}


/// The waypoint lines that follow position `i`, up to the first position
/// where no complete waypoint line starts; that position comes first.
pub open spec fn waypoints_from(s: Seq<char>, i: int) -> (int, Seq<WaypointView>)
    decreases s.len() - i,
{
    match waypoint_at(s, i) {
        Ok((j, w)) => if i < j <= s.len() {
            let (k, ws) = waypoints_from(s, j);
            (k, seq![w] + ws)
        } else {
            (i, Seq::empty())
        },
        Err(_) => (i, Seq::empty()),
    }
}

/// The header line, then as many waypoint lines as follow it.
pub open spec fn waypoints_at(s: Seq<char>) -> Outcome<Seq<WaypointView>> {
    match header_at(s, 0) {
        Err(e) => Err(e),
        Ok((i, _)) => Ok(waypoints_from(s, i)),
    }
}

/// A whole document: the header line and waypoint lines, with nothing left
/// over. Left-over input fails at its first character.
pub open spec fn document(s: Seq<char>) -> Result<Seq<WaypointView>, (int, ErrorKind)> {
    match waypoints_at(s) {
        Err(e) => Err(e),
        Ok((k, ws)) => if k == s.len() {
            Ok(ws)
        } else {
            Err((k, ErrorKind::Eof))
        },
    }
}

pub open spec fn views(v: Seq<Waypoint>) -> Seq<WaypointView> {
    v.map_values(|w: Waypoint| w@)
}

/// A parse error reports the failure `f` on the input `s`.
pub open spec fn reports_failure(s: Seq<char>, e: ParseError, f: (int, ErrorKind)) -> bool {
    e.remaining@ == s.skip(f.0) && e.kind == f.1
}

fn chars_of(text: &str) -> (r: Vec<char>)
    ensures
        r@ == text@,
{
    let n = text.unicode_len();
    let mut r: Vec<char> = Vec::new();
    let mut it = text.chars();
    let mut k: usize = 0;
    assert(text@.skip(0) =~= text@);
    while k < n
        invariant
            n == text@.len(),
            k <= n,
            r@ == text@.take(k as int),
            it.remaining() == text@.skip(k as int),
        decreases n - k,
    {
        let c = it.next();
        assert(text@.skip(k as int).drop_first() =~= text@.skip(k + 1));
        assert(text@.take(k as int).push(text@[k as int]) =~= text@.take(k + 1));
        if let Some(c) = c {
            r.push(c);
        }
        k = k + 1;
    }
    assert(text@.take(n as int) =~= text@);
    r
}


fn text_between(text: &str, s: &Vec<char>, from: usize, to: usize) -> (r: String)
    requires
        s@ == text@,
        from <= to <= s@.len(),
    ensures
        r@ == s@.subrange(from as int, to as int),
{
    text.substring_char(from, to).to_owned()
}

fn report(text: &str, s: &Vec<char>, f: Failure) -> (e: ParseError)
    requires
        s@ == text@,
        f.pos <= s@.len(),
    ensures
        reports_failure(s@, e, (f.pos as int, f.kind)),
{
    ParseError { remaining: text_between(text, s, f.pos, s.len()), kind: f.kind }
}

fn waypoint_line(text: &str, s: &Vec<char>, i: usize) -> (r: Result<(usize, Waypoint), Failure>)
    requires
        s@ == text@,
        i <= s@.len(),
    ensures
        match r {
            Ok((e, w)) => waypoint_at(s@, i as int) == Outcome::<WaypointView>::Ok(
                (e as int, w@),
            ) && i < e <= s@.len(),
            Err(f) => waypoint_at(s@, i as int) == Outcome::<WaypointView>::Err(
                (f.pos as int, f.kind),
            ) && f.pos <= s@.len(),
        },
{
    let (i1, _) = match name_span(s, i) {
        Err(f) => return Err(f),
        Ok(x) => x,
    };
    let (i2, _) = match space1(s, i1) {
        Err(f) => return Err(f),
        Ok(x) => x,
    };
    let (i3, latitude) = match angle(s, i2, 'N', 'S') {
        Err(f) => return Err(f),
        Ok(x) => x,
    };
    let (i4, _) = match space1(s, i3) {
        Err(f) => return Err(f),
        Ok(x) => x,
    };
    let (i5, longitude) = match angle(s, i4, 'E', 'W') {
        Err(f) => return Err(f),
        Ok(x) => x,
    };
    let (i6, _) = match space1(s, i5) {
        Err(f) => return Err(f),
        Ok(x) => x,
    };
    let (i7, altitude) = match number(s, i6) {
        Err(f) => return Err(f),
        Ok(x) => x,
    };
    let (i8, _) = match space1(s, i7) {
        Err(f) => return Err(f),
        Ok(x) => x,
    };
    let (i9, _) = match description_span(s, i8) {
        Err(f) => return Err(f),
        Ok(x) => x,
    };
    let (i10, _) = match line_ending(s, i9) {
        Err(f) => return Err(f),
        Ok(x) => x,
    };
    let w = Waypoint {
        name: text_between(text, s, i, i1),
        latitude,
        longitude,
        altitude,
        description: text_between(text, s, i8, i9),
    };
    Ok((i10, w))
}

fn waypoint_lines(text: &str, s: &Vec<char>, i: usize) -> (r: (usize, Vec<Waypoint>))
    requires
        s@ == text@,
        i <= s@.len(),
    ensures
        waypoints_from(s@, i as int) == (r.0 as int, views(r.1@)),
        i <= r.0 <= s@.len(),
{
    let mut acc: Vec<Waypoint> = Vec::new();
    let mut j = i;
    assert(views(acc@) + waypoints_from(s@, i as int).1 =~= waypoints_from(s@, i as int).1);
    loop
        invariant
            s@ == text@,
            i <= j <= s@.len(),
            waypoints_from(s@, i as int).0 == waypoints_from(s@, j as int).0,
            waypoints_from(s@, i as int).1 == views(acc@) + waypoints_from(s@, j as int).1,
        ensures
            i <= j <= s@.len(),
            waypoints_from(s@, i as int) == (j as int, views(acc@)),
        decreases s@.len() - j,
    {
        match waypoint_line(text, s, j) {
            Ok((e, w)) => {
                let ghost before = acc@;
                acc.push(w);
                assert(views(acc@) =~= views(before).push(w@));
                assert(views(acc@) + waypoints_from(s@, e as int).1 =~= views(before) + (seq![w@]
                    + waypoints_from(s@, e as int).1));
                j = e;
            },
            Err(_) => {
                assert(waypoints_from(s@, j as int) == (j as int, Seq::<WaypointView>::empty()));
                assert(views(acc@) + waypoints_from(s@, j as int).1 =~= views(acc@));
                break ;
            },
        }
    }
    (j, acc)
}

/// Reads a waypoint document: the `$FormatGEO` header line, then one line
/// per waypoint, with nothing left over.
pub fn parse(input: &str) -> (r: Result<Vec<Waypoint>, ParseError>)
    ensures
        match r {
            Ok(ws) => document(input@) == Ok::<Seq<WaypointView>, (int, ErrorKind)>(views(ws@)),
            Err(e) => document(input@) is Err && reports_failure(
                input@,
                e,
                document(input@)->Err_0,
            ),
        },
{
    let s = chars_of(input);
    let i = match header_line(&s, 0) {
        Err(f) => return Err(report(input, &s, f)),
        Ok((i, _)) => i,
    };
    let (k, ws) = waypoint_lines(input, &s, i);
    if k == s.len() {
        Ok(ws)
    } else {
        Err(report(input, &s, Failure { pos: k, kind: ErrorKind::Eof }))
    }
}


/// A result whose value is the text a rule consumed from the start of `s`.
pub open spec fn reported_text(s: Seq<char>, r: Result<(String, String), ParseError>, m: Outcome<()>) -> bool {
    match r {
        Ok((rest, v)) => m is Ok && rest@ == s.skip(m->Ok_0.0) && v@ == s.take(m->Ok_0.0),
        Err(e) => m is Err && reports_failure(s, e, m->Err_0),
    }
}

/// A result whose value is one waypoint.
pub open spec fn reported_waypoint(
    s: Seq<char>,
    r: Result<(String, Waypoint), ParseError>,
    m: Outcome<WaypointView>,
) -> bool {
    match r {
        Ok((rest, v)) => m is Ok && rest@ == s.skip(m->Ok_0.0) && v@ == m->Ok_0.1,
        Err(e) => m is Err && reports_failure(s, e, m->Err_0),
    }
}

/// A result whose value is a list of waypoints.
pub open spec fn reported_waypoints(
    s: Seq<char>,
    r: Result<(String, Vec<Waypoint>), ParseError>,
    m: Outcome<Seq<WaypointView>>,
) -> bool {
    match r {
        Ok((rest, v)) => m is Ok && rest@ == s.skip(m->Ok_0.0) && views(v@) == m->Ok_0.1,
        Err(e) => m is Err && reports_failure(s, e, m->Err_0),
    }
}

fn finish<T>(text: &str, s: &Vec<char>, r: Result<(usize, T), Failure>) -> (out: Result<
    (String, T),
    ParseError,
>)
    requires
        s@ == text@,
        r matches Ok((e, _)) ==> e <= s@.len(),
        r matches Err(f) ==> f.pos <= s@.len(),
    ensures
        match r {
            Ok((e, v)) => out matches Ok((rest, w)) && rest@ == s@.skip(e as int) && w == v,
            Err(f) => out matches Err(pe) && reports_failure(s@, pe, (f.pos as int, f.kind)),
        },
{
    match r {
        Ok((e, v)) => Ok((text_between(text, s, e, s.len()), v)),
        Err(f) => Err(report(text, s, f)),
    }
}

fn finish_text(text: &str, s: &Vec<char>, r: Result<(usize, ()), Failure>) -> (out: Result<
    (String, String),
    ParseError,
>)
    requires
        s@ == text@,
        r matches Ok((e, _)) ==> e <= s@.len(),
        r matches Err(f) ==> f.pos <= s@.len(),
    ensures
        match r {
            Ok((e, _)) => out matches Ok((rest, w)) && rest@ == s@.skip(e as int) && w@ == s@.take(
                e as int,
            ),
            Err(f) => out matches Err(pe) && reports_failure(s@, pe, (f.pos as int, f.kind)),
        },
{
    match r {
        Ok((e, _)) => Ok((text_between(text, s, e, s.len()), text_between(text, s, 0, e))),
        Err(f) => Err(report(text, s, f)),
    }
}

/// Reads the header line and the waypoint lines that follow it, and hands
/// back what is left.
pub fn waypoints(input: &str) -> (r: Result<(String, Vec<Waypoint>), ParseError>)
    ensures
        reported_waypoints(input@, r, waypoints_at(input@)),
{
    let s = chars_of(input);
    match header_line(&s, 0) {
        Err(f) => Err(report(input, &s, f)),
        Ok((i, _)) => {
            let (k, ws) = waypoint_lines(input, &s, i);
            Ok((text_between(input, &s, k, s.len()), ws))
        },
    }
}

/// Reads the header line.
pub fn header(input: &str) -> (r: Result<(String, ()), ParseError>)
    ensures
        reported(input@, r, header_at(input@, 0)),
{
    let s = chars_of(input);
    finish(input, &s, header_line(&s, 0))
}

/// Reads one waypoint line.
pub fn waypoint(input: &str) -> (r: Result<(String, Waypoint), ParseError>)
    ensures
        reported_waypoint(input@, r, waypoint_at(input@, 0)),
{
    let s = chars_of(input);
    match waypoint_line(input, &s, 0) {
        Ok((e, w)) => Ok((text_between(input, &s, e, s.len()), w)),
        Err(f) => Err(report(input, &s, f)),
    }
}

/// Reads a name.
pub fn name(input: &str) -> (r: Result<(String, String), ParseError>)
    ensures
        reported_text(input@, r, name_at(input@, 0)),
{
    let s = chars_of(input);
    finish_text(input, &s, name_span(&s, 0))
}

/// Reads a latitude: `N` or `S`, spaces, and an angle.
pub fn latitude(input: &str) -> (r: Result<(String, Coordinate), ParseError>)
    ensures
        reported(input@, r, angle_at(input@, 0, 'N', 'S')),
{
    let s = chars_of(input);
    finish(input, &s, angle(&s, 0, 'N', 'S'))
}

/// Reads a longitude: `E` or `W`, spaces, and an angle.
pub fn longitude(input: &str) -> (r: Result<(String, Coordinate), ParseError>)
    ensures
        reported(input@, r, angle_at(input@, 0, 'E', 'W')),
{
    let s = chars_of(input);
    finish(input, &s, angle(&s, 0, 'E', 'W'))
}

/// Reads an angle in degrees, minutes, seconds and hundredths of a second.
pub fn degree(input: &str) -> (r: Result<(String, Coordinate), ParseError>)
    ensures
        reported(input@, r, degree_at(input@, 0)),
{
    let s = chars_of(input);
    finish(input, &s, degree_from(&s, 0))
}

/// Reads an altitude: a decimal number that fits in 16 bits.
pub fn altitude(input: &str) -> (r: Result<(String, u16), ParseError>)
    ensures
        reported(input@, r, number_at(input@, 0)),
{
    let s = chars_of(input);
    finish(input, &s, number(&s, 0))
}

/// Reads a description: the text up to the line ending.
pub fn description(input: &str) -> (r: Result<(String, String), ParseError>)
    ensures
        reported_text(input@, r, description_at(input@, 0)),
{
    let s = chars_of(input);
    finish_text(input, &s, description_span(&s, 0))
}


proof fn lemma_span_end_local(s: Seq<char>, t: Seq<char>, i: int, j: int, k: Class)
    requires
        s.len() == t.len(),
        0 <= i <= j <= s.len(),
        forall|m: int| i <= m < s.len() ==> s[m] == t[m],
    ensures
        span_end(s, j, k) == span_end(t, j, k),
    decreases s.len() - j,
{
    if j < s.len() && in_class(s[j], k) {
        lemma_span_end_local(s, t, i, j + 1, k);
    }
}

proof fn lemma_rules_local(s: Seq<char>, t: Seq<char>, i: int, j: int)
    requires
        s.len() == t.len(),
        0 <= i <= j <= s.len(),
        forall|m: int| i <= m < s.len() ==> s[m] == t[m],
    ensures
        number_at(s, j) == number_at(t, j),
        space1_at(s, j) == space1_at(t, j),
        char_at(s, j, '.') == char_at(t, j, '.'),
        number_at(s, j) matches Ok((e, _)) ==> j <= e <= s.len(),
        space1_at(s, j) matches Ok((e, _)) ==> j <= e <= s.len(),
        char_at(s, j, '.') matches Ok((e, _)) ==> j <= e <= s.len(),
{
    lemma_span_end_local(s, t, i, j, Class::Digit);
    lemma_span_end_local(s, t, i, j, Class::Space);
    lemma_span_end_bounds(s, j, Class::Digit);
    lemma_span_end_bounds(s, j, Class::Space);
    assert(s.subrange(j, span_end(s, j, Class::Digit)) =~= t.subrange(
        j,
        span_end(t, j, Class::Digit),
    ));
}

/// The angle rule reads nothing before its position.
proof fn lemma_degree_local(s: Seq<char>, t: Seq<char>, i: int, j: int)
    requires
        s.len() == t.len(),
        0 <= i <= j <= s.len(),
        forall|m: int| i <= m < s.len() ==> s[m] == t[m],
    ensures
        degree_at(s, j) == degree_at(t, j),
{
    lemma_rules_local(s, t, i, j);
    if let Ok((i1, _)) = number_at(s, j) {
        lemma_rules_local(s, t, i, i1);
        if let Ok((i2, _)) = space1_at(s, i1) {
            lemma_rules_local(s, t, i, i2);
            if let Ok((i3, _)) = number_at(s, i2) {
                lemma_rules_local(s, t, i, i3);
                if let Ok((i4, _)) = space1_at(s, i3) {
                    lemma_rules_local(s, t, i, i4);
                    if let Ok((i5, _)) = number_at(s, i4) {
                        lemma_rules_local(s, t, i, i5);
                        if let Ok((i6, _)) = char_at(s, i5, '.') {
                            lemma_rules_local(s, t, i, i6);
                        }
                    }
                }
            }
        }
    }
}

/// The hemisphere letter sets the sign: an angle read after the negative
/// letter is the one read after the positive letter, negated.
pub proof fn lemma_hemisphere_sign(s: Seq<char>, i: int, pos: char, neg: char)
    requires
        0 <= i < s.len(),
        s[i] == pos,
        pos != neg,
    ensures
        angle_at(s, i, pos, neg) is Ok <==> angle_at(s.update(i, neg), i, pos, neg) is Ok,
        angle_at(s, i, pos, neg) matches Ok((e, c)) ==> angle_at(s.update(i, neg), i, pos, neg)
            == Outcome::<Coordinate>::Ok((e, negated(c))),
{
    let t = s.update(i, neg);
    lemma_rules_local(s, t, i + 1, i + 1);
    if let Ok((i2, _)) = space1_at(s, i + 1) {
        lemma_degree_local(s, t, i + 1, i2);
    }
}

/// A number that does not start with a digit fails at its position,
/// expecting a digit.
pub proof fn lemma_number_needs_digit(s: Seq<char>, i: int)
    requires
        0 <= i <= s.len(),
        i == s.len() || !in_class(s[i], Class::Digit),
    ensures
        number_at(s, i) == Outcome::<u16>::Err((i, ErrorKind::Digit)),
{
}

/// A document parses exactly when its header and waypoint lines consume the
/// whole input; input left over after them fails at its first character,
/// expecting the end of the input.
pub proof fn lemma_all_consuming(s: Seq<char>)
    ensures
        document(s) is Ok <==> (waypoints_at(s) is Ok && waypoints_at(s)->Ok_0.0 == s.len()),
        waypoints_at(s) is Ok && waypoints_at(s)->Ok_0.0 != s.len() ==> document(s) == Err::<
            Seq<WaypointView>,
            (int, ErrorKind),
        >((waypoints_at(s)->Ok_0.0, ErrorKind::Eof)),
{
}

} // verus!
