//! Extraction of sensor readings from JSON text of the form
//! `{"Sx1":"..","Sy1":"..","Sc1":"..","Sx2":..}`.
//!
//! A reading is kept as the text of its three coordinates; turning that
//! text into numbers is left to the caller.

use vstd::prelude::*;
use vstd::string::*;
use vstd::utf8::*;

use crate::buffer::RingBuffer;
use crate::bytes::{
    copy_range, decimal, lemma_ascii_valid_utf8, lemma_decimal_digits, find_byte, find_sub_from, find_subslice, first_index_from,
    lemma_first_index_from, match_at, opt_int, push_decimal, skip_whitespace, skip_ws,
    str_from_utf8, trim_end_from, trim_whitespace_end,
};
use crate::error::ErrorCode;

verus! {

broadcast use encode_utf8_decode_utf8;

/// Most points a reading may hold.
pub const MAX_POINTS: usize = 1000;

/// Byte values of the characters the format is built from.
pub const QUOTE: u8 = 0x22;
pub const COLON: u8 = 0x3a;
pub const COMMA: u8 = 0x2c;
pub const OPEN_BRACE: u8 = 0x7b;
pub const CLOSE_BRACE: u8 = 0x7d;
pub const LETTER_S: u8 = 0x53;
pub const AXIS_X: u8 = 0x78;
pub const AXIS_Y: u8 = 0x79;
pub const AXIS_C: u8 = 0x63;

/// The text of one sensor point: its x, y and c coordinates.
pub struct SensorReading {
    pub x: Vec<u8>,
    pub y: Vec<u8>,
    pub c: Vec<u8>,
}

/// The three coordinate texts of a point.
pub type ReadingView = (Seq<u8>, Seq<u8>, Seq<u8>);

impl View for SensorReading {
    type V = ReadingView;

    open spec fn view(&self) -> ReadingView {
        (self.x@, self.y@, self.c@)
    }
}

/// The coordinate texts of a sequence of readings.
pub open spec fn readings_view(v: Seq<SensorReading>) -> Seq<ReadingView> {
    v.map_values(|r: SensorReading| r@)
}

/// Index of the first comma or closing brace in `s` at or after `from`.
pub open spec fn first_delim_from(s: Seq<u8>, from: int) -> Option<int>
    decreases s.len() - from,
{
    if from < 0 || from >= s.len() {
        None
    } else if s[from] == COMMA || s[from] == CLOSE_BRACE {
        Some(from)
    } else {
        first_delim_from(s, from + 1)
    }
}

/// Byte range of the value that follows the first occurrence of `key` in
/// `json`, after leading whitespace. A value that opens with a quote runs
/// to the next quote (none: no value); any other value runs to the next
/// comma or closing brace, or to the end, without trailing whitespace.
pub open spec fn spec_value_range(json: Seq<u8>, key: Seq<u8>) -> Option<(int, int)> {
    match find_sub_from(json, key, 0) {
        None => None,
        Some(p) => {
            let v = skip_ws(json, p + key.len());
            if v < json.len() && json[v] == QUOTE {
                match first_index_from(json, QUOTE, v + 1) {
                    None => None,
                    Some(q) => Some((v + 1, q)),
                }
            } else {
                let stop = match first_delim_from(json, v) {
                    Some(d) => d,
                    None => json.len() as int,
                };
                Some((v, trim_end_from(json, v, stop)))
            }
        },
    }
}

/// The value that follows `key` in `json`.
pub open spec fn spec_extract_value(json: Seq<u8>, key: Seq<u8>) -> Option<Seq<u8>> {
    match spec_value_range(json, key) {
        Some((a, b)) => Some(json.subrange(a, b)),
        None => None,
    }
}

/// The key `"S<axis><i>":` of coordinate `axis` of point `i`.
pub open spec fn point_key(axis: u8, i: nat) -> Seq<u8> {
    seq![QUOTE, LETTER_S, axis] + decimal(i) + seq![QUOTE, COLON]
}

/// Point `i` of `json`, when all three of its coordinates are present.
pub open spec fn spec_point(json: Seq<u8>, i: nat) -> Option<ReadingView> {
    match (
        spec_extract_value(json, point_key(AXIS_X, i)),
        spec_extract_value(json, point_key(AXIS_Y, i)),
        spec_extract_value(json, point_key(AXIS_C, i)),
    ) {
        (Some(x), Some(y), Some(c)) => Some((x, y, c)),
        _ => None,
    }
}

/// The points `i`, `i + 1`, ... of `json` up to the first one missing, and
/// at most up to point `MAX_POINTS`.
pub open spec fn spec_points_from(json: Seq<u8>, i: nat) -> Seq<ReadingView>
    decreases MAX_POINTS + 1 - i,
{
    if i < 1 || i > MAX_POINTS {
        Seq::<ReadingView>::empty()
    } else {
        match spec_point(json, i) {
            Some(p) => seq![p] + spec_points_from(json, i + 1),
            None => Seq::<ReadingView>::empty(),
        }
    }
}

/// Accepts `points` when there is at least one and, if `expected` is not
/// 0, exactly `expected` of them; otherwise `JsonParseFailed`.
pub open spec fn spec_check_count(expected: u16, points: Seq<ReadingView>) -> Result<
    Seq<ReadingView>,
    ErrorCode,
> {
    if expected > 0 && points.len() != expected {
        Err(ErrorCode::JsonParseFailed)
    } else if points.len() == 0 {
        Err(ErrorCode::JsonParseFailed)
    } else {
        Ok(points)
    }
}

/// The readings of `json`, which must open with `{` and close with `}`.
pub open spec fn spec_parse(expected: u16, json: Seq<u8>) -> Result<Seq<ReadingView>, ErrorCode> {
    if json.len() == 0 || json[0] != OPEN_BRACE || json.last() != CLOSE_BRACE {
        Err(ErrorCode::JsonParseFailed)
    } else {
        spec_check_count(expected, spec_points_from(json, 1))
    }
}

/// Byte range from the first `{` through the first `}` after it.
pub open spec fn spec_find_braces(b: Seq<u8>) -> Option<(int, int)> {
    match first_index_from(b, OPEN_BRACE, 0) {
        None => None,
        Some(s) => match first_index_from(b, CLOSE_BRACE, s) {
            None => None,
            Some(e) => Some((s, e + 1)),
        },
    }
}

/// `spec_find_braces` on valid UTF-8; nothing otherwise.
pub open spec fn spec_find_json_object(b: Seq<u8>) -> Option<(int, int)> {
    if valid_utf8(b) {
        spec_find_braces(b)
    } else {
        None
    }
}

/// Locates the first `{` and the first `}` after it.
pub fn find_braces(buffer: &[u8]) -> (r: Option<(usize, usize)>)
    ensures
        match r {
            Some((s, e)) => spec_find_braces(buffer@) == Some((s as int, e as int)),
            None => spec_find_braces(buffer@) is None,
        },
{
    let start = match find_byte(buffer, OPEN_BRACE, 0) {
        Some(s) => s,
        None => return None,
    };
    proof {
        lemma_first_index_from(buffer@, OPEN_BRACE, 0);
    }
    let end = match find_byte(buffer, CLOSE_BRACE, start) {
        Some(e) => e,
        None => return None,
    };
    proof {
        lemma_first_index_from(buffer@, CLOSE_BRACE, start as int);
        assert(buffer@.len() == buffer.len());
    }
    Some((start, end + 1))
}

/// Locates a complete JSON object (first `{` through the first `}` after
/// it) in a buffer that holds valid UTF-8.
pub fn find_json_object(buffer: &[u8]) -> (r: Option<(usize, usize)>)
    ensures
        match r {
            Some((s, e)) => spec_find_json_object(buffer@) == Some((s as int, e as int)),
            None => spec_find_json_object(buffer@) is None,
        },
{
    if str_from_utf8(buffer).is_none() {
        return None;
    }
    find_braces(buffer)
}

/// The bytes between the braces found by `spec_find_braces` are valid
/// UTF-8 when the whole buffer is.
proof fn lemma_object_valid_utf8(b: Seq<u8>, s: int, e: int)
    requires
        valid_utf8(b),
        spec_find_braces(b) == Some((s, e)),
    ensures
        valid_utf8(b.subrange(s, e)),
{
    lemma_first_index_from(b, OPEN_BRACE, 0);
    lemma_first_index_from(b, CLOSE_BRACE, s);
    is_char_boundary_iff_not_is_continuation_byte(b, s);
    valid_utf8_split(b, s);
    let u = b.subrange(s, b.len() as int);
    let k = e - 1 - s;
    is_char_boundary_iff_not_is_continuation_byte(u, k);
    valid_utf8_split(u, k);
    lemma_ascii_valid_utf8(seq![CLOSE_BRACE]);
    valid_utf8_concat(u.subrange(0, k), seq![CLOSE_BRACE]);
    assert(u.subrange(0, k) + seq![CLOSE_BRACE] =~= b.subrange(s, e));
}

/// Builds the key of coordinate `axis` of point `i`.
fn point_key_exec(axis: u8, i: usize) -> (r: Vec<u8>)
    ensures
        r@ == point_key(axis, i as nat),
{
    let mut k: Vec<u8> = Vec::new();
    k.push(QUOTE);
    k.push(LETTER_S);
    k.push(axis);
    push_decimal(&mut k, i);
    k.push(QUOTE);
    k.push(COLON);
    k
}

/// Parser of sensor readings.
pub struct JsonParser {
    expected_points: u16,
}

impl JsonParser {
    /// The number of points a reading must hold (0: any number).
    pub closed spec fn spec_expected(&self) -> u16 {
        self.expected_points
    }

    pub fn new(expected_points: u16) -> (r: Self)
        ensures
            r.spec_expected() == expected_points,
    {
        JsonParser { expected_points }
    }

    /// The value that follows the first occurrence of `key` in `json`.
    pub fn extract_value<'a>(&self, json: &'a [u8], key: &[u8]) -> (r: Option<&'a [u8]>)
        ensures
            match r {
                Some(v) => spec_extract_value(json@, key@) == Some(v@),
                None => spec_extract_value(json@, key@) is None,
            },
    {
        let p = match find_subslice(json, key) {
            Some(p) => p,
            None => return None,
        };
        proof {
            lemma_find_sub_from_in_bounds(json@, key@, 0);
            assert(json@.len() == json.len());
        }
        let v = skip_whitespace(json, p + key.len());
        if v < json.len() && json[v] == QUOTE {
            match find_byte(json, QUOTE, v + 1) {
                None => None,
                Some(q) => {
                    proof {
                        lemma_first_index_from(json@, QUOTE, v + 1);
                    }
                    Some(vstd::slice::slice_subrange(json, v + 1, q))
                },
            }
        } else {
            let stop = match find_delim(json, v) {
                Some(d) => d,
                None => json.len(),
            };
            let end = trim_whitespace_end(json, v, stop);
            Some(vstd::slice::slice_subrange(json, v, end))
        }
    }

    /// The readings in `json_str`, which must open with `{` and close with
    /// `}`, hold points `1, 2, ...` (at most `MAX_POINTS`) with all three
    /// coordinates each, and hold as many points as expected.
    pub fn parse(&self, json_str: &str) -> (r: Result<Vec<SensorReading>, ErrorCode>)
        ensures
            match r {
                Ok(v) => spec_parse(self.spec_expected(), json_str.spec_bytes()) == Ok::<
                    Seq<ReadingView>,
                    ErrorCode,
                >(readings_view(v@)),
                Err(e) => spec_parse(self.spec_expected(), json_str.spec_bytes()) == Err::<
                    Seq<ReadingView>,
                    ErrorCode,
                >(e),
            },
    {
        let json = json_str.as_bytes();
        let n = json.len();
        if n == 0 || json[0] != OPEN_BRACE || json[n - 1] != CLOSE_BRACE {
            return Err(ErrorCode::JsonParseFailed);
        }
        let points = self.collect_points(json);
        self.check_count(points)
    }

    /// Applies the point-count rules to `points`.
    fn check_count(&self, points: Vec<SensorReading>) -> (r: Result<Vec<SensorReading>, ErrorCode>)
        ensures
            match r {
                Ok(v) => spec_check_count(self.spec_expected(), readings_view(points@)) == Ok::<
                    Seq<ReadingView>,
                    ErrorCode,
                >(readings_view(v@)),
                Err(e) => spec_check_count(self.spec_expected(), readings_view(points@)) == Err::<
                    Seq<ReadingView>,
                    ErrorCode,
                >(e),
            },
    {
        if self.expected_points > 0 && points.len() != self.expected_points as usize {
            return Err(ErrorCode::JsonParseFailed);
        }
        if points.len() == 0 {
            return Err(ErrorCode::JsonParseFailed);
        }
        Ok(points)
    }

    /// Point `i` of `json`.
    fn point(&self, json: &[u8], i: usize) -> (r: Option<SensorReading>)
        ensures
            match r {
                Some(p) => spec_point(json@, i as nat) == Some(p@),
                None => spec_point(json@, i as nat) is None,
            },
    {
        let kx = point_key_exec(AXIS_X, i);
        let ky = point_key_exec(AXIS_Y, i);
        let kc = point_key_exec(AXIS_C, i);
        match (
            self.extract_value(json, kx.as_slice()),
            self.extract_value(json, ky.as_slice()),
            self.extract_value(json, kc.as_slice()),
        ) {
            (Some(x), Some(y), Some(c)) => Some(
                SensorReading {
                    x: copy_range(x, 0, x.len()),
                    y: copy_range(y, 0, y.len()),
                    c: copy_range(c, 0, c.len()),
                },
            ),
            _ => None,
        }
    }

    /// Points `1, 2, ...` of `json`.
    fn collect_points(&self, json: &[u8]) -> (r: Vec<SensorReading>)
        ensures
            readings_view(r@) == spec_points_from(json@, 1),
    {
        let mut points: Vec<SensorReading> = Vec::new();
        let mut i: usize = 1;
        loop
            invariant
                1 <= i <= MAX_POINTS + 1,
                readings_view(points@) + spec_points_from(json@, i as nat) == spec_points_from(
                    json@,
                    1,
                ),
            decreases MAX_POINTS + 1 - i,
        {
            if i > MAX_POINTS {
                assert(readings_view(points@) + Seq::<ReadingView>::empty() =~= readings_view(
                    points@,
                ));
                return points;
            }
            match self.point(json, i) {
                Some(p) => {
                    let ghost before = readings_view(points@);
                    points.push(p);
                    assert(readings_view(points@) =~= before.push(p@));
                    assert(before + spec_points_from(json@, i as nat) =~= readings_view(points@)
                        + spec_points_from(json@, (i + 1) as nat));
                    i += 1;
                },
                None => {
                    assert(readings_view(points@) + Seq::<ReadingView>::empty() =~= readings_view(
                        points@,
                    ));
                    return points;
                },
            }
        }
    }
}

/// Where `find_sub_from` finds `pat`, it fits inside `s`.
proof fn lemma_find_sub_from_in_bounds(s: Seq<u8>, pat: Seq<u8>, from: int)
    ensures
        find_sub_from(s, pat, from) matches Some(p) ==> from <= p && p + pat.len() <= s.len(),
    decreases s.len() + 1 - from,
{
    if !(from < 0 || from + pat.len() > s.len()) && !match_at(s, pat, from) {
        lemma_find_sub_from_in_bounds(s, pat, from + 1);
    }
}

/// Finds the first comma or closing brace in `s` at or after `from`.
fn find_delim(s: &[u8], from: usize) -> (r: Option<usize>)
    ensures
        opt_int(r) == first_delim_from(s@, from as int),
        r matches Some(d) ==> from <= d < s@.len(),
{
    let mut i = from;
    while i < s.len()
        invariant
            from <= i,
            first_delim_from(s@, from as int) == first_delim_from(s@, i as int),
        decreases s@.len() - i,
    {
        if s[i] == COMMA || s[i] == CLOSE_BRACE {
            return Some(i);
        }
        i += 1;
    }
    None
}

/// Takes the first JSON object out of `buffer` and parses it: `ReadFailed`
/// when there is none, `JsonParseFailed` (buffer unchanged) when it does not
/// parse, and otherwise the readings, with the buffer drained through the
/// end of the object.
pub fn take_sensor_readings(buffer: &mut RingBuffer, expected_points: u16) -> (r: Result<
    Vec<SensorReading>,
    ErrorCode,
>)
    ensures
        final(buffer).stats_view() == old(buffer).stats_view(),
        match spec_find_json_object(old(buffer)@) {
            None => {
                &&& r == Err::<Vec<SensorReading>, ErrorCode>(ErrorCode::ReadFailed)
                &&& final(buffer)@ == old(buffer)@
            },
            Some((s, e)) => match spec_parse(expected_points, old(buffer)@.subrange(s, e)) {
                Ok(points) => {
                    &&& r matches Ok(v) && readings_view(v@) == points
                    &&& final(buffer)@ == old(buffer)@.subrange(e, old(buffer)@.len() as int)
                },
                Err(_) => {
                    &&& r == Err::<Vec<SensorReading>, ErrorCode>(ErrorCode::JsonParseFailed)
                    &&& final(buffer)@ == old(buffer)@
                },
            },
        },
{
    let found = find_json_object(buffer.as_slice());
    let (start, end) = match found {
        Some(range) => range,
        None => return Err(ErrorCode::ReadFailed),
    };
    let parsed = {
        let all = buffer.as_slice();
        proof {
            lemma_first_index_from(all@, OPEN_BRACE, 0);
            lemma_first_index_from(all@, CLOSE_BRACE, start as int);
            lemma_object_valid_utf8(all@, start as int, end as int);
        }
        let object = &all[start..end];
        match str_from_utf8(object) {
            Some(json_str) => JsonParser::new(expected_points).parse(json_str),
            None => Err(ErrorCode::JsonParseFailed),
        }
    };
    match parsed {
        Ok(points) => {
            buffer.drain(0..end);
            Ok(points)
        },
        Err(_) => Err(ErrorCode::JsonParseFailed),
    }
}

#[verifier::external_type_specification]
#[verifier::external_body]
pub struct ExJsonValue(serde_json::Value);

#[verifier::external_type_specification]
#[verifier::external_body]
pub struct ExJsonError(serde_json::Error);

/// The document that `serde_json::from_str` reads from `text`, if it reads
/// one.
pub uninterp spec fn spec_json_from_str(text: Seq<char>) -> Option<serde_json::Value>;

/// What `serde_json::Value::get` returns for a string key.
pub uninterp spec fn spec_json_get(value: serde_json::Value, key: Seq<char>) -> Option<serde_json::Value>;

/// What `serde_json::Value::as_str` returns.
pub uninterp spec fn spec_json_as_str(value: serde_json::Value) -> Option<Seq<char>>;

/// `serde_json::from_str::<Value>`: parses `text` as one JSON document.
/// The contract claims only that the outcome is a function of the text:
/// the document returned, or a failure, is `spec_json_from_str(text@)`.
#[verifier::external_body]
fn json_from_str(text: &str) -> (r: Result<serde_json::Value, serde_json::Error>)
    ensures
        r is Ok <==> spec_json_from_str(text@) is Some,
        r matches Ok(v) ==> spec_json_from_str(text@) == Some(v),
{
    serde_json::from_str(text)
}

/// `serde_json::Value::get` with a string key: the member of that name
/// when the value is an object that has one. The contract claims that the
/// result is `spec_json_get(*value, key@)`.
#[verifier::external_body]
fn json_get<'a>(value: &'a serde_json::Value, key: &str) -> (r: Option<&'a serde_json::Value>)
    ensures
        r is None <==> spec_json_get(*value, key@) is None,
        r matches Some(v) ==> spec_json_get(*value, key@) == Some(*v),
{
    value.get(key)
}

/// `serde_json::Value::as_str`: the text of a JSON string value. The
/// contract claims that the result is `spec_json_as_str(*value)`.
#[verifier::external_body]
fn json_as_str(value: &serde_json::Value) -> (r: Option<&str>)
    ensures
        r is None <==> spec_json_as_str(*value) is None,
        r matches Some(t) ==> spec_json_as_str(*value) == Some(t@),
{
    value.as_str()
}

/// The key `S<axis><i>` as UTF-8 bytes.
pub open spec fn serde_key_bytes(axis: u8, i: nat) -> Seq<u8> {
    seq![LETTER_S, axis] + decimal(i)
}

/// The key `S<axis><i>`.
pub open spec fn serde_key(axis: u8, i: nat) -> Seq<char> {
    decode_utf8(serde_key_bytes(axis, i))
}

/// The UTF-8 text of the string member `S<axis><i>` of `doc`.
pub open spec fn serde_field(doc: serde_json::Value, axis: u8, i: nat) -> Option<Seq<u8>> {
    match spec_json_get(doc, serde_key(axis, i)) {
        Some(member) => match spec_json_as_str(member) {
            Some(t) => Some(encode_utf8(t)),
            None => None,
        },
        None => None,
    }
}

/// Point `i` of `doc`, when all three coordinates are string members.
pub open spec fn serde_point(doc: serde_json::Value, i: nat) -> Option<ReadingView> {
    match (serde_field(doc, AXIS_X, i), serde_field(doc, AXIS_Y, i), serde_field(doc, AXIS_C, i)) {
        (Some(x), Some(y), Some(c)) => Some((x, y, c)),
        _ => None,
    }
}

/// The points `i`, `i + 1`, ... of `doc` up to the first one missing, and
/// at most up to point `cap`.
pub open spec fn serde_points_upto(doc: serde_json::Value, i: nat, cap: nat) -> Seq<ReadingView>
    decreases cap + 1 - i,
{
    if i < 1 || i > cap {
        Seq::<ReadingView>::empty()
    } else {
        match serde_point(doc, i) {
            Some(p) => seq![p] + serde_points_upto(doc, i + 1, cap),
            None => Seq::<ReadingView>::empty(),
        }
    }
}

/// The points `i`, `i + 1`, ... of `doc` up to the first one missing, and
/// at most up to point `MAX_POINTS`.
pub open spec fn serde_points_from(doc: serde_json::Value, i: nat) -> Seq<ReadingView> {
    serde_points_upto(doc, i, MAX_POINTS as nat)
}

/// The readings of a parsed document.
pub open spec fn spec_readings_from_value(expected: u16, doc: serde_json::Value) -> Result<
    Seq<ReadingView>,
    ErrorCode,
> {
    spec_check_count(expected, serde_points_from(doc, 1))
}

/// The readings of `text` read as a JSON document.
pub open spec fn spec_parse_with_serde(expected: u16, text: Seq<char>) -> Result<
    Seq<ReadingView>,
    ErrorCode,
> {
    match spec_json_from_str(text) {
        None => Err(ErrorCode::JsonParseFailed),
        Some(doc) => spec_readings_from_value(expected, doc),
    }
}

/// Builds the key `S<axis><i>` as a string.
fn serde_key_exec(axis: u8, i: usize, buf: &mut Vec<u8>) -> (r: &str)
    requires
        axis < 0x80,
    ensures
        r@ == serde_key(axis, i as nat),
{
    buf.clear();
    buf.push(LETTER_S);
    buf.push(axis);
    push_decimal(buf, i);
    proof {
        lemma_decimal_digits(i as nat);
        assert(buf@ =~= serde_key_bytes(axis, i as nat));
        lemma_ascii_valid_utf8(buf@);
    }
    match str_from_utf8(buf.as_slice()) {
        Some(s) => {
            proof {
                assert(encode_utf8(s@) == buf@);
            }
            s
        },
        None => {
            proof {
                assert(false);
            }
            ""
        },
    }
}

/// The UTF-8 text of a string member of `doc`.
fn serde_field_exec(doc: &serde_json::Value, axis: u8, i: usize) -> (r: Option<Vec<u8>>)
    requires
        axis < 0x80,
    ensures
        match r {
            Some(t) => serde_field(*doc, axis, i as nat) == Some(t@),
            None => serde_field(*doc, axis, i as nat) is None,
        },
{
    let mut buf: Vec<u8> = Vec::new();
    let key = serde_key_exec(axis, i, &mut buf);
    match json_get(doc, key) {
        Some(member) => match json_as_str(member) {
            Some(t) => {
                let b = t.as_bytes();
                Some(copy_range(b, 0, b.len()))
            },
            None => None,
        },
        None => None,
    }
}

/// Points `1, 2, ...` of `doc`, at most up to point `cap`.
fn collect_serde_points(doc: &serde_json::Value, cap: usize) -> (r: Vec<SensorReading>)
    requires
        cap < usize::MAX,
    ensures
        readings_view(r@) == serde_points_upto(*doc, 1, cap as nat),
{
    let mut points: Vec<SensorReading> = Vec::new();
    let mut i: usize = 1;
    loop
        invariant
            cap < usize::MAX,
            1 <= i <= cap + 1,
            readings_view(points@) + serde_points_upto(*doc, i as nat, cap as nat)
                == serde_points_upto(*doc, 1, cap as nat),
        decreases cap + 1 - i,
    {
        if i > cap {
            assert(readings_view(points@) + Seq::<ReadingView>::empty() =~= readings_view(points@));
            return points;
        }
        match (
            serde_field_exec(doc, AXIS_X, i),
            serde_field_exec(doc, AXIS_Y, i),
            serde_field_exec(doc, AXIS_C, i),
        ) {
            (Some(x), Some(y), Some(c)) => {
                let p = SensorReading { x, y, c };
                let ghost before = readings_view(points@);
                points.push(p);
                assert(readings_view(points@) =~= before.push(p@));
                assert(before + serde_points_upto(*doc, i as nat, cap as nat) =~= readings_view(
                    points@,
                ) + serde_points_upto(*doc, (i + 1) as nat, cap as nat));
                i += 1;
            },
            _ => {
                assert(readings_view(points@) + Seq::<ReadingView>::empty() =~= readings_view(
                    points@,
                ));
                return points;
            },
        }
    }
}

/// Highest point index the unbounded serde reader looks at: its counter is
/// a 32-bit signed integer.
pub const SERDE_INDEX_LIMIT: usize = 2147483647;

/// The readings of `text` read as a JSON document, with no cap on the
/// number of points below `SERDE_INDEX_LIMIT` and no demand for at least
/// one point: `JsonParseFailed` when the text is not JSON or the number of
/// points differs from a nonzero `expected`.
pub open spec fn spec_parse_sensor_json(expected: u16, text: Seq<char>) -> Result<
    Seq<ReadingView>,
    ErrorCode,
> {
    match spec_json_from_str(text) {
        None => Err(ErrorCode::JsonParseFailed),
        Some(doc) => spec_sensor_readings_from_value(expected, doc),
    }
}

/// The readings of a parsed document taken by `parse_sensor_json`: every
/// point present below `SERDE_INDEX_LIMIT`, with `JsonParseFailed` when
/// their number differs from a nonzero `expected`.
pub open spec fn spec_sensor_readings_from_value(expected: u16, doc: serde_json::Value) -> Result<
    Seq<ReadingView>,
    ErrorCode,
> {
    let points = serde_points_upto(doc, 1, SERDE_INDEX_LIMIT as nat);
    if expected > 0 && points.len() != expected {
        Err(ErrorCode::JsonParseFailed)
    } else {
        Ok(points)
    }
}

/// The readings held by an already parsed document, as `parse_sensor_json`
/// takes them.
pub fn sensor_readings_from_value(value: &serde_json::Value, expected_points: u16) -> (r: Result<
    Vec<SensorReading>,
    ErrorCode,
>)
    ensures
        match r {
            Ok(v) => spec_sensor_readings_from_value(expected_points, *value) == Ok::<
                Seq<ReadingView>,
                ErrorCode,
            >(readings_view(v@)),
            Err(e) => spec_sensor_readings_from_value(expected_points, *value) == Err::<
                Seq<ReadingView>,
                ErrorCode,
            >(e),
        },
{
    let points = collect_serde_points(value, SERDE_INDEX_LIMIT);
    if expected_points > 0 && points.len() != expected_points as usize {
        return Err(ErrorCode::JsonParseFailed);
    }
    Ok(points)
}

/// Reads sensor readings from `json_str` as a JSON document, taking every
/// point present and checking the count only against a nonzero `expected`.
pub fn parse_sensor_json(json_str: &str, expected_points: u16) -> (r: Result<
    Vec<SensorReading>,
    ErrorCode,
>)
    ensures
        match r {
            Ok(v) => spec_parse_sensor_json(expected_points, json_str@) == Ok::<
                Seq<ReadingView>,
                ErrorCode,
            >(readings_view(v@)),
            Err(e) => spec_parse_sensor_json(expected_points, json_str@) == Err::<
                Seq<ReadingView>,
                ErrorCode,
            >(e),
        },
{
    match json_from_str(json_str) {
        Ok(value) => sensor_readings_from_value(&value, expected_points),
        Err(_) => Err(ErrorCode::JsonParseFailed),
    }
}

impl JsonParser {
    /// The readings held by an already parsed document: string members
    /// `Sx<i>`, `Sy<i>`, `Sc<i>` for `i = 1, 2, ...` (at most `MAX_POINTS`),
    /// with the point-count rules of `parse`.
    pub fn readings_from_value(&self, value: &serde_json::Value) -> (r: Result<
        Vec<SensorReading>,
        ErrorCode,
    >)
        ensures
            match r {
                Ok(v) => spec_readings_from_value(self.spec_expected(), *value) == Ok::<
                    Seq<ReadingView>,
                    ErrorCode,
                >(readings_view(v@)),
                Err(e) => spec_readings_from_value(self.spec_expected(), *value) == Err::<
                    Seq<ReadingView>,
                    ErrorCode,
                >(e),
            },
    {
        let points = collect_serde_points(value, MAX_POINTS);
        self.check_count(points)
    }

    /// The readings in `json_str` read as a JSON document; a text that is
    /// not JSON gives `JsonParseFailed`.
    pub fn parse_with_serde(&self, json_str: &str) -> (r: Result<Vec<SensorReading>, ErrorCode>)
        ensures
            match r {
                Ok(v) => spec_parse_with_serde(self.spec_expected(), json_str@) == Ok::<
                    Seq<ReadingView>,
                    ErrorCode,
                >(readings_view(v@)),
                Err(e) => spec_parse_with_serde(self.spec_expected(), json_str@) == Err::<
                    Seq<ReadingView>,
                    ErrorCode,
                >(e),
            },
    {
        match json_from_str(json_str) {
            Ok(value) => self.readings_from_value(&value),
            Err(_) => Err(ErrorCode::JsonParseFailed),
        }
    }
}

/// What `find_json_object` reports is an object: it starts with the first
/// `{` of the buffer and ends with the first `}` after it.
pub proof fn lemma_found_object_braces(b: Seq<u8>)
    ensures
        spec_find_braces(b) matches Some((s, e)) ==> {
            &&& 0 <= s < e <= b.len()
            &&& b[s] == OPEN_BRACE
            &&& b[e - 1] == CLOSE_BRACE
            &&& forall|k: int| 0 <= k < s ==> b[k] != OPEN_BRACE
            &&& forall|k: int| s <= k < e - 1 ==> b[k] != CLOSE_BRACE
        },
        spec_find_braces(b) is None ==> forall|s: int|
            0 <= s < b.len() && #[trigger] b[s] == OPEN_BRACE && (forall|k: int|
                0 <= k < s ==> b[k] != OPEN_BRACE) ==> forall|k: int|
                s <= k < b.len() ==> b[k] != CLOSE_BRACE,
        spec_find_json_object(b) matches Some((s, e)) ==> spec_find_braces(b) == Some((s, e)),
        valid_utf8(b) ==> spec_find_json_object(b) == spec_find_braces(b),
        !valid_utf8(b) ==> spec_find_json_object(b) is None,
{
    lemma_first_index_from(b, OPEN_BRACE, 0);
    if let Some(s) = first_index_from(b, OPEN_BRACE, 0) {
        lemma_first_index_from(b, CLOSE_BRACE, s);
    }
    if spec_find_braces(b) is None {
        assert forall|s: int|
            0 <= s < b.len() && #[trigger] b[s] == OPEN_BRACE && (forall|k: int|
                0 <= k < s ==> b[k] != OPEN_BRACE) implies forall|k: int|
                s <= k < b.len() ==> b[k] != CLOSE_BRACE by {
            match first_index_from(b, OPEN_BRACE, 0) {
                None => {
                    assert(b[s] != OPEN_BRACE);
                },
                Some(t) => {
                    if t < s {
                        assert(b[t] != OPEN_BRACE);
                    }
                    if s < t {
                        assert(b[s] != OPEN_BRACE);
                    }
                },
            }
        }
    }
}

proof fn lemma_points_from_len(json: Seq<u8>, i: nat)
    ensures
        spec_points_from(json, i).len() <= MAX_POINTS + 1 - i || spec_points_from(json, i).len()
            == 0,
    decreases MAX_POINTS + 1 - i,
{
    if 1 <= i <= MAX_POINTS {
        lemma_points_from_len(json, i + 1);
    }
}

proof fn lemma_serde_points_from_len(doc: serde_json::Value, i: nat, cap: nat)
    ensures
        serde_points_upto(doc, i, cap).len() <= cap + 1 - i || serde_points_upto(doc, i, cap).len()
            == 0,
    decreases cap + 1 - i,
{
    if 1 <= i <= cap {
        lemma_serde_points_from_len(doc, i + 1, cap);
    }
}

/// A successful parse, by either parser, holds between 1 and `MAX_POINTS`
/// points, and exactly the expected number when one is expected.
pub proof fn lemma_parse_counts(expected: u16, json: Seq<u8>, text: Seq<char>)
    ensures
        spec_parse(expected, json) matches Ok(points) ==> {
            &&& 1 <= points.len() <= MAX_POINTS
            &&& expected > 0 ==> points.len() == expected
        },
        spec_parse_with_serde(expected, text) matches Ok(points) ==> {
            &&& 1 <= points.len() <= MAX_POINTS
            &&& expected > 0 ==> points.len() == expected
        },
{
    lemma_points_from_len(json, 1);
    if let Some(doc) = spec_json_from_str(text) {
        lemma_serde_points_from_len(doc, 1, MAX_POINTS as nat);
    }
}

/// Every point of a successful parse holds the values that follow its three
/// keys in the text.
pub proof fn lemma_parse_points_are_extracted(expected: u16, json: Seq<u8>)
    ensures
        spec_parse(expected, json) matches Ok(points) ==> forall|k: int|
            0 <= k < points.len() ==> spec_point(json, (k + 1) as nat) == Some(#[trigger] points[k]),
{
    if let Ok(points) = spec_parse(expected, json) {
        assert forall|k: int| 0 <= k < points.len() implies spec_point(json, (k + 1) as nat) == Some(
            #[trigger] points[k],
        ) by {
            lemma_points_from_index(json, 1, k);
        }
    }
}

proof fn lemma_points_from_index(json: Seq<u8>, i: nat, k: int)
    requires
        0 <= k < spec_points_from(json, i).len(),
    ensures
        spec_point(json, (i + k) as nat) == Some(spec_points_from(json, i)[k]),
    decreases k,
{
    if k > 0 {
        lemma_points_from_index(json, i + 1, k - 1);
        assert(spec_points_from(json, i)[k] == spec_points_from(json, i + 1)[k - 1]);
    }
}

proof fn lemma_points_from_count(json: Seq<u8>, i: nat, n: nat)
    requires
        1 <= i <= n + 1,
        n <= MAX_POINTS,
        forall|k: nat| 1 <= k <= n ==> #[trigger] spec_point(json, k) is Some,
        n < MAX_POINTS ==> spec_point(json, n + 1) is None,
    ensures
        spec_points_from(json, i).len() == n + 1 - i,
    decreases n + 1 - i,
{
    if i <= n {
        assert(spec_point(json, i) is Some);
        lemma_points_from_count(json, i + 1, n);
    }
}

/// `parse` takes every point the text holds. When the text, framed by
/// braces, holds points `1..=n` with all three coordinates and no point
/// `n + 1` (or `n` is `MAX_POINTS`), the parse succeeds exactly when there
/// is at least one point and `n` is the expected count (any count when 0
/// is expected), and then returns those `n` points in order; otherwise it
/// fails with `JsonParseFailed`. A surplus or missing point is never
/// dropped or made up.
pub proof fn lemma_parse_reads_every_point(expected: u16, json: Seq<u8>, n: nat)
    requires
        n <= MAX_POINTS,
        forall|k: nat| 1 <= k <= n ==> #[trigger] spec_point(json, k) is Some,
        n < MAX_POINTS ==> spec_point(json, n + 1) is None,
    ensures
        (json.len() > 0 && json[0] == OPEN_BRACE && json.last() == CLOSE_BRACE && n >= 1 && (
        expected == 0 || n == expected)) ==> (spec_parse(expected, json) matches Ok(points) && {
            &&& points.len() == n
            &&& forall|k: int| 0 <= k < n ==> spec_point(json, (k + 1) as nat) == Some(
                #[trigger] points[k],
            )
        }),
        !(json.len() > 0 && json[0] == OPEN_BRACE && json.last() == CLOSE_BRACE && n >= 1 && (
        expected == 0 || n == expected)) ==> spec_parse(expected, json) == Err::<
            Seq<ReadingView>,
            ErrorCode,
        >(ErrorCode::JsonParseFailed),
{
    lemma_points_from_count(json, 1, n);
    let pts = spec_points_from(json, 1);
    assert forall|k: int| 0 <= k < n implies spec_point(json, (k + 1) as nat) == Some(
        #[trigger] pts[k],
    ) by {
        lemma_points_from_index(json, 1, k);
    }
}

proof fn lemma_serde_upto_count(doc: serde_json::Value, i: nat, n: nat, cap: nat)
    requires
        1 <= i <= n + 1,
        n <= cap,
        forall|k: nat| 1 <= k <= n ==> #[trigger] serde_point(doc, k) is Some,
        n < cap ==> serde_point(doc, n + 1) is None,
    ensures
        serde_points_upto(doc, i, cap).len() == n + 1 - i,
        forall|k: int|
            0 <= k < n + 1 - i ==> serde_point(doc, (i + k) as nat) == Some(
                #[trigger] serde_points_upto(doc, i, cap)[k],
            ),
    decreases n + 1 - i,
{
    if i <= n {
        assert(serde_point(doc, i) is Some);
        lemma_serde_upto_count(doc, i + 1, n, cap);
        let rest = serde_points_upto(doc, i + 1, cap);
        let all = serde_points_upto(doc, i, cap);
        assert forall|k: int| 0 <= k < n + 1 - i implies serde_point(doc, (i + k) as nat) == Some(
            #[trigger] all[k],
        ) by {
            if k > 0 {
                assert(all[k] == rest[k - 1]);
                assert((i + 1 + (k - 1)) as nat == (i + k) as nat);
            }
        }
    }
}

/// `sensor_readings_from_value` (and so `parse_sensor_json`) takes every
/// point of the document. When the document holds points `1..=n` with all
/// three coordinates as strings and no point `n + 1` (or `n` reaches
/// `SERDE_INDEX_LIMIT`), it succeeds exactly when no count is expected or
/// `n` is the expected count, and then returns those `n` points in order;
/// otherwise it fails with `JsonParseFailed`.
pub proof fn lemma_sensor_readings_every_point(expected: u16, doc: serde_json::Value, n: nat)
    requires
        n <= SERDE_INDEX_LIMIT,
        forall|k: nat| 1 <= k <= n ==> #[trigger] serde_point(doc, k) is Some,
        n < SERDE_INDEX_LIMIT ==> serde_point(doc, n + 1) is None,
    ensures
        (expected == 0 || n == expected) ==> (spec_sensor_readings_from_value(expected, doc) matches Ok(
            points,
        ) && {
            &&& points.len() == n
            &&& forall|k: int| 0 <= k < n ==> serde_point(doc, (k + 1) as nat) == Some(
                #[trigger] points[k],
            )
        }),
        !(expected == 0 || n == expected) ==> spec_sensor_readings_from_value(expected, doc)
            == Err::<Seq<ReadingView>, ErrorCode>(ErrorCode::JsonParseFailed),
{
    lemma_serde_upto_count(doc, 1, n, SERDE_INDEX_LIMIT as nat);
}

/// `readings_from_value` (and so `parse_with_serde`) takes every point of
/// the document up to `MAX_POINTS`: with points `1..=n` present and no
/// point `n + 1` (or `n` is `MAX_POINTS`), it succeeds exactly when there
/// is at least one point and no count is expected or `n` is the expected
/// count, and then returns those `n` points in order; otherwise it fails
/// with `JsonParseFailed`.
pub proof fn lemma_readings_from_value_every_point(expected: u16, doc: serde_json::Value, n: nat)
    requires
        n <= MAX_POINTS,
        forall|k: nat| 1 <= k <= n ==> #[trigger] serde_point(doc, k) is Some,
        n < MAX_POINTS ==> serde_point(doc, n + 1) is None,
    ensures
        (n >= 1 && (expected == 0 || n == expected)) ==> (spec_readings_from_value(expected, doc) matches Ok(
            points,
        ) && {
            &&& points.len() == n
            &&& forall|k: int| 0 <= k < n ==> serde_point(doc, (k + 1) as nat) == Some(
                #[trigger] points[k],
            )
        }),
        !(n >= 1 && (expected == 0 || n == expected)) ==> spec_readings_from_value(expected, doc)
            == Err::<Seq<ReadingView>, ErrorCode>(ErrorCode::JsonParseFailed),
{
    lemma_serde_upto_count(doc, 1, n, MAX_POINTS as nat);
}

} // verus!
