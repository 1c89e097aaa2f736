//! JSON objects whose values are texts and numbers.
use vstd::prelude::*;

use crate::text;

verus! {

/// A value to be written.
pub enum JsonOut {
    Count(u64),
    Text(String),
}

/// A value that was read. A number is given by its text; `Other` stands for a
/// boolean, an array or an object.
pub enum JsonIn {
    Null,
    Number(String),
    Other,
    Text(String),
}

/// Model of a JSON value.
pub enum JsonView {
    Null,
    Number(Seq<char>),
    Other,
    Text(Seq<char>),
}

impl View for JsonOut {
    type V = JsonView;

    open spec fn view(&self) -> JsonView {
        match self {
            JsonOut::Count(n) => JsonView::Number(text::decimal(*n as nat)),
            JsonOut::Text(s) => JsonView::Text(s@),
        }
    }
}

impl View for JsonIn {
    type V = JsonView;

    open spec fn view(&self) -> JsonView {
        match self {
            JsonIn::Null => JsonView::Null,
            JsonIn::Number(s) => JsonView::Number(s@),
            JsonIn::Other => JsonView::Other,
            JsonIn::Text(s) => JsonView::Text(s@),
        }
    }
}

/// Model of the fields of an object that is to be written.
pub open spec fn out_fields(fields: Seq<(String, JsonOut)>) -> Seq<(Seq<char>, JsonView)> {
    fields.map_values(|f: (String, JsonOut)| (f.0@, f.1@))
}

/// Model of the fields of an object that was read.
pub open spec fn in_fields(fields: Seq<(String, JsonIn)>) -> Seq<(Seq<char>, JsonView)> {
    fields.map_values(|f: (String, JsonIn)| (f.0@, f.1@))
}

/// Each key comes before the next, so none occurs twice.
pub open spec fn keys_ascend(fields: Seq<(Seq<char>, JsonView)>) -> bool {
    forall|i: int, j: int|
        0 <= i < j < fields.len() ==> text::text_lt(
            (#[trigger] fields[i]).0,
            (#[trigger] fields[j]).0,
        )
}

impl JsonView {
    /// The length of the value's text, without quotes and escapes.
    pub open spec fn size(self) -> nat {
        match self {
            JsonView::Number(s) => s.len(),
            JsonView::Text(s) => s.len(),
            _ => 0,
        }
    }
}

/// The length of the keys and values of some fields, with one for each field.
pub open spec fn fields_size(fields: Seq<(Seq<char>, JsonView)>) -> nat
    decreases fields.len(),
{
    if fields.len() == 0 {
        0
    } else {
        fields_size(fields.drop_last()) + fields.last().0.len() + fields.last().1.size() + 1
    }
}

/// The fields of the JSON object that some bytes hold, in the order of their keys, or
/// why they hold none.
pub uninterp spec fn json_object_fields(
    bytes: Seq<u8>,
) -> Result<Seq<(Seq<char>, JsonView)>, Seq<char>>;

/// How far a JSON text was read: how deep in objects and arrays, whether inside a text and
/// behind a backslash, where the last text begins and ends, and where the keys of the
/// outermost object do.
pub struct ScanView {
    pub depth: int,
    pub end: int,
    pub escaped: bool,
    pub in_text: bool,
    pub keys: Seq<(int, int)>,
    pub start: int,
}

/// Reading one byte more. A text before a colon is a key.
pub open spec fn scan_byte(s: ScanView, i: int, b: u8) -> ScanView {
    if s.in_text {
        if s.escaped {
            ScanView { escaped: false, ..s }
        } else if b == 0x5c {
            ScanView { escaped: true, ..s }
        } else if b == 0x22 {
            ScanView { end: i + 1, in_text: false, ..s }
        } else {
            s
        }
    } else if b == 0x22 {
        ScanView { in_text: true, start: i, ..s }
    } else if b == 0x7b || b == 0x5b {
        ScanView { depth: s.depth + 1, ..s }
    } else if b == 0x7d || b == 0x5d {
        ScanView { depth: s.depth - 1, ..s }
    } else if b == 0x3a && s.depth == 1 {
        ScanView { keys: s.keys.push((s.start, s.end)), ..s }
    } else {
        s
    }
}

/// Reading the first `n` bytes.
pub open spec fn scanned(bytes: Seq<u8>, n: int) -> ScanView
    decreases n,
{
    if n <= 0 {
        ScanView {
            depth: 0,
            end: 0,
            escaped: false,
            in_text: false,
            keys: Seq::empty(),
            start: 0,
        }
    } else {
        scan_byte(scanned(bytes, n - 1), n - 1, bytes[n - 1])
    }
}

/// The text that a JSON text literal holds; `None` where the bytes are none.
pub uninterp spec fn json_text(literal: Seq<u8>) -> Option<Seq<char>>;

/// The keys of the outermost object in a JSON text as they stand there, repeated ones too.
pub open spec fn keys_written(bytes: Seq<u8>) -> Seq<Option<Seq<char>>> {
    scanned(bytes, bytes.len() as int).keys.map_values(
        |k: (int, int)| json_text(bytes.subrange(k.0, k.1)),
    )
}

/// A key stands in the outermost object more than once.
pub open spec fn key_repeats(bytes: Seq<u8>, key: Seq<char>) -> bool {
    exists|i: int, j: int|
        0 <= i < j < keys_written(bytes).len() && #[trigger] keys_written(bytes)[i] == Some(key)
            && #[trigger] keys_written(bytes)[j] == Some(key)
}

/// The bytes of the JSON object that some fields make.
pub uninterp spec fn json_object_written(fields: Seq<(Seq<char>, JsonView)>) -> Seq<u8>;

/// `Display` of a `serde_json::Value` object with the given fields, whose keys ascend. It
/// is read back field by field, and each key stands in it once, in order; a count is
/// written in decimal. A character takes at most six bytes, and quotes, colon and comma at
/// most six more per field.
#[verifier::external_body]
pub(crate) fn write_object(fields: Vec<(String, JsonOut)>) -> (r: Vec<u8>)
    requires
        keys_ascend(out_fields(fields@)),
    ensures
        r@ == json_object_written(out_fields(fields@)),
        json_object_fields(r@) is Ok && json_object_fields(r@)->Ok_0 == out_fields(fields@),
        keys_written(r@) == out_fields(fields@).map_values(
            |f: (Seq<char>, JsonView)| Some(f.0),
        ),
        r@.len() <= 2 + 8 * fields_size(out_fields(fields@)),
{
    let convert = |v: JsonOut| match v {
        JsonOut::Count(n) => serde_json::Value::from(n),
        JsonOut::Text(s) => serde_json::Value::from(s),
    };
    let map: serde_json::Map<String, serde_json::Value> =
        fields.into_iter().map(|(k, v)| (k, convert(v))).collect();
    serde_json::Value::Object(map).to_string().into_bytes()
}

/// `serde_json::from_slice` into an object; an error is given by its text. A value that a
/// `serde_json::Value` cannot hold, such as a number that is too large, is `Other`.
#[verifier::external_body]
pub(crate) fn read_object(bytes: &[u8]) -> (r: Result<Vec<(String, JsonIn)>, String>)
    ensures
        match r {
            Ok(fields) => json_object_fields(bytes@) == Ok::<_, Seq<char>>(in_fields(fields@)),
            Err(e) => json_object_fields(bytes@) == Err::<Seq<(Seq<char>, JsonView)>, _>(e@),
        },
{
    let convert = |v: Box<serde_json::value::RawValue>| match serde_json::from_str(v.get()) {
        Ok(serde_json::Value::Null) => JsonIn::Null,
        Ok(serde_json::Value::Number(n)) => JsonIn::Number(n.to_string()),
        Ok(serde_json::Value::String(s)) => JsonIn::Text(s),
        _ => JsonIn::Other,
    };
    serde_json::from_slice::<std::collections::BTreeMap<String, _>>(bytes)
        .map(|map| map.into_iter().map(|(k, v)| (k, convert(v))).collect())
        .map_err(|e| e.to_string())
}

/// `serde_json::from_slice` into a text.
#[verifier::external_body]
pub(crate) fn read_text(literal: &[u8]) -> (r: Option<String>)
    ensures
        text::opt_text(r) == json_text(literal@),
{
    serde_json::from_slice::<String>(literal).ok()
}

/// The values of a JSON array of four: a text or null, a count, and two texts; `None` where
/// the bytes hold something else.
pub uninterp spec fn json_row(bytes: Seq<u8>) -> Option<
    (Option<Seq<char>>, u64, Seq<char>, Seq<char>),
>;

/// Model of the values of an array that was read.
pub open spec fn row_view(row: (Option<String>, u64, String, String)) -> (
    Option<Seq<char>>,
    u64,
    Seq<char>,
    Seq<char>,
) {
    (text::opt_text(row.0), row.1, row.2@, row.3@)
}

/// `serde_json::from_slice` into a tuple of an optional text, a count and two texts.
#[verifier::external_body]
pub(crate) fn read_row(bytes: &[u8]) -> (r: Option<(Option<String>, u64, String, String)>)
    ensures
        match r {
            Some(row) => json_row(bytes@) == Some(row_view(row)),
            None => json_row(bytes@) is None,
        },
{
    serde_json::from_slice::<(Option<String>, u64, String, String)>(bytes).ok()
}

/// Where the keys of the outermost object in a JSON text begin and end.
fn key_places(bytes: &[u8]) -> (r: Vec<(usize, usize)>)
    ensures
        r@.len() == scanned(bytes@, bytes@.len() as int).keys.len(),
        forall|k: int|
            0 <= k < r@.len() ==> (#[trigger] r@[k]).0 <= r@[k].1 <= bytes@.len() && scanned(
                bytes@,
                bytes@.len() as int,
            ).keys[k] == (r@[k].0 as int, r@[k].1 as int),
{
    let mut keys: Vec<(usize, usize)> = Vec::new();
    let mut depth: i128 = 0;
    let mut end: usize = 0;
    let mut escaped: bool = false;
    let mut in_text: bool = false;
    let mut start: usize = 0;
    let len: usize = bytes.len();
    let mut i: usize = 0;
    while i < len
        invariant
            i <= len == bytes@.len(),
            -(i as int) <= depth <= i,
            start <= i,
            end <= i,
            !in_text ==> start <= end,
            ({
                let s = scanned(bytes@, i as int);
                &&& s.depth == depth
                &&& s.end == end
                &&& s.escaped == escaped
                &&& s.in_text == in_text
                &&& s.start == start
                &&& s.keys.len() == keys@.len()
            }),
            forall|k: int|
                0 <= k < keys@.len() ==> (#[trigger] keys@[k]).0 <= keys@[k].1 <= i && scanned(
                    bytes@,
                    i as int,
                ).keys[k] == (keys@[k].0 as int, keys@[k].1 as int),
        decreases len - i,
    {
        let b: u8 = bytes[i];
        if in_text {
            if escaped {
                escaped = false;
            } else if b == 0x5c {
                escaped = true;
            } else if b == 0x22 {
                end = i + 1;
                in_text = false;
            }
        } else if b == 0x22 {
            in_text = true;
            start = i;
        } else if b == 0x7b || b == 0x5b {
            depth = depth + 1;
        } else if b == 0x7d || b == 0x5d {
            depth = depth - 1;
        } else if b == 0x3a && depth == 1 {
            keys.push((start, end));
        }
        i = i + 1;
    }
    keys
}

/// Whether a key stands in the outermost object more than once.
pub fn repeats(bytes: &[u8], key: &str) -> (r: bool)
    ensures
        r == key_repeats(bytes@, key@),
{
    let places = key_places(bytes);
    let ghost all = keys_written(bytes@);
    let mut seen: bool = false;
    let ghost mut at: int = 0;
    let mut k: usize = 0;
    while k < places.len()
        invariant
            k <= places@.len() == all.len(),
            all == keys_written(bytes@),
            forall|j: int|
                0 <= j < places@.len() ==> (#[trigger] places@[j]).0 <= places@[j].1
                    <= bytes@.len() && all[j] == json_text(
                    bytes@.subrange(places@[j].0 as int, places@[j].1 as int),
                ),
            seen ==> 0 <= at < k && all[at] == Some(key@),
            forall|j: int| 0 <= j < k && #[trigger] all[j] == Some(key@) ==> seen && j == at,
        decreases places@.len() - k,
    {
        let (start, end): (usize, usize) = places[k];
        let literal = vstd::slice::slice_subrange(bytes, start, end);
        assert(all[k as int] == json_text(literal@));
        let found = match read_text(literal) {
            Some(s) => text::str_eq(s.as_str(), key),
            None => false,
        };
        assert(found == (all[k as int] == Some(key@)));
        if found {
            if seen {
                assert(all[at] == Some(key@) && all[k as int] == Some(key@));
                return true;
            }
            seen = true;
            proof {
                at = k as int;
            }
        }
        k = k + 1;
    }
    false
}

/// In an object that was written with keys that ascend, none repeats.
pub proof fn lemma_written_once(
    bytes: Seq<u8>,
    fields: Seq<(Seq<char>, JsonView)>,
    key: Seq<char>,
)
    requires
        keys_ascend(fields),
        keys_written(bytes) == fields.map_values(|f: (Seq<char>, JsonView)| Some(f.0)),
    ensures
        !key_repeats(bytes, key),
{
    let all = keys_written(bytes);
    assert forall|i: int, j: int| 0 <= i < j < all.len() implies !(#[trigger] all[i] == Some(key)
        && #[trigger] all[j] == Some(key)) by {
        assert(text::text_lt(fields[i].0, fields[j].0));
        text::lemma_text_lt_total(fields[i].0, fields[j].0);
    }
}

/// The value of a field.
pub open spec fn field(fields: Seq<(Seq<char>, JsonView)>, key: Seq<char>) -> Option<JsonView>
    decreases fields.len(),
{
    if fields.len() == 0 {
        None
    } else if fields[0].0 == key {
        Some(fields[0].1)
    } else {
        field(fields.drop_first(), key)
    }
}

/// Looks a field up.
pub fn find_field(fields: &Vec<(String, JsonIn)>, key: &str) -> (r: Option<usize>)
    ensures
        match r {
            Some(i) => i < fields.len() && field(in_fields(fields@), key@) == Some(
                fields@[i as int].1@,
            ),
            None => field(in_fields(fields@), key@) is None,
        },
{
    let ghost all = in_fields(fields@);
    let mut i: usize = 0;
    assert(all.skip(0) =~= all);
    while i < fields.len()
        invariant
            i <= fields.len(),
            all == in_fields(fields@),
            field(all, key@) == field(all.skip(i as int), key@),
        decreases fields.len() - i,
    {
        assert(all.skip(i as int)[0] == (fields@[i as int].0@, fields@[i as int].1@));
        if text::str_eq(fields[i].0.as_str(), key) {
            return Some(i);
        }
        assert(all.skip(i as int).drop_first() =~= all.skip(i + 1));
        i = i + 1;
    }
    None
}

/// Looks a text field up; `None` where there is none or it is no text.
pub fn text_field(fields: &Vec<(String, JsonIn)>, key: &str) -> (r: Option<String>)
    ensures
        text::opt_text(r) == match field(in_fields(fields@), key@) {
            Some(JsonView::Text(s)) => Some(s),
            _ => None,
        },
{
    match find_field(fields, key) {
        Some(i) => match &fields[i].1 {
            JsonIn::Text(s) => Some(s.clone()),
            _ => None,
        },
        None => None,
    }
}

/// What is in a JSON text: the fields of an object in the order of their keys, or another
/// value, or why it is no JSON.
pub uninterp spec fn json_parsed(
    s: Seq<char>,
) -> Result<Option<Seq<(Seq<char>, JsonView)>>, Seq<char>>;

/// A JSON text written anew without white space, or why it is no JSON.
pub uninterp spec fn json_compact(s: Seq<char>) -> Result<Seq<char>, Seq<char>>;

/// A JSON text written anew on indented lines, or why it is no JSON.
pub uninterp spec fn json_pretty(s: Seq<char>) -> Result<Seq<char>, Seq<char>>;

/// Model of what was read of a JSON text.
pub open spec fn opt_fields(o: Option<Vec<(String, JsonIn)>>) -> Option<
    Seq<(Seq<char>, JsonView)>,
> {
    match o {
        Some(fields) => Some(in_fields(fields@)),
        None => None,
    }
}

/// `serde_json::from_str` into a value, of which an object's fields are kept; an error is
/// given by its text.
#[verifier::external_body]
pub(crate) fn parse_json(s: &str) -> (r: Result<Option<Vec<(String, JsonIn)>>, String>)
    ensures
        match r {
            Ok(o) => json_parsed(s@) == Ok::<_, Seq<char>>(opt_fields(o)),
            Err(e) => json_parsed(s@) == Err::<Option<Seq<(Seq<char>, JsonView)>>, _>(e@),
        },
{
    let convert = |v: serde_json::Value| match v {
        serde_json::Value::Null => JsonIn::Null,
        serde_json::Value::Number(n) => JsonIn::Number(n.to_string()),
        serde_json::Value::String(s) => JsonIn::Text(s),
        _ => JsonIn::Other,
    };
    match serde_json::from_str::<serde_json::Value>(s) {
        Ok(serde_json::Value::Object(map)) => {
            Ok(Some(map.into_iter().map(|(k, v)| (k, convert(v))).collect()))
        },
        Ok(_) => Ok(None),
        Err(e) => Err(e.to_string()),
    }
}

/// `Display` of the `serde_json::Value` that `serde_json::from_str` reads.
#[verifier::external_body]
pub(crate) fn compact(s: &str) -> (r: Result<String, String>)
    ensures
        match r {
            Ok(t) => json_compact(s@) == Ok::<_, Seq<char>>(t@),
            Err(e) => json_compact(s@) == Err::<Seq<char>, _>(e@),
        },
{
    serde_json::from_str::<serde_json::Value>(s).map(|v| v.to_string()).map_err(|e| e.to_string())
}

/// `serde_json::to_string_pretty` of the `serde_json::Value` that `serde_json::from_str`
/// reads.
#[verifier::external_body]
pub(crate) fn pretty(s: &str) -> (r: Result<String, String>)
    ensures
        match r {
            Ok(t) => json_pretty(s@) == Ok::<_, Seq<char>>(t@),
            Err(e) => json_pretty(s@) == Err::<Seq<char>, _>(e@),
        },
{
    serde_json::from_str::<serde_json::Value>(s)
        .and_then(|v| serde_json::to_string_pretty(&v))
        .map_err(|e| e.to_string())
}

/// A field is the first of its key, and is there wherever the key is.
pub proof fn law_first_field_of_a_key_is_read(fields: Seq<(Seq<char>, JsonView)>, key: Seq<char>)
    ensures
        match field(fields, key) {
            Some(v) => exists|i: int|
                0 <= i < fields.len() && #[trigger] fields[i] == (key, v) && forall|j: int|
                    0 <= j < i ==> (#[trigger] fields[j]).0 != key,
            None => forall|j: int| 0 <= j < fields.len() ==> (#[trigger] fields[j]).0 != key,
        },
    decreases fields.len(),
{
    if fields.len() > 0 && fields[0].0 != key {
        let rest = fields.drop_first();
        law_first_field_of_a_key_is_read(rest, key);
        assert forall|j: int| 0 < j < fields.len() implies #[trigger] fields[j] == rest[j - 1] by {}
        if field(fields, key) is Some {
            let v = field(fields, key)->0;
            let i = choose|i: int|
                0 <= i < rest.len() && #[trigger] rest[i] == (key, v) && forall|j: int|
                    0 <= j < i ==> (#[trigger] rest[j]).0 != key;
            assert(fields[i + 1] == (key, v));
        }
    } else if fields.len() > 0 {
        assert(fields[0] == (key, field(fields, key)->0));
    }
}

/// Inside a text nothing opens, closes or is a key: only a quote that no backslash stands
/// before ends it.
pub proof fn law_text_is_passed_over(s: ScanView, i: int, b: u8)
    requires
        s.in_text,
    ensures
        scan_byte(s, i, b).depth == s.depth,
        scan_byte(s, i, b).keys == s.keys,
        scan_byte(s, i, b).start == s.start,
        scan_byte(s, i, b).in_text <==> s.escaped || b != '"' as int,
        scan_byte(s, i, b).escaped <==> !s.escaped && b == '\\' as int,
        !scan_byte(s, i, b).in_text ==> scan_byte(s, i, b).end == i + 1,
{
}

proof fn lemma_plain_text_is_passed_over(bytes: Seq<u8>, from: int, to: int)
    requires
        0 <= from <= to <= bytes.len(),
        scanned(bytes, from).in_text,
        !scanned(bytes, from).escaped,
        forall|k: int|
            from <= k < to ==> #[trigger] bytes[k] != '"' as int && bytes[k] != '\\' as int,
    ensures
        scanned(bytes, to) == scanned(bytes, from),
    decreases to - from,
{
    if from < to {
        lemma_plain_text_is_passed_over(bytes, from, to - 1);
        assert(bytes[to - 1] != '"' as int && bytes[to - 1] != '\\' as int);
    }
}

/// A text before a colon in the outermost object is noted as a key, from quote to quote,
/// behind those before it.
pub proof fn law_outermost_key_is_noted(bytes: Seq<u8>, n: int, m: int)
    requires
        0 <= n < m,
        m + 1 < bytes.len(),
        scanned(bytes, n).depth == 1,
        !scanned(bytes, n).in_text,
        !scanned(bytes, n).escaped,
        bytes[n] == '"' as int,
        bytes[m] == '"' as int,
        bytes[m + 1] == ':' as int,
        forall|k: int|
            n < k < m ==> #[trigger] bytes[k] != '"' as int && bytes[k] != '\\' as int,
    ensures
        scanned(bytes, m + 2).keys == scanned(bytes, n).keys.push((n, m + 1)),
        scanned(bytes, m + 2).depth == 1,
        !scanned(bytes, m + 2).in_text,
        !scanned(bytes, m + 2).escaped,
{
    assert(scanned(bytes, n + 1) == scan_byte(scanned(bytes, n), n, bytes[n]));
    lemma_plain_text_is_passed_over(bytes, n + 1, m);
    assert(scanned(bytes, m + 1) == scan_byte(scanned(bytes, m), m, bytes[m]));
    assert(scanned(bytes, m + 2) == scan_byte(scanned(bytes, m + 1), m + 1, bytes[m + 1]));
}

/// Objects and arrays nest, and no colon inside them is behind a key of the outermost object.
pub proof fn law_nested_keys_are_passed_over(s: ScanView, i: int, b: u8)
    requires
        !s.in_text,
    ensures
        b == '{' as int || b == '[' as int ==> scan_byte(s, i, b).depth == s.depth + 1,
        b == '}' as int || b == ']' as int ==> scan_byte(s, i, b).depth == s.depth - 1,
        b != '{' as int && b != '[' as int && b != '}' as int && b != ']' as int ==> scan_byte(
            s,
            i,
            b,
        ).depth == s.depth,
        s.depth != 1 || b != ':' as int ==> scan_byte(s, i, b).keys == s.keys,
        scan_byte(s, i, b).in_text <==> b == '"' as int,
        scanned(seq![b], 0).depth == 0,
        scanned(seq![b], 0).keys.len() == 0,
        !scanned(seq![b], 0).in_text,
{
}

} // verus!
