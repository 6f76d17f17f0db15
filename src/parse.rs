//! Decoding of one page of a query response.
use vstd::prelude::*;

use crate::entity::{keys_unique, lemma_put_keeps_unique, put_attr, Entity, Value};
use crate::error::FetchError;
use crate::json::{json_get, JsonNumber, JsonValue};
use crate::text::{
    chars_of, find_chars, find_from, lemma_find_first, lemma_find_from, lemma_match_char,
    lemma_match_window, matches_at,
};

verus! {

/// The annotation that says whether more records follow.
pub open spec fn more_records_key() -> Seq<char> {
    "@Microsoft.Dynamics.CRM.morerecords"@
}

/// The annotation that holds the paging cookie.
pub open spec fn paging_cookie_key() -> Seq<char> {
    "@Microsoft.Dynamics.CRM.fetchxmlpagingcookie"@
}

/// The member of the payload that holds the rows.
pub open spec fn rows_key() -> Seq<char> {
    "value"@
}

/// The text that opens the cursor inside the paging-cookie annotation.
pub open spec fn cookie_open() -> Seq<char> {
    "pagingcookie=\""@
}

/// The IEEE-754 binary64 bit pattern of the double nearest to `u` (ties to
/// even), for `2^63 <= u < 2^64`: the top 53 bits are kept and rounded on the
/// 11 bits dropped, with exponent 63, or 64 when rounding carries out.
pub open spec fn nearest_double_bits(u: nat) -> nat {
    let hi = u / 2048;
    let rem = u % 2048;
    let m = if rem > 1024 || (rem == 1024 && hi % 2 == 1) {
        hi + 1
    } else {
        hi
    };
    if m == 0x20_0000_0000_0000 {
        1087 * 0x10_0000_0000_0000
    } else {
        (1086 * 0x10_0000_0000_0000 + (m - 0x10_0000_0000_0000)) as nat
    }
}

/// The row value of a JSON value: integers that fit in 64 signed bits are
/// integers, larger ones become the nearest double, other numbers stay
/// doubles; arrays and objects give no value.
pub open spec fn scalar_of(j: JsonValue) -> Option<Value> {
    match j {
        JsonValue::Null => Some(Value::Null),
        JsonValue::Number(JsonNumber::NegInt(i)) => Some(Value::Int(i)),
        JsonValue::Number(JsonNumber::PosInt(u)) => if u <= i64::MAX {
            Some(Value::Int(u as i64))
        } else {
            Some(Value::Float(nearest_double_bits(u as nat) as u64))
        },
        JsonValue::Number(JsonNumber::Float(b)) => Some(Value::Float(b)),
        JsonValue::String(s) => Some(Value::String(s)),
        JsonValue::Bool(b) => Some(Value::Boolean(b)),
        JsonValue::Array(_) => None,
        JsonValue::Object(_) => None,
    }
}

/// The attributes of the row built from an object's members, in order.
pub open spec fn row_of(fields: Seq<(String, JsonValue)>) -> Seq<(Seq<char>, Value)>
    decreases fields.len(),
{
    if fields.len() == 0 {
        Seq::empty()
    } else {
        let prev = row_of(fields.drop_last());
        match scalar_of(fields.last().1) {
            Some(v) => put_attr(prev, fields.last().0@, v),
            None => prev,
        }
    }
}

/// The attributes of a row built from an object have distinct names.
pub proof fn lemma_row_keys_unique(fields: Seq<(String, JsonValue)>)
    ensures
        keys_unique(row_of(fields)),
    decreases fields.len(),
{
    if fields.len() > 0 {
        lemma_row_keys_unique(fields.drop_last());
        match scalar_of(fields.last().1) {
            Some(v) => lemma_put_keeps_unique(row_of(fields.drop_last()), fields.last().0@, v),
            None => {},
        }
    }
}

/// The members of `j` when it is an object.
pub open spec fn members(j: JsonValue) -> Seq<(String, JsonValue)> {
    match j {
        JsonValue::Object(fields) => fields@,
        _ => Seq::empty(),
    }
}

/// The elements of the payload's row array, when the payload has one and
/// every element is an object.
pub open spec fn page_items(j: JsonValue) -> Option<Seq<JsonValue>> {
    match json_get(j, rows_key()) {
        Some(JsonValue::Array(items)) => if forall|i: int|
            0 <= i < items@.len() ==> (#[trigger] items@[i] is Object) {
            Some(items@)
        } else {
            None
        },
        _ => None,
    }
}

/// The rows of a page, or `None` when the payload is malformed.
pub open spec fn page_rows(j: JsonValue) -> Option<Seq<Seq<(Seq<char>, Value)>>> {
    match page_items(j) {
        Some(items) => Some(items.map_values(|it: JsonValue| row_of(members(it)))),
        None => None,
    }
}

/// Whether `s` is `true` in any mix of ASCII case.
pub open spec fn is_true_ignoring_case(s: Seq<char>) -> bool {
    &&& s.len() == 4
    &&& (s[0] == 't' || s[0] == 'T')
    &&& (s[1] == 'r' || s[1] == 'R')
    &&& (s[2] == 'u' || s[2] == 'U')
    &&& (s[3] == 'e' || s[3] == 'E')
}

/// Whether the page announces more records.
pub open spec fn more_records_spec(j: JsonValue) -> bool {
    match json_get(j, more_records_key()) {
        Some(JsonValue::Bool(b)) => b,
        Some(JsonValue::String(s)) => is_true_ignoring_case(s@),
        _ => false,
    }
}

/// The still-encoded cursor inside a paging-cookie annotation: the text
/// between `pagingcookie="` and the next `"`.
pub open spec fn cookie_fragment(s: Seq<char>) -> Option<Seq<char>> {
    match find_from(s, cookie_open(), 0) {
        None => None,
        Some(a) => {
            let st = a + cookie_open().len();
            match find_from(s, seq!['"'], st) {
                None => None,
                Some(e) => Some(s.subrange(st, e)),
            }
        },
    }
}

/// What `urlencoding::decode` returns for `s`: the text with `%xx` escapes
/// decoded, or `None` when the decoded bytes are not UTF-8.
pub uninterp spec fn percent_decoded(s: Seq<char>) -> Option<Seq<char>>;

/// What `urlencoding::encode` returns for `s`.
pub uninterp spec fn percent_encoded(s: Seq<char>) -> Seq<char>;

/// `s` percent-decoded twice.
pub open spec fn decoded_twice(s: Seq<char>) -> Option<Seq<char>> {
    match percent_decoded(s) {
        Some(once) => percent_decoded(once),
        None => None,
    }
}

/// The cursor of a page: the cookie fragment decoded twice.
pub open spec fn cursor_spec(j: JsonValue) -> Option<Seq<char>> {
    match json_get(j, paging_cookie_key()) {
        Some(JsonValue::String(s)) => match cookie_fragment(s@) {
            Some(f) => decoded_twice(f),
            None => None,
        },
        _ => None,
    }
}

/// A paging-cookie annotation that reads `pagingcookie="f"`, with no earlier
/// `pagingcookie="` and no `"` inside `f`, gives as cursor `f` decoded twice.
pub proof fn lemma_cursor_from_fragment(
    j: JsonValue,
    pre: Seq<char>,
    f: Seq<char>,
    rest: Seq<char>,
)
    requires
        json_get(j, paging_cookie_key()) matches Some(JsonValue::String(s)) && s@ == pre
            + cookie_open() + f + seq!['"'] + rest,
        forall|i: int| 0 <= i < pre.len() ==> !matches_at(pre + cookie_open(), cookie_open(), i),
        !f.contains('"'),
    ensures
        cursor_spec(j) == decoded_twice(f),
{
    let open = cookie_open();
    let a = pre + open;
    let s = pre + open + f + seq!['"'] + rest;
    assert forall|i: int| 0 <= i < pre.len() implies !matches_at(s, open, i) by {
        assert(a.subrange(i, i + open.len()) =~= s.subrange(i, i + open.len()));
        lemma_match_window(a, s, open, i, i);
    }
    let p: int = pre.len() as int;
    assert(s.subrange(p, p + open.len()) =~= open);
    lemma_find_first(s, open, 0, p);
    let st: int = p + open.len();
    let e: int = st + f.len();
    lemma_match_char(s, '"', e);
    assert forall|i: int| st <= i < e implies !matches_at(s, seq!['"'], i) by {
        lemma_match_char(s, '"', i);
        assert(s[i] == f[i - st]);
    }
    lemma_find_first(s, seq!['"'], st, e);
    assert(s.subrange(st, e) =~= f);
}

/// Relies on `urlencoding::decode`: decodes `%xx` escapes as UTF-8 and fails
/// only when the result is not UTF-8; a text without `%` is returned as it is.
#[verifier::external_body]
fn url_decode(s: &str) -> (r: Option<String>)
    ensures
        r is Some <==> percent_decoded(s@) is Some,
        r is Some ==> percent_decoded(s@) == Some(r->0@),
        !s@.contains('%') ==> r is Some && r->0@ == s@,
{
    urlencoding::decode(s).ok().map(|c| c.into_owned())
}

/// Relies on `urlencoding::encode`: percent-encodes every byte outside
/// `A-Z a-z 0-9 - . _ ~`.
#[verifier::external_body]
pub(crate) fn url_encode(s: &str) -> (r: String)
    ensures
        r@ == percent_encoded(s@),
{
    urlencoding::encode(s).into_owned()
}

/// The double nearest to `u`, for `u` above `i64::MAX`.
fn nearest_double(u: u64) -> (r: u64)
    requires
        u > i64::MAX,
    ensures
        r as nat == nearest_double_bits(u as nat),
{
    let hi = u / 2048;
    let rem = u % 2048;
    assert(0x10_0000_0000_0000 <= hi < 0x20_0000_0000_0000) by (nonlinear_arith)
        requires
            hi == u / 2048,
            u > i64::MAX,
            u <= u64::MAX,
    ;
    let m = if rem > 1024 || (rem == 1024 && hi % 2 == 1) {
        hi + 1
    } else {
        hi
    };
    if m == 0x20_0000_0000_0000 {
        1087 * 0x10_0000_0000_0000
    } else {
        1086 * 0x10_0000_0000_0000 + (m - 0x10_0000_0000_0000)
    }
}

/// Convert a JSON value into a row value: integer before double.
pub fn scalar_from_json(value: &JsonValue) -> (r: Option<Value>)
    ensures
        r == scalar_of(*value),
{
    match value {
        JsonValue::Null => Some(Value::Null),
        JsonValue::Number(JsonNumber::NegInt(i)) => Some(Value::Int(*i)),
        JsonValue::Number(JsonNumber::PosInt(u)) => {
            if *u <= i64::MAX as u64 {
                Some(Value::Int(*u as i64))
            } else {
                Some(Value::Float(nearest_double(*u)))
            }
        },
        JsonValue::Number(JsonNumber::Float(b)) => Some(Value::Float(*b)),
        JsonValue::String(s) => Some(Value::String(s.clone())),
        JsonValue::Bool(b) => Some(Value::Boolean(*b)),
        JsonValue::Array(_) => None,
        JsonValue::Object(_) => None,
    }
}

/// Builds the row of an object's members.
pub fn entity_from_fields(fields: &Vec<(String, JsonValue)>) -> (r: Entity)
    ensures
        r.attrs() == row_of(fields@),
        r.wf(),
{
    proof {
        lemma_row_keys_unique(fields@);
    }
    let mut entity = Entity::new();
    let n = fields.len();
    let mut i: usize = 0;
    while i < n
        invariant
            n == fields@.len(),
            i <= n,
            entity.attrs() == row_of(fields@.subrange(0, i as int)),
        decreases n - i,
    {
        let ghost pre = fields@.subrange(0, i + 1);
        assert(pre.drop_last() =~= fields@.subrange(0, i as int));
        match scalar_from_json(&fields[i].1) {
            Some(v) => {
                entity.insert(fields[i].0.clone(), v);
            },
            None => {},
        }
        i = i + 1;
    }
    assert(fields@.subrange(0, n as int) =~= fields@);
    entity
}

/// The row array of the payload, when it is one of objects.
pub(crate) fn page_items_of(json: &JsonValue) -> (r: Option<&Vec<JsonValue>>)
    ensures
        match r {
            Some(items) => page_items(*json) == Some(items@),
            None => page_items(*json) is None,
        },
{
    let items = match json.get("value") {
        Some(JsonValue::Array(items)) => items,
        _ => return None,
    };
    let n = items.len();
    let mut i: usize = 0;
    while i < n
        invariant
            n == items@.len(),
            i <= n,
            forall|k: int| 0 <= k < i ==> (#[trigger] items@[k] is Object),
            json_get(*json, rows_key()) == Some(JsonValue::Array(*items)),
        decreases n - i,
    {
        match &items[i] {
            JsonValue::Object(_) => {},
            _ => {
                assert(!(items@[i as int] is Object));
                return None;
            },
        }
        i = i + 1;
    }
    Some(items)
}

/// Parse the rows of one page; fails when the payload is not an object with
/// a `value` array of objects.
pub fn parse_entities_from_response(json: &JsonValue) -> (r: Result<Vec<Entity>, FetchError>)
    ensures
        match r {
            Ok(rows) => page_rows(*json) matches Some(p) && rows@.len() == p.len() && forall|i: int|
                0 <= i < p.len() ==> (#[trigger] rows@[i]).attrs() == p[i] && rows@[i].wf(),
            Err(e) => page_rows(*json) is None && e == FetchError::MalformedResponse,
        },
{
    let items = match page_items_of(json) {
        None => return Err(FetchError::MalformedResponse),
        Some(items) => items,
    };
    let ghost p = items@.map_values(|it: JsonValue| row_of(members(it)));
    let n = items.len();
    let mut rows: Vec<Entity> = Vec::new();
    let mut i: usize = 0;
    while i < n
        invariant
            n == items@.len(),
            i <= n,
            p == items@.map_values(|it: JsonValue| row_of(members(it))),
            forall|k: int| 0 <= k < n ==> (#[trigger] items@[k] is Object),
            rows@.len() == i,
            forall|k: int| 0 <= k < i ==> (#[trigger] rows@[k]).attrs() == p[k] && rows@[k].wf(),
        decreases n - i,
    {
        match &items[i] {
            JsonValue::Object(fields) => {
                rows.push(entity_from_fields(fields));
            },
            _ => {
                assert(items@[i as int] is Object);
            },
        }
        i = i + 1;
    }
    Ok(rows)
}

/// Count the rows of one page, with the same checks as
/// `parse_entities_from_response` and without building them.
pub fn parse_record_count_from_response(json: &JsonValue) -> (r: Result<usize, FetchError>)
    ensures
        match r {
            Ok(c) => page_rows(*json) matches Some(p) && c == p.len(),
            Err(e) => page_rows(*json) is None && e == FetchError::MalformedResponse,
        },
{
    match page_items_of(json) {
        None => Err(FetchError::MalformedResponse),
        Some(items) => Ok(items.len()),
    }
}

/// Whether `s` is `true` in any mix of ASCII case.
fn is_true_text(s: &String) -> (r: bool)
    ensures
        r == is_true_ignoring_case(s@),
{
    let cs = chars_of(s.as_str());
    cs.len() == 4 && (cs[0] == 't' || cs[0] == 'T') && (cs[1] == 'r' || cs[1] == 'R') && (cs[2]
        == 'u' || cs[2] == 'U') && (cs[3] == 'e' || cs[3] == 'E')
}

/// Determine if a response page announces more records.
pub fn parse_more_records(json: &JsonValue) -> (r: bool)
    ensures
        r == more_records_spec(*json),
{
    match json.get("@Microsoft.Dynamics.CRM.morerecords") {
        Some(JsonValue::Bool(b)) => *b,
        Some(JsonValue::String(s)) => is_true_text(s),
        _ => false,
    }
}

/// The still-encoded cursor inside a paging-cookie annotation.
fn cookie_fragment_of(s: &str) -> (r: Option<&str>)
    ensures
        match r {
            Some(f) => cookie_fragment(s@) == Some(f@),
            None => cookie_fragment(s@) is None,
        },
{
    let cs = chars_of(s);
    let n = cs.len();
    let open = chars_of("pagingcookie=\"");
    let a = match find_chars(&cs, &open, 0) {
        None => return None,
        Some(a) => a,
    };
    proof {
        lemma_find_from(cs@, open@, 0);
    }
    assert(a + open@.len() <= n);
    let st = a + open.len();
    let quote = vec!['"'];
    assert(quote@ =~= seq!['"']);
    match find_chars(&cs, &quote, st) {
        None => None,
        Some(e) => {
            proof {
                lemma_find_from(cs@, quote@, st as int);
            }
            Some(s.substring_char(st, e))
        },
    }
}

/// Extract the paging cursor of a response page: the cookie fragment,
/// percent-decoded twice.
pub fn extract_paging_cookie(json: &JsonValue) -> (r: Option<String>)
    ensures
        match r {
            Some(c) => cursor_spec(*json) == Some(c@),
            None => cursor_spec(*json) is None,
        },
        match json_get(*json, paging_cookie_key()) {
            Some(JsonValue::String(s)) => match cookie_fragment(s@) {
                Some(f) => !f.contains('%') ==> (r is Some && r->0@ == f),
                None => true,
            },
            _ => true,
        },
{
    let annotation = match json.get("@Microsoft.Dynamics.CRM.fetchxmlpagingcookie") {
        Some(JsonValue::String(s)) => s,
        _ => return None,
    };
    let encoded = match cookie_fragment_of(annotation.as_str()) {
        None => return None,
        Some(f) => f,
    };
    let once = match url_decode(encoded) {
        None => return None,
        Some(t) => t,
    };
    url_decode(once.as_str())
}

} // verus!
