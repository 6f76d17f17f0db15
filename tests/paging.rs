use dataverse_fetch::entity::{Entity, Value};
use dataverse_fetch::error::{FetchError, QuerySyntaxError};
use dataverse_fetch::json::{JsonNumber, JsonValue};
use dataverse_fetch::paging::{Collect, Outcome, PagingDriver, Step};

fn text(s: &str) -> JsonValue {
    JsonValue::String(s.to_string())
}

fn object(members: Vec<(&str, JsonValue)>) -> JsonValue {
    JsonValue::Object(members.into_iter().map(|(k, v)| (k.to_string(), v)).collect())
}

fn row(id: u64) -> JsonValue {
    object(vec![("id", JsonValue::Number(JsonNumber::PosInt(id))), ("name", text("n"))])
}

fn page(rows: Vec<JsonValue>, more: bool, cookie: Option<&str>) -> JsonValue {
    let mut members = vec![("value", JsonValue::Array(rows))];
    members.push(("@Microsoft.Dynamics.CRM.morerecords", JsonValue::Bool(more)));
    if let Some(c) = cookie {
        members.push(("@Microsoft.Dynamics.CRM.fetchxmlpagingcookie", text(c)));
    }
    object(members)
}

fn expect_fetch(step: Result<Step, FetchError>) -> (PagingDriver, String) {
    match step {
        Ok(Step::Fetch(d, q)) => (d, q),
        Ok(Step::Done(o)) => panic!("expected a request, got the end {:?}", o),
        Err(e) => panic!("expected a request, got {:?}", e),
    }
}

fn expect_done(step: Result<Step, FetchError>) -> Outcome {
    match step {
        Ok(Step::Done(o)) => o,
        Ok(Step::Fetch(_, q)) => panic!("expected the end, got a request for {}", q),
        Err(e) => panic!("expected the end, got {:?}", e),
    }
}

fn expect_err<T>(r: Result<T, FetchError>) -> FetchError {
    match r {
        Ok(_) => panic!("expected an error"),
        Err(e) => e,
    }
}

fn row_number(e: &Entity) -> Option<Value> {
    e.get("__rownum").cloned()
}

fn two_pages() -> (JsonValue, JsonValue) {
    (
        page(vec![row(1), row(2)], true, Some("<cookie pagenumber=\"2\" pagingcookie=\"AB\" />")),
        page(vec![row(3)], false, None),
    )
}

#[test]
fn two_page_retrieval_numbers_rows_and_counts_them() {
    let q = "<fetch><entity name=\"t\"/></fetch>";
    let (p1, p2) = two_pages();

    let (d, first) = PagingDriver::start(q, Collect::Rows).unwrap();
    assert_eq!(first, "<fetch page=\"1\"><entity name=\"t\"/></fetch>");
    let (d, second) = expect_fetch(d.on_page(&p1));
    assert_eq!(second, "<fetch page=\"2\" paging-cookie=\"AB\"><entity name=\"t\"/></fetch>");
    let rows = match expect_done(d.on_page(&p2)) {
        Outcome::Rows(rows) => rows,
        other => panic!("expected rows, got {:?}", other),
    };
    assert_eq!(rows.len(), 3);
    for (i, e) in rows.iter().enumerate() {
        assert_eq!(row_number(e), Some(Value::Int(i as i64 + 1)));
        assert_eq!(e.get("id").cloned(), Some(Value::Int(i as i64 + 1)));
    }

    let (d, first_count) = PagingDriver::start(q, Collect::Count).unwrap();
    assert_eq!(first_count, first);
    let (d, second_count) = expect_fetch(d.on_page(&p1));
    assert_eq!(second_count, second);
    match expect_done(d.on_page(&p2)) {
        Outcome::Count(c) => assert_eq!(c, 3),
        other => panic!("expected a count, got {:?}", other),
    }
}

#[test]
fn row_limited_query_takes_one_request() {
    let q = "<fetch top=\"2\"><entity name=\"t\"/></fetch>";
    let (d, first) = PagingDriver::start(q, Collect::Rows).unwrap();
    assert_eq!(first, q);
    let p = page(vec![row(1), row(2)], true, Some("<cookie pagingcookie=\"AB\" />"));
    match expect_done(d.on_page(&p)) {
        Outcome::Rows(rows) => {
            assert_eq!(rows.len(), 2);
            assert_eq!(row_number(&rows[0]), None);
        }
        other => panic!("expected rows, got {:?}", other),
    }
    let (d, _) = PagingDriver::start(q, Collect::Count).unwrap();
    match expect_done(d.on_page(&p)) {
        Outcome::Count(c) => assert_eq!(c, 2),
        other => panic!("expected a count, got {:?}", other),
    }
}

#[test]
fn row_limited_aggregate_query_is_capped() {
    let q = "<fetch top=\"2\" aggregate=\"true\"><entity name=\"t\"/></fetch>";
    let (_, first) = PagingDriver::start(q, Collect::Rows).unwrap();
    assert_eq!(first, "<fetch top=\"2\" aggregate=\"true\" count=\"5000\"><entity name=\"t\"/></fetch>");
}

#[test]
fn malformed_payload_fails_without_another_request() {
    let q = "<fetch><entity name=\"t\"/></fetch>";
    let bad = object(vec![("notvalue", JsonValue::Array(vec![]))]);
    let (d, _) = PagingDriver::start(q, Collect::Rows).unwrap();
    assert_eq!(expect_err(d.on_page(&bad)), FetchError::MalformedResponse);
    let (d, _) = PagingDriver::start(q, Collect::Count).unwrap();
    assert_eq!(expect_err(d.on_page(&bad)), FetchError::MalformedResponse);
}

#[test]
fn non_object_row_is_malformed_for_rows_and_count() {
    let q = "<fetch><entity name=\"t\"/></fetch>";
    let bad = page(vec![row(1), JsonValue::Number(JsonNumber::PosInt(3))], false, None);
    let (d, _) = PagingDriver::start(q, Collect::Rows).unwrap();
    assert_eq!(expect_err(d.on_page(&bad)), FetchError::MalformedResponse);
    let (d, _) = PagingDriver::start(q, Collect::Count).unwrap();
    assert_eq!(expect_err(d.on_page(&bad)), FetchError::MalformedResponse);
}

#[test]
fn missing_root_tag_fails_before_any_request() {
    let r = PagingDriver::start("<foo/>", Collect::Rows);
    assert_eq!(expect_err(r), FetchError::QuerySyntax(QuerySyntaxError::MissingRootTag));
    let r = PagingDriver::start("<foo/>", Collect::Count);
    assert_eq!(expect_err(r), FetchError::QuerySyntax(QuerySyntaxError::MissingRootTag));
}

#[test]
fn more_records_without_cursor_is_a_protocol_error() {
    let q = "<fetch><entity name=\"t\"/></fetch>";
    let p = page(vec![row(1)], true, None);
    let (d, _) = PagingDriver::start(q, Collect::Rows).unwrap();
    assert_eq!(expect_err(d.on_page(&p)), FetchError::ProtocolInconsistency);
    let p = page(vec![row(1)], true, Some("<cookie page=\"2\" />"));
    let (d, _) = PagingDriver::start(q, Collect::Count).unwrap();
    assert_eq!(expect_err(d.on_page(&p)), FetchError::ProtocolInconsistency);
}

#[test]
fn double_encoded_cursor_is_decoded_and_escaped() {
    let q = "<fetch><entity name=\"t\"/></fetch>";
    let cookie = "<cookie page=\"1\"><id last=\"{A}\" /></cookie>";
    let encoded = urlencoding::encode(&urlencoding::encode(cookie)).into_owned();
    let annotation = format!("<cookie pagenumber=\"2\" pagingcookie=\"{}\" istracking=\"False\" />", encoded);
    let p = page(vec![row(1)], true, Some(&annotation));
    let (d, _) = PagingDriver::start(q, Collect::Rows).unwrap();
    let (_, next) = expect_fetch(d.on_page(&p));
    assert_eq!(
        next,
        "<fetch page=\"2\" paging-cookie=\"&lt;cookie page=&quot;1&quot;&gt;&lt;id last=&quot;{A}&quot; /&gt;&lt;/cookie&gt;\"><entity name=\"t\"/></fetch>"
    );
}
