use dataverse_fetch::error::QuerySyntaxError;
use dataverse_fetch::fetchxml::{
    apply_paging, ensure_aggregate_page_size, escape_xml_attribute, fetch_tag_has_attr,
    upsert_fetch_attr,
};

#[test]
fn inserts_attribute_before_root_tag_end() {
    let q = "<fetch><entity name=\"t\"/></fetch>";
    let r = upsert_fetch_attr(q, "page", "1").unwrap();
    assert_eq!(r, "<fetch page=\"1\"><entity name=\"t\"/></fetch>");
}

#[test]
fn replaces_attribute_keeping_single_quotes() {
    let q = "<fetch page='3' count='10'><entity name='t'/></fetch>";
    let r = upsert_fetch_attr(q, "page", "12").unwrap();
    assert_eq!(r, "<fetch page='12' count='10'><entity name='t'/></fetch>");
}

#[test]
fn missing_root_tag_is_a_syntax_error() {
    assert_eq!(upsert_fetch_attr("<foo/>", "page", "1"), Err(QuerySyntaxError::MissingRootTag));
    assert_eq!(fetch_tag_has_attr("<foo/>", "top"), Err(QuerySyntaxError::MissingRootTag));
}

#[test]
fn unclosed_root_tag_is_a_syntax_error() {
    assert_eq!(
        upsert_fetch_attr("<fetch page=\"1\"", "page", "2"),
        Err(QuerySyntaxError::UnclosedRootTag)
    );
}

#[test]
fn unquoted_attribute_is_a_syntax_error() {
    let r = upsert_fetch_attr("<fetch page=1><entity/></fetch>", "page", "2");
    assert_eq!(r, Err(QuerySyntaxError::InvalidAttribute { name: "page".to_string() }));
    let r = upsert_fetch_attr("<fetch page=\"1><entity/></fetch>", "page", "2");
    assert_eq!(r, Err(QuerySyntaxError::InvalidAttribute { name: "page".to_string() }));
}

#[test]
fn detects_row_limit_on_root_tag_only() {
    assert_eq!(fetch_tag_has_attr("<fetch top=\"5\"><entity/></fetch>", "top"), Ok(true));
    assert_eq!(
        fetch_tag_has_attr("<fetch><entity name=\"t\" top=\"5\"/></fetch>", "top"),
        Ok(false)
    );
}

#[test]
fn escapes_all_five_characters() {
    assert_eq!(escape_xml_attribute("a&b<c>d\"e'f"), "a&amp;b&lt;c&gt;d&quot;e&apos;f");
    assert_eq!(escape_xml_attribute(""), "");
}

#[test]
fn apply_paging_sets_page_and_escaped_cursor() {
    let q = "<fetch><entity name=\"t\"/></fetch>";
    let r = apply_paging(q, 2, Some("<cookie page=\"1\"/>")).unwrap();
    assert_eq!(
        r,
        "<fetch page=\"2\" paging-cookie=\"&lt;cookie page=&quot;1&quot;/&gt;\"><entity name=\"t\"/></fetch>"
    );
}

#[test]
fn apply_paging_twice_is_the_same() {
    let q = "<fetch count=\"50\"><entity name=\"t\"/></fetch>";
    let once = apply_paging(q, 7, Some("x&y")).unwrap();
    let twice = apply_paging(&once, 7, Some("x&y")).unwrap();
    assert_eq!(once, twice);
    assert_eq!(once.matches("page=").count(), 1);
    assert_eq!(once.matches("paging-cookie=").count(), 1);
}

#[test]
fn apply_paging_without_cursor() {
    let r = apply_paging("<fetch page=\"4\"></fetch>", 5, None).unwrap();
    assert_eq!(r, "<fetch page=\"5\"></fetch>");
}

#[test]
fn aggregate_query_gets_cap_once() {
    let q = "<fetch aggregate=\"true\"><entity name=\"t\"/></fetch>";
    let once = ensure_aggregate_page_size(q, 5000).unwrap();
    assert_eq!(once, "<fetch aggregate=\"true\" count=\"5000\"><entity name=\"t\"/></fetch>");
    let twice = ensure_aggregate_page_size(&once, 5000).unwrap();
    assert_eq!(twice, once);
}

#[test]
fn aggregate_query_with_count_is_unchanged() {
    let q = "<fetch aggregate=\"true\" count=\"10\"><entity name=\"t\"/></fetch>";
    assert_eq!(ensure_aggregate_page_size(q, 5000).unwrap(), q);
}

#[test]
fn non_aggregate_query_is_unchanged() {
    let q = "<fetch><entity name=\"t\"/></fetch>";
    assert_eq!(ensure_aggregate_page_size(q, 5000).unwrap(), q);
}

#[test]
fn aggregate_cap_needs_a_closed_root_tag() {
    assert_eq!(ensure_aggregate_page_size("<foo/>", 5000), Err(QuerySyntaxError::MissingRootTag));
    assert_eq!(
        ensure_aggregate_page_size("<foo aggregate=\"true\"/>", 5000),
        Err(QuerySyntaxError::MissingRootTag)
    );
    assert_eq!(
        ensure_aggregate_page_size("<fetch aggregate=\"true\"", 5000),
        Err(QuerySyntaxError::UnclosedRootTag)
    );
}

#[test]
fn syntax_errors_have_messages() {
    assert_eq!(
        QuerySyntaxError::MissingRootTag.message(),
        "FetchXML must start with a <fetch> element"
    );
    assert_eq!(QuerySyntaxError::UnclosedRootTag.message(), "FetchXML <fetch> element is not closed");
    assert_eq!(
        QuerySyntaxError::InvalidAttribute { name: "page".to_string() }.message(),
        "Invalid fetch attribute 'page'"
    );
}
