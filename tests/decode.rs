use dataverse_fetch::entity::{Entity, Value};
use dataverse_fetch::error::FetchError;
use dataverse_fetch::json::{JsonNumber, JsonValue};
use dataverse_fetch::parse::{
    entity_from_fields, extract_paging_cookie, parse_entities_from_response, parse_more_records,
    parse_record_count_from_response, scalar_from_json,
};

fn text(s: &str) -> JsonValue {
    JsonValue::String(s.to_string())
}

fn object(members: Vec<(&str, JsonValue)>) -> JsonValue {
    JsonValue::Object(members.into_iter().map(|(k, v)| (k.to_string(), v)).collect())
}

#[test]
fn scalars_follow_integer_before_double() {
    assert_eq!(scalar_from_json(&JsonValue::Null), Some(Value::Null));
    assert_eq!(scalar_from_json(&JsonValue::Bool(true)), Some(Value::Boolean(true)));
    assert_eq!(scalar_from_json(&text("x")), Some(Value::String("x".to_string())));
    assert_eq!(
        scalar_from_json(&JsonValue::Number(JsonNumber::NegInt(-4))),
        Some(Value::Int(-4))
    );
    assert_eq!(
        scalar_from_json(&JsonValue::Number(JsonNumber::PosInt(i64::MAX as u64))),
        Some(Value::Int(i64::MAX))
    );
    assert_eq!(
        scalar_from_json(&JsonValue::Number(JsonNumber::Float(2.5f64.to_bits()))),
        Some(Value::Float(2.5f64.to_bits()))
    );
    assert_eq!(scalar_from_json(&JsonValue::Array(vec![])), None);
    assert_eq!(scalar_from_json(&object(vec![])), None);
}

#[test]
fn large_unsigned_becomes_nearest_double() {
    for u in [
        i64::MAX as u64 + 1,
        u64::MAX,
        u64::MAX - 1024,
        u64::MAX - 1025,
        (1u64 << 63) + 1024,
        (1u64 << 63) + 1025,
        (1u64 << 63) + 3072,
        12345678901234567890,
    ] {
        assert_eq!(
            scalar_from_json(&JsonValue::Number(JsonNumber::PosInt(u))),
            Some(Value::Float((u as f64).to_bits())),
            "for {}",
            u
        );
    }
}

#[test]
fn row_keeps_scalars_and_skips_nested_values() {
    let fields = vec![
        ("a".to_string(), JsonValue::Number(JsonNumber::PosInt(1))),
        ("b".to_string(), JsonValue::Array(vec![])),
        ("c".to_string(), text("z")),
        ("a".to_string(), JsonValue::Bool(false)),
    ];
    let e: Entity = entity_from_fields(&fields);
    assert_eq!(e.len(), 2);
    assert_eq!(e.get("a").cloned(), Some(Value::Boolean(false)));
    assert_eq!(e.get("b"), None);
    assert_eq!(e.get("c").cloned(), Some(Value::String("z".to_string())));
}

#[test]
fn decodes_rows_and_counts() {
    let payload = object(vec![(
        "value",
        JsonValue::Array(vec![object(vec![("x", JsonValue::Null)]), object(vec![])]),
    )]);
    let rows = parse_entities_from_response(&payload).unwrap();
    assert_eq!(rows.len(), 2);
    assert_eq!(rows[0].get("x").cloned(), Some(Value::Null));
    assert_eq!(rows[1].len(), 0);
    assert_eq!(parse_record_count_from_response(&payload), Ok(2));
}

#[test]
fn malformed_payloads_are_rejected() {
    let cases = vec![
        JsonValue::Array(vec![]),
        object(vec![("notvalue", JsonValue::Array(vec![]))]),
        object(vec![("value", text("rows"))]),
        object(vec![("value", JsonValue::Array(vec![text("row")]))]),
    ];
    for c in &cases {
        assert_eq!(parse_entities_from_response(c).unwrap_err(), FetchError::MalformedResponse);
        assert_eq!(parse_record_count_from_response(c), Err(FetchError::MalformedResponse));
    }
}

#[test]
fn more_records_flag() {
    let key = "@Microsoft.Dynamics.CRM.morerecords";
    assert!(parse_more_records(&object(vec![(key, JsonValue::Bool(true))])));
    assert!(parse_more_records(&object(vec![(key, text("TrUe"))])));
    assert!(!parse_more_records(&object(vec![(key, text("yes"))])));
    assert!(!parse_more_records(&object(vec![(key, JsonValue::Bool(false))])));
    assert!(!parse_more_records(&object(vec![(key, JsonValue::Number(JsonNumber::PosInt(1)))])));
    assert!(!parse_more_records(&object(vec![])));
}

#[test]
fn paging_cookie_is_decoded_twice() {
    let key = "@Microsoft.Dynamics.CRM.fetchxmlpagingcookie";
    let annotation = "<cookie pagenumber=\"2\" pagingcookie=\"%253ccookie%2520page%253d%25221%2522%253e\" />";
    assert_eq!(
        extract_paging_cookie(&object(vec![(key, text(annotation))])),
        Some("<cookie page=\"1\">".to_string())
    );
    assert_eq!(
        extract_paging_cookie(&object(vec![(key, text("<cookie pagingcookie=\"AB\" />"))])),
        Some("AB".to_string())
    );
    assert_eq!(
        extract_paging_cookie(&object(vec![(key, text("<cookie pagingcookie=\"a+b\" />"))])),
        Some("a+b".to_string())
    );
    assert_eq!(extract_paging_cookie(&object(vec![(key, text("<cookie />"))])), None);
    assert_eq!(extract_paging_cookie(&object(vec![(key, text("pagingcookie=\"AB"))])), None);
    assert_eq!(extract_paging_cookie(&object(vec![])), None);
    assert_eq!(
        extract_paging_cookie(&object(vec![(key, text("pagingcookie=\"%25FF\""))])),
        None
    );
}

#[test]
fn entity_insert_replaces_existing_value() {
    let mut e = Entity::new();
    e.insert("k".to_string(), Value::Int(1));
    e.insert("j".to_string(), Value::Int(2));
    e.insert("k".to_string(), Value::Int(3));
    assert_eq!(e.len(), 2);
    assert_eq!(e.get("k").cloned(), Some(Value::Int(3)));
    assert_eq!(e.get("missing"), None);
}
