use dataverse_fetch::client::{check_status, LogLevel, ServiceClient};
use dataverse_fetch::error::FetchError;

#[test]
fn base_url_loses_trailing_slashes() {
    let c = ServiceClient::new("https://org.example.com//", "tok", LogLevel::Debug);
    assert_eq!(c.base_url(), "https://org.example.com");
    assert_eq!(c.token(), "tok");
    assert!(c.logs_requests());
    assert_eq!(c.log_level(), LogLevel::Debug);
    let c = ServiceClient::new("https://org.example.com", "tok", LogLevel::default());
    assert_eq!(c.base_url(), "https://org.example.com");
    assert!(!c.logs_requests());
}

#[test]
fn fetch_url_encodes_the_query() {
    let c = ServiceClient::new("https://org.example.com/", "tok", LogLevel::Information);
    assert_eq!(
        c.fetch_url("accounts", "<fetch top=\"1\">"),
        "https://org.example.com/api/data/v9.2/accounts?fetchXml=%3Cfetch%20top%3D%221%22%3E"
    );
}

#[test]
fn metadata_urls() {
    let c = ServiceClient::new("https://o.example/", "tok", LogLevel::Information);
    assert_eq!(
        c.record_url("accounts", "{1234-abcd}"),
        "https://o.example/api/data/v9.2/accounts(1234-abcd)"
    );
    assert!(c
        .entity_attributes_url("o'brien")
        .starts_with("https://o.example/api/data/v9.2/EntityDefinitions(LogicalName='o''brien')/Attributes?"));
    assert!(c.entity_definitions_url().ends_with("IsCustomEntity,PrimaryIdAttribute"));
    assert_eq!(
        c.entity_definition_url("it's"),
        "https://o.example/api/data/v9.2/EntityDefinitions(LogicalName='it''s')"
    );
}

#[test]
fn non_success_status_is_a_transport_error() {
    assert_eq!(check_status(200, "ok".to_string()), Ok(()));
    assert_eq!(check_status(299, String::new()), Ok(()));
    assert_eq!(
        check_status(404, "not found".to_string()),
        Err(FetchError::Transport { status: Some(404), body: "not found".to_string() })
    );
    assert!(check_status(199, String::new()).is_err());
    assert!(check_status(300, String::new()).is_err());
}

#[test]
fn query_headers_ask_for_paging_annotations() {
    let c = ServiceClient::new("https://o.example", "tok", LogLevel::Information);
    let h = c.fetch_headers();
    assert_eq!(h.len(), 3);
    assert_eq!(h[0], ("Accept".to_string(), "application/json".to_string()));
    assert_eq!(h[1], ("Authorization".to_string(), "Bearer tok".to_string()));
    assert_eq!(h[2].0, "Prefer");
    assert!(h[2].1.contains("Microsoft.Dynamics.CRM.fetchxmlpagingcookie"));
    assert!(h[2].1.contains("Microsoft.Dynamics.CRM.morerecords"));
}
