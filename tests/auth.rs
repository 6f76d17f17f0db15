use dataverse_fetch::auth::{
    authorization_code_form, client_credentials_form, client_credentials_token_from_response,
    expiring_soon_at_time, has_client_credentials, is_expiring_soon, parse_expires_at, parse_u64, token_exchange_from_response,
    token_url, trim_whitespace, CachedToken,
};
use dataverse_fetch::json::{JsonNumber, JsonValue};

fn object(members: Vec<(&str, JsonValue)>) -> JsonValue {
    JsonValue::Object(members.into_iter().map(|(k, v)| (k.to_string(), v)).collect())
}

#[test]
fn parses_expiry_like_u64_from_str() {
    assert_eq!(parse_expires_at(" 1700000000\n"), Some(1700000000));
    assert_eq!(parse_expires_at("+7"), Some(7));
    assert_eq!(parse_expires_at("18446744073709551615"), Some(u64::MAX));
    assert_eq!(parse_expires_at("18446744073709551616"), None);
    assert_eq!(parse_expires_at("-1"), None);
    assert_eq!(parse_expires_at(""), None);
    assert_eq!(parse_expires_at("+"), None);
    assert_eq!(parse_expires_at("12a"), None);
    assert_eq!(parse_u64("0042"), Some(42));
    assert_eq!(trim_whitespace("\u{3000} a b\t"), "a b");
}

#[test]
fn expiry_margin() {
    assert!(is_expiring_soon(None));
    assert!(is_expiring_soon(Some(100)));
    assert!(expiring_soon_at_time(Some(1000), 700));
    assert!(!expiring_soon_at_time(Some(1000), 699));
    let t = CachedToken { access_token: "abc".to_string(), expires_at: Some(10_000) };
    assert!(t.is_usable_at(1000));
    assert!(!t.is_usable_at(9800));
    let blank = CachedToken { access_token: "  ".to_string(), expires_at: Some(10_000) };
    assert!(!blank.is_usable_at(1000));
}

#[test]
fn client_credentials_response() {
    let ok = object(vec![
        ("access_token", JsonValue::String("tok".to_string())),
        ("expires_in", JsonValue::Number(JsonNumber::PosInt(3600))),
    ]);
    let t = client_credentials_token_from_response(&ok, 100).unwrap();
    assert_eq!(t.access_token, "tok");
    assert_eq!(t.expires_at, 3700);
    let no_token = object(vec![("expires_in", JsonValue::Number(JsonNumber::PosInt(1)))]);
    assert_eq!(
        client_credentials_token_from_response(&no_token, 0).err(),
        Some("No access_token in response".to_string())
    );
    let blank = object(vec![
        ("access_token", JsonValue::String(" ".to_string())),
        ("expires_in", JsonValue::Number(JsonNumber::PosInt(1))),
    ]);
    assert_eq!(
        client_credentials_token_from_response(&blank, 0).err(),
        Some("Access token was empty".to_string())
    );
    let no_expiry = object(vec![("access_token", JsonValue::String("t".to_string()))]);
    assert_eq!(
        client_credentials_token_from_response(&no_expiry, 0).err(),
        Some("No expires_in in response".to_string())
    );
}

#[test]
fn token_exchange_response() {
    let r = object(vec![
        ("access_token", JsonValue::String("a".to_string())),
        ("expires_in", JsonValue::Number(JsonNumber::PosInt(10))),
    ]);
    let t = token_exchange_from_response(&r, u64::MAX - 5, Some("old")).unwrap();
    assert_eq!(t.refresh_token, "old");
    assert_eq!(t.expires_at, u64::MAX);
    assert_eq!(
        token_exchange_from_response(&r, 0, None).err(),
        Some("No refresh_token in response".to_string())
    );
}

#[test]
fn token_request_forms() {
    assert_eq!(token_url("t1"), "https://login.microsoftonline.com/t1/oauth2/v2.0/token");
    let f = client_credentials_form("id", "secret", "scope");
    assert_eq!(f.len(), 4);
    assert_eq!(f[3], ("grant_type".to_string(), "client_credentials".to_string()));
    let f = authorization_code_form("id", "s", "sc", " ", "uri", "user", "pw");
    assert_eq!(f[3], ("grant_type".to_string(), "password".to_string()));
    assert_eq!(f[4], ("username".to_string(), "user".to_string()));
    let f = authorization_code_form("id", "s", "sc", "code", "uri", "user", "pw");
    assert_eq!(f[3], ("grant_type".to_string(), "authorization_code".to_string()));
    assert_eq!(f[5], ("redirect_uri".to_string(), "uri".to_string()));
}

#[test]
fn expiry_is_judged_against_the_clock() {
    // a time in 2001 has passed; one near the end of the u64 range has not
    assert!(is_expiring_soon(Some(1_000_000_000)));
    assert!(!is_expiring_soon(Some(u64::MAX)));
}

#[test]
fn refresh_needs_every_client_credential() {
    assert!(has_client_credentials("id", "secret", "tenant", "scope"));
    assert!(!has_client_credentials("id", " ", "tenant", "scope"));
    assert!(!has_client_credentials("", "secret", "tenant", "scope"));
}
