//! Access tokens: their types, expiry, and the decoding of token responses.
//! The token requests themselves are sent by the caller.
use vstd::prelude::*;

use crate::json::{json_get, JsonNumber, JsonValue};
use crate::text::chars_of;

verus! {

/// Seconds before expiry from which a token is renewed.
pub const REFRESH_SKEW_SECS: u64 = 300;

/// Tokens returned by an authorization-code or refresh-token exchange.
pub struct TokenExchange {
    pub access_token: String,
    pub refresh_token: String,
    pub expires_at: u64,
}

/// Token returned by the client-credentials flow.
pub struct ClientCredentialsToken {
    pub access_token: String,
    pub expires_at: u64,
}

/// Cached access token and optional expiry.
pub struct CachedToken {
    /// OAuth access token.
    pub access_token: String,
    /// Expiration time as seconds since epoch.
    pub expires_at: Option<u64>,
}

/// Authentication configuration for acquiring access tokens.
pub enum AuthConfig {
    /// Client credentials (app-only) flow configuration.
    ClientCredentials {
        client_id: String,
        client_secret: String,
        tenant_id: String,
        scope: String,
    },
    /// Authorization code flow configuration.
    AuthorizationCode {
        client_id: String,
        client_secret: String,
        tenant_id: String,
        scope: String,
        access_token: String,
        refresh_token: String,
        expires_at: Option<u64>,
    },
}

/// Whether `c` is white space in the sense of Unicode's `White_Space`.
pub open spec fn is_space(c: char) -> bool {
    let u = c as u32;
    (9 <= u <= 13) || u == 32 || u == 0x85 || u == 0xa0 || u == 0x1680 || (0x2000 <= u
        <= 0x200a) || u == 0x2028 || u == 0x2029 || u == 0x202f || u == 0x205f || u == 0x3000
}

/// `s` without leading white space.
pub open spec fn trim_start(s: Seq<char>) -> Seq<char>
    decreases s.len(),
{
    if s.len() > 0 && is_space(s[0]) {
        trim_start(s.drop_first())
    } else {
        s
    }
}

/// `s` without trailing white space.
pub open spec fn trim_end(s: Seq<char>) -> Seq<char>
    decreases s.len(),
{
    if s.len() > 0 && is_space(s.last()) {
        trim_end(s.drop_last())
    } else {
        s
    }
}

/// `s` without leading and trailing white space.
pub open spec fn trimmed(s: Seq<char>) -> Seq<char> {
    trim_end(trim_start(s))
}

fn is_space_char(c: char) -> (r: bool)
    ensures
        r == is_space(c),
{
    let u = c as u32;
    (9 <= u && u <= 13) || u == 32 || u == 0x85 || u == 0xa0 || u == 0x1680 || (0x2000 <= u && u
        <= 0x200a) || u == 0x2028 || u == 0x2029 || u == 0x202f || u == 0x205f || u == 0x3000
}

/// `s` without leading and trailing white space.
pub fn trim_whitespace(s: &str) -> (r: &str)
    ensures
        r@ == trimmed(s@),
{
    let cs = chars_of(s);
    let n = cs.len();
    let mut a: usize = 0;
    assert(cs@.subrange(0, n as int) =~= s@);
    while a < n && is_space_char(cs[a])
        invariant
            a <= n == cs@.len(),
            cs@ == s@,
            trim_start(s@) == trim_start(cs@.subrange(a as int, n as int)),
        decreases n - a,
    {
        assert(cs@.subrange(a as int, n as int).drop_first() =~= cs@.subrange(a + 1, n as int));
        a = a + 1;
    }
    let mut b: usize = n;
    assert(cs@.subrange(a as int, n as int) =~= cs@.subrange(a as int, b as int));
    while b > a && is_space_char(cs[b - 1])
        invariant
            a <= b <= n == cs@.len(),
            cs@ == s@,
            trimmed(s@) == trim_end(cs@.subrange(a as int, b as int)),
        decreases b,
    {
        assert(cs@.subrange(a as int, b as int).drop_last() =~= cs@.subrange(a as int, b - 1));
        b = b - 1;
    }
    s.substring_char(a, b)
}

/// Whether every character of `s` is an ASCII digit.
pub open spec fn all_digits(s: Seq<char>) -> bool {
    forall|i: int| 0 <= i < s.len() ==> '0' <= #[trigger] s[i] <= '9'
}

/// The value of the decimal digits `s`.
pub open spec fn digits_value(s: Seq<char>) -> nat
    decreases s.len(),
{
    if s.len() == 0 {
        0
    } else {
        digits_value(s.drop_last()) * 10 + ((s.last() as u32) - ('0' as u32)) as nat
    }
}

/// What `u64::from_str` accepts: an optional `+` and at least one decimal
/// digit, of a value that fits in 64 bits.
pub open spec fn parse_u64_spec(s: Seq<char>) -> Option<u64> {
    let d = if s.len() > 0 && s[0] == '+' {
        s.drop_first()
    } else {
        s
    };
    if d.len() > 0 && all_digits(d) && digits_value(d) <= u64::MAX {
        Some(digits_value(d) as u64)
    } else {
        None
    }
}

proof fn lemma_digits_grow(s: Seq<char>, i: int)
    requires
        0 <= i <= s.len(),
    ensures
        digits_value(s.take(i)) <= digits_value(s),
    decreases s.len() - i,
{
    if i < s.len() {
        lemma_digits_grow(s, i + 1);
        assert(s.take(i + 1).drop_last() =~= s.take(i));
    } else {
        assert(s.take(i) =~= s);
    }
}

/// Parses a decimal `u64` as `u64::from_str` does.
pub fn parse_u64(s: &str) -> (r: Option<u64>)
    ensures
        r == parse_u64_spec(s@),
{
    let cs = chars_of(s);
    let n = cs.len();
    let start: usize = if n > 0 && cs[0] == '+' { 1 } else { 0 };
    let ghost d = if s@.len() > 0 && s@[0] == '+' {
        s@.drop_first()
    } else {
        s@
    };
    assert(d =~= cs@.subrange(start as int, n as int));
    if start == n {
        return None;
    }
    let mut v: u64 = 0;
    let mut i: usize = start;
    while i < n
        invariant
            start <= i <= n == cs@.len(),
            start < n,
            d == cs@.subrange(start as int, n as int),
            cs@ == s@,
            d == (if s@.len() > 0 && s@[0] == '+' {
                s@.drop_first()
            } else {
                s@
            }),
            all_digits(cs@.subrange(start as int, i as int)),
            v as nat == digits_value(cs@.subrange(start as int, i as int)),
        decreases n - i,
    {
        let c = cs[i];
        let ghost pre = cs@.subrange(start as int, i + 1);
        assert(pre.drop_last() =~= cs@.subrange(start as int, i as int));
        assert(pre.take(i - start) =~= cs@.subrange(start as int, i as int));
        if !('0' <= c && c <= '9') {
            assert(!all_digits(d)) by {
                assert(d[i - start] == c);
            }
            return None;
        }
        let digit = (c as u32 - '0' as u32) as u64;
        assert(pre.last() == c);
        if v > (u64::MAX - digit) / 10 {
            proof {
                assert(v * 10 + digit > u64::MAX) by (nonlinear_arith)
                    requires
                        v > (u64::MAX - digit) / 10,
                        digit <= 9,
                ;
                lemma_digits_grow(d, i + 1 - start);
                assert(d.take(i + 1 - start) =~= pre);
            }
            return None;
        }
        assert(v * 10 + digit <= u64::MAX) by (nonlinear_arith)
            requires
                v <= (u64::MAX - digit) / 10,
                digit <= 9,
        ;
        v = v * 10 + digit;
        i = i + 1;
    }
    Some(v)
}

/// Parse an expiry timestamp from a string.
pub fn parse_expires_at(value: &str) -> (r: Option<u64>)
    ensures
        r == parse_u64_spec(trimmed(value@)),
{
    parse_u64(trim_whitespace(value))
}

/// Whether a token that expires at `expires_at` (none: unknown) is to be
/// renewed at time `now`: it is when it expires within the refresh margin.
pub open spec fn expiring_soon_at(expires_at: Option<u64>, now: u64) -> bool {
    match expires_at {
        None => true,
        Some(exp) => now + REFRESH_SKEW_SECS >= exp,
    }
}

/// Whether a token that expires at `expires_at` is to be renewed at `now`.
pub fn expiring_soon_at_time(expires_at: Option<u64>, now: u64) -> (r: bool)
    ensures
        r == expiring_soon_at(expires_at, now),
{
    match expires_at {
        None => true,
        Some(exp) => exp <= REFRESH_SKEW_SECS || now >= exp - REFRESH_SKEW_SECS,
    }
}

/// Relies on `SystemTime::elapsed` of the Unix epoch: the whole seconds
/// since then by the system clock, or 0 for a clock set before it.
#[verifier::external_body]
fn now_secs() -> (r: u64) {
    std::time::UNIX_EPOCH.elapsed().map(|d| d.as_secs()).unwrap_or(0)
}

/// Returns true if the token is missing an expiry or nearing it now.
pub fn is_expiring_soon(expires_at: Option<u64>) -> (r: bool)
    ensures
        expires_at is None ==> r,
        expires_at matches Some(exp) && exp <= REFRESH_SKEW_SECS ==> r,
{
    expiring_soon_at_time(expires_at, now_secs())
}

/// Whether an authorization-code connection has the client credentials that
/// a refresh needs: none of them is blank.
pub fn has_client_credentials(client_id: &str, client_secret: &str, tenant_id: &str, scope: &str)
    -> (r: bool)
    ensures
        r == (trimmed(client_id@).len() > 0 && trimmed(client_secret@).len() > 0 && trimmed(
            tenant_id@,
        ).len() > 0 && trimmed(scope@).len() > 0),
{
    trim_whitespace(client_id).unicode_len() > 0 && trim_whitespace(client_secret).unicode_len() > 0
        && trim_whitespace(tenant_id).unicode_len() > 0 && trim_whitespace(scope).unicode_len() > 0
}

impl CachedToken {
    /// Whether this token can be used at `now` without renewal: it is not
    /// blank and not expiring soon.
    pub fn is_usable_at(&self, now: u64) -> (r: bool)
        ensures
            r == (trimmed(self.access_token@).len() > 0 && !expiring_soon_at(
                self.expires_at,
                now,
            )),
    {
        trim_whitespace(self.access_token.as_str()).unicode_len() > 0 && !expiring_soon_at_time(
            self.expires_at,
            now,
        )
    }
}

/// The string member `k` of `j`.
pub open spec fn str_member(j: JsonValue, k: Seq<char>) -> Option<Seq<char>> {
    match json_get(j, k) {
        Some(JsonValue::String(s)) => Some(s@),
        _ => None,
    }
}

/// The member `k` of `j` when it is a non-negative integer.
pub open spec fn u64_member(j: JsonValue, k: Seq<char>) -> Option<u64> {
    match json_get(j, k) {
        Some(JsonValue::Number(JsonNumber::PosInt(u))) => Some(u),
        _ => None,
    }
}

/// `a + b`, or `u64::MAX` when the sum does not fit.
pub open spec fn saturating_sum(a: u64, b: u64) -> u64 {
    if a + b > u64::MAX {
        u64::MAX
    } else {
        (a + b) as u64
    }
}

fn string_member(json: &JsonValue, key: &str) -> (r: Option<String>)
    ensures
        match r {
            Some(s) => str_member(*json, key@) == Some(s@),
            None => str_member(*json, key@) is None,
        },
{
    match json.get(key) {
        Some(JsonValue::String(s)) => Some(s.clone()),
        _ => None,
    }
}

fn unsigned_member(json: &JsonValue, key: &str) -> (r: Option<u64>)
    ensures
        r == u64_member(*json, key@),
{
    match json.get(key) {
        Some(JsonValue::Number(JsonNumber::PosInt(u))) => Some(*u),
        _ => None,
    }
}

/// The token of a client-credentials response, received at `now`: its
/// access token and the time it expires.
pub open spec fn client_token_spec(j: JsonValue, now: u64) -> Result<(Seq<char>, u64), Seq<char>> {
    match str_member(j, "access_token"@) {
        None => Err("No access_token in response"@),
        Some(token) => match u64_member(j, "expires_in"@) {
            None => Err("No expires_in in response"@),
            Some(expires_in) => if trimmed(token).len() == 0 {
                Err("Access token was empty"@)
            } else {
                Ok((token, saturating_sum(now, expires_in)))
            },
        },
    }
}

/// Decodes a client-credentials token response received at `now`.
pub fn client_credentials_token_from_response(json: &JsonValue, now: u64) -> (r: Result<
    ClientCredentialsToken,
    String,
>)
    ensures
        match r {
            Ok(t) => client_token_spec(*json, now) == Ok::<(Seq<char>, u64), Seq<char>>(
                (t.access_token@, t.expires_at),
            ),
            Err(m) => client_token_spec(*json, now) == Err::<(Seq<char>, u64), Seq<char>>(m@),
        },
{
    let access_token = match string_member(json, "access_token") {
        None => return Err(String::from_str("No access_token in response")),
        Some(t) => t,
    };
    let expires_in = match unsigned_member(json, "expires_in") {
        None => return Err(String::from_str("No expires_in in response")),
        Some(e) => e,
    };
    if trim_whitespace(access_token.as_str()).unicode_len() == 0 {
        return Err(String::from_str("Access token was empty"));
    }
    Ok(ClientCredentialsToken { access_token, expires_at: now.saturating_add(expires_in) })
}

/// The tokens of an exchange response received at `now`; a response without
/// a refresh token keeps `previous_refresh` when one is given.
pub open spec fn exchange_spec(
    j: JsonValue,
    now: u64,
    previous_refresh: Option<Seq<char>>,
) -> Result<(Seq<char>, Seq<char>, u64), Seq<char>> {
    match str_member(j, "access_token"@) {
        None => Err("No access_token in response"@),
        Some(token) => {
            let refresh = match str_member(j, "refresh_token"@) {
                Some(r) => Some(r),
                None => previous_refresh,
            };
            match refresh {
                None => Err("No refresh_token in response"@),
                Some(refresh) => match u64_member(j, "expires_in"@) {
                    None => Err("No expires_in in response"@),
                    Some(expires_in) => Ok((token, refresh, saturating_sum(now, expires_in))),
                },
            }
        },
    }
}

/// Decodes an authorization-code or refresh-token response received at `now`.
pub fn token_exchange_from_response(
    json: &JsonValue,
    now: u64,
    previous_refresh: Option<&str>,
) -> (r: Result<TokenExchange, String>)
    ensures
        match r {
            Ok(t) => exchange_spec(
                *json,
                now,
                match previous_refresh {
                    Some(p) => Some(p@),
                    None => None,
                },
            ) == Ok::<(Seq<char>, Seq<char>, u64), Seq<char>>(
                (t.access_token@, t.refresh_token@, t.expires_at),
            ),
            Err(m) => exchange_spec(
                *json,
                now,
                match previous_refresh {
                    Some(p) => Some(p@),
                    None => None,
                },
            ) == Err::<(Seq<char>, Seq<char>, u64), Seq<char>>(m@),
        },
{
    let access_token = match string_member(json, "access_token") {
        None => return Err(String::from_str("No access_token in response")),
        Some(t) => t,
    };
    let refresh_token = match string_member(json, "refresh_token") {
        Some(r) => r,
        None => match previous_refresh {
            Some(p) => String::from_str(p),
            None => return Err(String::from_str("No refresh_token in response")),
        },
    };
    let expires_in = match unsigned_member(json, "expires_in") {
        None => return Err(String::from_str("No expires_in in response")),
        Some(e) => e,
    };
    Ok(TokenExchange { access_token, refresh_token, expires_at: now.saturating_add(expires_in) })
}

/// The pairs of a form, as their characters.
pub open spec fn form_view(v: Seq<(String, String)>) -> Seq<(Seq<char>, Seq<char>)> {
    v.map_values(|p: (String, String)| (p.0@, p.1@))
}

/// The token endpoint of a tenant.
pub open spec fn token_url_spec(tenant_id: Seq<char>) -> Seq<char> {
    "https://login.microsoftonline.com/"@ + tenant_id + "/oauth2/v2.0/token"@
}

/// The token endpoint of `tenant_id`.
pub fn token_url(tenant_id: &str) -> (r: String)
    ensures
        r@ == token_url_spec(tenant_id@),
{
    let mut url = String::from_str("https://login.microsoftonline.com/");
    url.append(tenant_id);
    url.append("/oauth2/v2.0/token");
    url
}

fn pair(k: &str, v: &str) -> (r: (String, String))
    ensures
        r.0@ == k@,
        r.1@ == v@,
{
    (String::from_str(k), String::from_str(v))
}

/// The form fields shared by every grant.
pub open spec fn client_fields(
    client_id: Seq<char>,
    client_secret: Seq<char>,
    scope: Seq<char>,
) -> Seq<(Seq<char>, Seq<char>)> {
    seq![("client_id"@, client_id), ("client_secret"@, client_secret), ("scope"@, scope)]
}

fn client_form(client_id: &str, client_secret: &str, scope: &str) -> (r: Vec<(String, String)>)
    ensures
        form_view(r@) == client_fields(client_id@, client_secret@, scope@),
{
    let mut form: Vec<(String, String)> = Vec::new();
    form.push(pair("client_id", client_id));
    form.push(pair("client_secret", client_secret));
    form.push(pair("scope", scope));
    assert(form_view(form@) =~= client_fields(client_id@, client_secret@, scope@));
    form
}

/// The form of a client-credentials token request.
pub fn client_credentials_form(client_id: &str, client_secret: &str, scope: &str) -> (r: Vec<
    (String, String),
>)
    ensures
        form_view(r@) == client_fields(client_id@, client_secret@, scope@).push(
            ("grant_type"@, "client_credentials"@),
        ),
{
    let mut form = client_form(client_id, client_secret, scope);
    form.push(pair("grant_type", "client_credentials"));
    assert(form_view(form@) =~= client_fields(client_id@, client_secret@, scope@).push(
        ("grant_type"@, "client_credentials"@),
    ));
    form
}

/// The form of an authorization-code token request; a blank code asks for
/// the password grant with `username` and `password` instead.
pub fn authorization_code_form(
    client_id: &str,
    client_secret: &str,
    scope: &str,
    authorization_code: &str,
    redirect_uri: &str,
    username: &str,
    password: &str,
) -> (r: Vec<(String, String)>)
    ensures
        form_view(r@) == client_fields(client_id@, client_secret@, scope@) + if trimmed(
            authorization_code@,
        ).len() == 0 {
            seq![("grant_type"@, "password"@), ("username"@, username@), ("password"@, password@)]
        } else {
            seq![
                ("grant_type"@, "authorization_code"@),
                ("code"@, authorization_code@),
                ("redirect_uri"@, redirect_uri@),
            ]
        },
{
    let mut form = client_form(client_id, client_secret, scope);
    let ghost head = form_view(form@);
    if trim_whitespace(authorization_code).unicode_len() == 0 {
        form.push(pair("grant_type", "password"));
        form.push(pair("username", username));
        form.push(pair("password", password));
        assert(form_view(form@) =~= head + seq![
            ("grant_type"@, "password"@),
            ("username"@, username@),
            ("password"@, password@),
        ]);
    } else {
        form.push(pair("grant_type", "authorization_code"));
        form.push(pair("code", authorization_code));
        form.push(pair("redirect_uri", redirect_uri));
        assert(form_view(form@) =~= head + seq![
            ("grant_type"@, "authorization_code"@),
            ("code"@, authorization_code@),
            ("redirect_uri"@, redirect_uri@),
        ]);
    }
    form
}

/// The form of a refresh-token request.
pub fn refresh_token_form(client_id: &str, client_secret: &str, scope: &str, refresh_token: &str)
    -> (r: Vec<(String, String)>)
    ensures
        form_view(r@) == client_fields(client_id@, client_secret@, scope@) + seq![
            ("grant_type"@, "refresh_token"@),
            ("refresh_token"@, refresh_token@),
        ],
{
    let mut form = client_form(client_id, client_secret, scope);
    let ghost head = form_view(form@);
    form.push(pair("grant_type", "refresh_token"));
    form.push(pair("refresh_token", refresh_token));
    assert(form_view(form@) =~= head + seq![
        ("grant_type"@, "refresh_token"@),
        ("refresh_token"@, refresh_token@),
    ]);
    form
}

} // verus!
