//! The service client: connection settings, request URLs and the answer to a
//! request's status. The requests themselves are sent by the caller.
use vstd::prelude::*;

use crate::error::{FetchError, FetchFault};
use crate::parse::{percent_encoded, url_encode};
use crate::text::chars_of;

verus! {

/// Logging verbosity for SDK operations.
#[derive(Debug, Clone, Copy, PartialEq, Eq)]
pub enum LogLevel {
    /// Emit verbose debug output.
    Debug,
    /// Emit standard informational output.
    Information,
}

impl Default for LogLevel {
    /// Defaults to `Information` logging.
    fn default() -> (r: Self)
        ensures
            r is Information,
    {
        LogLevel::Information
    }
}

/// `s` without its trailing `/` characters.
pub open spec fn trim_trailing_slashes(s: Seq<char>) -> Seq<char>
    decreases s.len(),
{
    if s.len() > 0 && s.last() == '/' {
        trim_trailing_slashes(s.drop_last())
    } else {
        s
    }
}

/// The versioned path of the Web API under the base URL.
pub open spec fn api_path() -> Seq<char> {
    "/api/data/v9.2/"@
}

/// The query-string key that carries the query text.
pub open spec fn fetch_param() -> Seq<char> {
    "?fetchXml="@
}

/// The preference that asks for the paging annotations.
pub open spec fn annotations_preference() -> Seq<char> {
    "odata.include-annotations=\"Microsoft.Dynamics.CRM.fetchxmlpagingcookie,Microsoft.Dynamics.CRM.morerecords\""@
}

/// Whether `status` is a success status (200 to 299).
pub open spec fn is_success(status: u16) -> bool {
    200 <= status <= 299
}

/// Settings of a connection to one service.
pub struct ServiceClient {
    base_url: String,
    token: String,
    log_level: LogLevel,
}

impl ServiceClient {
    /// The base URL, without trailing `/`.
    pub closed spec fn base_view(&self) -> Seq<char> {
        self.base_url@
    }

    /// The bearer token.
    pub closed spec fn token_view(&self) -> Seq<char> {
        self.token@
    }

    /// The log verbosity.
    pub closed spec fn level(&self) -> LogLevel {
        self.log_level
    }

    /// Create a new client for the given base URL and access token.
    pub fn new(base_url: &str, token: &str, log_level: LogLevel) -> (r: ServiceClient)
        ensures
            r.base_view() == trim_trailing_slashes(base_url@),
            r.token_view() == token@,
            r.level() == log_level,
    {
        let cs = chars_of(base_url);
        let mut k = cs.len();
        assert(cs@.subrange(0, k as int) =~= base_url@);
        while k > 0 && cs[k - 1] == '/'
            invariant
                k <= cs@.len(),
                cs@ == base_url@,
                trim_trailing_slashes(base_url@) == trim_trailing_slashes(
                    cs@.subrange(0, k as int),
                ),
            decreases k,
        {
            assert(cs@.subrange(0, k as int).drop_last() =~= cs@.subrange(0, k - 1));
            k = k - 1;
        }
        ServiceClient {
            base_url: String::from_str(base_url.substring_char(0, k)),
            token: String::from_str(token),
            log_level,
        }
    }

    /// The base URL, without trailing `/`.
    pub fn base_url(&self) -> (r: &str)
        ensures
            r@ == self.base_view(),
    {
        self.base_url.as_str()
    }

    /// The bearer token sent with each request.
    pub fn token(&self) -> (r: &str)
        ensures
            r@ == self.token_view(),
    {
        self.token.as_str()
    }

    /// The log verbosity.
    pub fn log_level(&self) -> (r: LogLevel)
        ensures
            r == self.level(),
    {
        self.log_level
    }

    /// Whether each request is to be logged with its page and URL.
    pub fn logs_requests(&self) -> (r: bool)
        ensures
            r == (self.level() is Debug),
    {
        match self.log_level {
            LogLevel::Debug => true,
            LogLevel::Information => false,
        }
    }

    /// The URL that runs `fetchxml` against the entity set `entity`.
    pub fn fetch_url(&self, entity: &str, fetchxml: &str) -> (r: String)
        ensures
            r@ == self.base_view() + api_path() + entity@ + fetch_param() + percent_encoded(
                fetchxml@,
            ),
    {
        let mut url = self.base_url.clone();
        url.append("/api/data/v9.2/");
        url.append(entity);
        url.append("?fetchXml=");
        let encoded = url_encode(fetchxml);
        url.append(encoded.as_str());
        url
    }

    /// The headers of a query request: JSON is accepted, the bearer token
    /// authorizes, and the paging-cookie and more-records annotations are
    /// asked for.
    pub fn fetch_headers(&self) -> (r: Vec<(String, String)>)
        ensures
            r@.len() == 3,
            r@[0].0@ == "Accept"@ && r@[0].1@ == "application/json"@,
            r@[1].0@ == "Authorization"@ && r@[1].1@ == "Bearer "@ + self.token_view(),
            r@[2].0@ == "Prefer"@ && r@[2].1@ == annotations_preference(),
    {
        let mut bearer = String::from_str("Bearer ");
        bearer.append(self.token.as_str());
        let mut headers: Vec<(String, String)> = Vec::new();
        headers.push((String::from_str("Accept"), String::from_str("application/json")));
        headers.push((String::from_str("Authorization"), bearer));
        headers.push(
            (
                String::from_str("Prefer"),
                String::from_str(
                    "odata.include-annotations=\"Microsoft.Dynamics.CRM.fetchxmlpagingcookie,Microsoft.Dynamics.CRM.morerecords\"",
                ),
            ),
        );
        headers
    }

    /// The URL that lists all entity definitions.
    pub fn entity_definitions_url(&self) -> (r: String)
        ensures
            r@ == self.base_view()
                + "/api/data/v9.2/EntityDefinitions?$select=LogicalName,SchemaName,DisplayName,EntitySetName,IsCustomEntity,PrimaryIdAttribute"@,
    {
        let mut url = self.base_url.clone();
        url.append(
            "/api/data/v9.2/EntityDefinitions?$select=LogicalName,SchemaName,DisplayName,EntitySetName,IsCustomEntity,PrimaryIdAttribute",
        );
        url
    }

    /// The URL of the definition of the entity `logical_name`.
    pub fn entity_definition_url(&self, logical_name: &str) -> (r: String)
        ensures
            r@ == self.base_view() + "/api/data/v9.2/EntityDefinitions(LogicalName='"@
                + quotes_doubled(logical_name@) + "')"@,
    {
        let mut url = self.base_url.clone();
        url.append("/api/data/v9.2/EntityDefinitions(LogicalName='");
        let logical = double_quotes(logical_name);
        url.append(logical.as_str());
        url.append("')");
        url
    }

    /// The URL that lists the readable attributes of the entity `logical_name`.
    pub fn entity_attributes_url(&self, logical_name: &str) -> (r: String)
        ensures
            r@ == self.base_view() + "/api/data/v9.2/EntityDefinitions(LogicalName='"@
                + quotes_doubled(logical_name@)
                + "')/Attributes?$select=LogicalName,SchemaName,AttributeType,IsCustomAttribute,IsValidODataAttribute,IsValidForRead,IsValidForUpdate&$filter=IsValidODataAttribute eq true and IsValidForRead eq true"@,
    {
        let mut url = self.base_url.clone();
        url.append("/api/data/v9.2/EntityDefinitions(LogicalName='");
        let logical = double_quotes(logical_name);
        url.append(logical.as_str());
        url.append(
            "')/Attributes?$select=LogicalName,SchemaName,AttributeType,IsCustomAttribute,IsValidODataAttribute,IsValidForRead,IsValidForUpdate&$filter=IsValidODataAttribute eq true and IsValidForRead eq true",
        );
        url
    }

    /// The URL of the record `id` (braces around it removed) in `entity_set`.
    pub fn record_url(&self, entity_set: &str, id: &str) -> (r: String)
        ensures
            r@ == self.base_view() + api_path() + entity_set@ + seq!['('] + bare_id(id@) + seq![
                ')',
            ],
    {
        let mut url = self.base_url.clone();
        url.append("/api/data/v9.2/");
        url.append(entity_set);
        proof {
            reveal_strlit("(");
            reveal_strlit(")");
        }
        url.append("(");
        url.append(trim_id(id));
        url.append(")");
        url
    }
}

/// `s` with each `'` doubled, as an OData string literal needs.
pub open spec fn quotes_doubled(s: Seq<char>) -> Seq<char>
    decreases s.len(),
{
    if s.len() == 0 {
        Seq::empty()
    } else {
        quotes_doubled(s.drop_last()) + if s.last() == '\'' {
            seq!['\'', '\'']
        } else {
            seq![s.last()]
        }
    }
}

/// Whether `c` is a brace.
pub open spec fn is_brace(c: char) -> bool {
    c == '{' || c == '}'
}

/// `s` without leading braces.
pub open spec fn trim_braces_start(s: Seq<char>) -> Seq<char>
    decreases s.len(),
{
    if s.len() > 0 && is_brace(s[0]) {
        trim_braces_start(s.drop_first())
    } else {
        s
    }
}

/// `s` without trailing braces.
pub open spec fn trim_braces_end(s: Seq<char>) -> Seq<char>
    decreases s.len(),
{
    if s.len() > 0 && is_brace(s.last()) {
        trim_braces_end(s.drop_last())
    } else {
        s
    }
}

/// A record id without the braces around it.
pub open spec fn bare_id(s: Seq<char>) -> Seq<char> {
    trim_braces_end(trim_braces_start(s))
}

/// Doubles each `'` of `s`.
pub fn double_quotes(s: &str) -> (r: String)
    ensures
        r@ == quotes_doubled(s@),
{
    let cs = chars_of(s);
    let n = cs.len();
    let mut out = String::new();
    let mut i: usize = 0;
    while i < n
        invariant
            i <= n == cs@.len(),
            cs@ == s@,
            out@ == quotes_doubled(s@.subrange(0, i as int)),
        decreases n - i,
    {
        proof {
            reveal_strlit("''");
        }
        if cs[i] == '\'' {
            out.append("''");
        } else {
            out.append(s.substring_char(i, i + 1));
        }
        assert(s@.subrange(0, i + 1).drop_last() =~= s@.subrange(0, i as int));
        i = i + 1;
    }
    assert(s@.subrange(0, n as int) =~= s@);
    out
}

/// `id` without the braces around it.
pub fn trim_id(id: &str) -> (r: &str)
    ensures
        r@ == bare_id(id@),
{
    let cs = chars_of(id);
    let n = cs.len();
    let mut a: usize = 0;
    assert(cs@.subrange(0, n as int) =~= id@);
    while a < n && (cs[a] == '{' || cs[a] == '}')
        invariant
            a <= n == cs@.len(),
            cs@ == id@,
            trim_braces_start(id@) == trim_braces_start(cs@.subrange(a as int, n as int)),
        decreases n - a,
    {
        assert(cs@.subrange(a as int, n as int).drop_first() =~= cs@.subrange(a + 1, n as int));
        a = a + 1;
    }
    let mut b: usize = n;
    assert(cs@.subrange(a as int, n as int) =~= cs@.subrange(a as int, b as int));
    while b > a && (cs[b - 1] == '{' || cs[b - 1] == '}')
        invariant
            a <= b <= n == cs@.len(),
            cs@ == id@,
            bare_id(id@) == trim_braces_end(cs@.subrange(a as int, b as int)),
        decreases b,
    {
        assert(cs@.subrange(a as int, b as int).drop_last() =~= cs@.subrange(a as int, b - 1));
        b = b - 1;
    }
    id.substring_char(a, b)
}

/// The outcome of a request that was answered with `status`: a non-success
/// status is a transport error that carries the status and the body verbatim.
pub fn check_status(status: u16, body: String) -> (r: Result<(), FetchError>)
    ensures
        is_success(status) <==> r is Ok,
        r matches Err(e) ==> e@ == FetchFault::Transport(Some(status), body@),
{
    if 200 <= status && status <= 299 {
        Ok(())
    } else {
        Err(FetchError::Transport { status: Some(status), body })
    }
}

} // verus!
