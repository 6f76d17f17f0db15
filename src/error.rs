//! Errors of a retrieval.
use vstd::prelude::*;

verus! {

/// What is wrong with a query's root tag.
#[derive(Debug, PartialEq)]
pub enum QuerySyntaxError {
    /// No `<fetch` root tag was found.
    MissingRootTag,
    /// The root tag has no closing `>`.
    UnclosedRootTag,
    /// The named attribute exists on the root tag but its value is not quoted.
    InvalidAttribute { name: String },
}

/// The text of a syntax error: what was wrong with the query's root tag.
pub open spec fn syntax_message(f: SyntaxFault) -> Seq<char> {
    match f {
        SyntaxFault::MissingRootTag => "FetchXML must start with a <fetch> element"@,
        SyntaxFault::UnclosedRootTag => "FetchXML <fetch> element is not closed"@,
        SyntaxFault::InvalidAttribute(name) => "Invalid fetch attribute '"@ + name + "'"@,
    }
}

impl QuerySyntaxError {
    /// The text of this error.
    pub fn message(&self) -> (r: String)
        ensures
            r@ == syntax_message(self@),
    {
        match self {
            QuerySyntaxError::MissingRootTag => String::from_str(
                "FetchXML must start with a <fetch> element",
            ),
            QuerySyntaxError::UnclosedRootTag => String::from_str(
                "FetchXML <fetch> element is not closed",
            ),
            QuerySyntaxError::InvalidAttribute { name } => {
                let mut m = String::from_str("Invalid fetch attribute '");
                m.append(name.as_str());
                m.append("'");
                m
            },
        }
    }
}

/// The mathematical value of a `QuerySyntaxError`.
pub enum SyntaxFault {
    MissingRootTag,
    UnclosedRootTag,
    InvalidAttribute(Seq<char>),
}

impl View for QuerySyntaxError {
    type V = SyntaxFault;

    open spec fn view(&self) -> SyntaxFault {
        match self {
            QuerySyntaxError::MissingRootTag => SyntaxFault::MissingRootTag,
            QuerySyntaxError::UnclosedRootTag => SyntaxFault::UnclosedRootTag,
            QuerySyntaxError::InvalidAttribute { name } => SyntaxFault::InvalidAttribute(name@),
        }
    }
}

/// Why a retrieval failed. Every error aborts the whole retrieval.
#[derive(Debug, PartialEq)]
pub enum FetchError {
    /// The query's root tag is malformed; no request was issued for it.
    QuerySyntax(QuerySyntaxError),
    /// The request failed, or the service answered with a non-success status
    /// (`status` is then that status, `body` the response body verbatim).
    Transport { status: Option<u16>, body: String },
    /// A page's payload does not have the expected shape.
    MalformedResponse,
    /// The service announced more records but gave no usable paging cursor.
    ProtocolInconsistency,
    /// The page number or the row count would leave its integer range.
    CounterOverflow,
}

/// The mathematical value of a `FetchError`.
pub enum FetchFault {
    QuerySyntax(SyntaxFault),
    Transport(Option<u16>, Seq<char>),
    MalformedResponse,
    ProtocolInconsistency,
    CounterOverflow,
}

impl View for FetchError {
    type V = FetchFault;

    open spec fn view(&self) -> FetchFault {
        match self {
            FetchError::QuerySyntax(e) => FetchFault::QuerySyntax(e@),
            FetchError::Transport { status, body } => FetchFault::Transport(*status, body@),
            FetchError::MalformedResponse => FetchFault::MalformedResponse,
            FetchError::ProtocolInconsistency => FetchFault::ProtocolInconsistency,
            FetchError::CounterOverflow => FetchFault::CounterOverflow,
        }
    }
}

/// The view of a text-or-syntax-error result.
pub open spec fn text_result(r: Result<String, QuerySyntaxError>) -> Result<Seq<char>, SyntaxFault> {
    match r {
        Ok(t) => Ok(t@),
        Err(e) => Err(e@),
    }
}

} // verus!
