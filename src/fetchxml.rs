//! Editing of a FetchXML query's root tag.
//!
//! This is deliberately not an XML parser: it finds the first `<fetch` tag by
//! text search and edits only that tag's attribute list, so the rest of the
//! document keeps its exact formatting. It must not be used on arbitrary XML.
use vstd::prelude::*;

use crate::error::{text_result, QuerySyntaxError, SyntaxFault};
use crate::text::{chars_of, decimal, decimal_string, find_chars, find_from, lemma_find_from};

verus! {

/// The text that opens the root tag.
pub open spec fn root_open() -> Seq<char> {
    seq!['<', 'f', 'e', 't', 'c', 'h']
}

/// Where the root tag starts (at its `<`) and where it ends (at its first `>`).
pub open spec fn root_tag_span(q: Seq<char>) -> Result<(int, int), SyntaxFault> {
    match find_from(q, root_open(), 0) {
        None => Err(SyntaxFault::MissingRootTag),
        Some(st) => match find_from(q, seq!['>'], st) {
            None => Err(SyntaxFault::UnclosedRootTag),
            Some(e) => Ok((st, e)),
        },
    }
}

/// The text of the root tag, from `<fetch` up to and including its `>`.
pub open spec fn root_tag(q: Seq<char>, st: int, e: int) -> Seq<char> {
    q.subrange(st, e + 1)
}

/// The search key of an attribute: its name followed by `=`.
pub open spec fn attr_key(name: Seq<char>) -> Seq<char> {
    name.push('=')
}

/// Whether the root tag of `q` holds `name=`.
pub open spec fn has_attr_spec(q: Seq<char>, name: Seq<char>) -> Result<bool, SyntaxFault> {
    match root_tag_span(q) {
        Err(f) => Err(f),
        Ok((st, e)) => Ok(find_from(root_tag(q, st, e), attr_key(name), 0) is Some),
    }
}

/// `q` with the root tag's attribute `name` set to `value`: the value between
/// the existing quotes is replaced, or `name="value"` is inserted before the
/// tag's closing `>`.
pub open spec fn upsert_spec(q: Seq<char>, name: Seq<char>, value: Seq<char>) -> Result<
    Seq<char>,
    SyntaxFault,
> {
    match root_tag_span(q) {
        Err(f) => Err(f),
        Ok((st, e)) => {
            let tag = root_tag(q, st, e);
            match find_from(tag, attr_key(name), 0) {
                None => Ok(
                    q.subrange(0, e) + seq![' '] + name + seq!['=', '"'] + value + seq!['"']
                        + q.subrange(e, q.len() as int),
                ),
                Some(a) => {
                    let qi = a + name.len() + 1;
                    if qi >= tag.len() || !(tag[qi] == '"' || tag[qi] == '\'') {
                        Err(SyntaxFault::InvalidAttribute(name))
                    } else {
                        match find_from(tag, seq![tag[qi]], qi + 1) {
                            None => Err(SyntaxFault::InvalidAttribute(name)),
                            Some(ve) => Ok(
                                q.subrange(0, st + qi + 1) + value + q.subrange(
                                    st + ve,
                                    q.len() as int,
                                ),
                            ),
                        }
                    }
                },
            }
        },
    }
}

/// Finds the root tag: its start and the index of its closing `>`.
fn locate_root_tag(q: &Vec<char>) -> (r: Result<(usize, usize), QuerySyntaxError>)
    ensures
        match r {
            Ok((st, e)) => st <= e < q@.len() && e < usize::MAX && root_tag_span(q@) == Ok::<(int, int), SyntaxFault>(
                (st as int, e as int),
            ),
            Err(err) => root_tag_span(q@) == Err::<(int, int), SyntaxFault>(err@),
        },
{
    let len = q.len();
    let open = chars_of("<fetch");
    proof {
        reveal_strlit("<fetch");
        assert(open@ =~= root_open());
    }
    let st = match find_chars(q, &open, 0) {
        None => return Err(QuerySyntaxError::MissingRootTag),
        Some(st) => st,
    };
    let close = vec!['>'];
    assert(close@ =~= seq!['>']);
    match find_chars(q, &close, st) {
        None => Err(QuerySyntaxError::UnclosedRootTag),
        Some(e) => {
            proof {
                lemma_find_from(q@, seq!['>'], st as int);
            }
            assert(e < len);
            Ok((st, e))
        },
    }
}

/// The characters of `q` in `[from, to)`.
fn slice_chars(q: &Vec<char>, from: usize, to: usize) -> (r: Vec<char>)
    requires
        from <= to <= q@.len(),
    ensures
        r@ == q@.subrange(from as int, to as int),
{
    let mut r: Vec<char> = Vec::new();
    let mut i: usize = from;
    while i < to
        invariant
            from <= i <= to <= q@.len(),
            r@ == q@.subrange(from as int, i as int),
        decreases to - i,
    {
        r.push(q[i]);
        i = i + 1;
    }
    r
}

/// The search key `name=` as characters.
fn key_chars(name: &str) -> (r: Vec<char>)
    ensures
        r@ == attr_key(name@),
{
    let mut k = chars_of(name);
    k.push('=');
    k
}

/// Whether the root tag of `fetchxml` carries the attribute `name`.
pub fn fetch_tag_has_attr(fetchxml: &str, name: &str) -> (r: Result<bool, QuerySyntaxError>)
    ensures
        match r {
            Ok(b) => has_attr_spec(fetchxml@, name@) == Ok::<bool, SyntaxFault>(b),
            Err(e) => has_attr_spec(fetchxml@, name@) == Err::<bool, SyntaxFault>(e@),
        },
{
    let q = chars_of(fetchxml);
    let (st, e) = match locate_root_tag(&q) {
        Err(err) => return Err(err),
        Ok(span) => span,
    };
    let tag = slice_chars(&q, st, e + 1);
    let key = key_chars(name);
    Ok(find_chars(&tag, &key, 0).is_some())
}

/// Sets the root tag's attribute `name` to `value`, replacing the value in
/// place (keeping its quote character) or inserting `name="value"` before the
/// tag's closing `>`.
pub fn upsert_fetch_attr(fetchxml: &str, name: &str, value: &str) -> (r: Result<
    String,
    QuerySyntaxError,
>)
    ensures
        text_result(r) == upsert_spec(fetchxml@, name@, value@),
{
    let q = chars_of(fetchxml);
    let n = q.len();
    let (st, e) = match locate_root_tag(&q) {
        Err(err) => return Err(err),
        Ok(span) => span,
    };
    let tag = slice_chars(&q, st, e + 1);
    let key = key_chars(name);
    match find_chars(&tag, &key, 0) {
        None => {
            let mut out = String::from_str(fetchxml.substring_char(0, e));
            out.append(" ");
            out.append(name);
            out.append("=\"");
            out.append(value);
            out.append("\"");
            out.append(fetchxml.substring_char(e, n));
            proof {
                reveal_strlit(" ");
                reveal_strlit("=\"");
                reveal_strlit("\"");
            }
            assert(out@ =~= fetchxml@.subrange(0, e as int) + seq![' '] + name@ + seq!['=', '"']
                + value@ + seq!['"'] + fetchxml@.subrange(e as int, n as int));
            Ok(out)
        },
        Some(a) => {
            proof {
                lemma_find_from(tag@, key@, 0);
            }
            let qi = a + key.len();
            if qi >= tag.len() || !(tag[qi] == '"' || tag[qi] == '\'') {
                return Err(QuerySyntaxError::InvalidAttribute { name: String::from_str(name) });
            }
            let quote = vec![tag[qi]];
            assert(quote@ =~= seq![tag@[qi as int]]);
            match find_chars(&tag, &quote, qi + 1) {
                None => Err(QuerySyntaxError::InvalidAttribute { name: String::from_str(name) }),
                Some(ve) => {
                    proof {
                        lemma_find_from(tag@, quote@, qi + 1);
                    }
                    let mut out = String::from_str(fetchxml.substring_char(0, st + qi + 1));
                    out.append(value);
                    out.append(fetchxml.substring_char(st + ve, n));
                    Ok(out)
                },
            }
        },
    }
}

/// The XML attribute escape of one character.
pub open spec fn escape_char(c: char) -> Seq<char> {
    if c == '&' {
        seq!['&', 'a', 'm', 'p', ';']
    } else if c == '<' {
        seq!['&', 'l', 't', ';']
    } else if c == '>' {
        seq!['&', 'g', 't', ';']
    } else if c == '"' {
        seq!['&', 'q', 'u', 'o', 't', ';']
    } else if c == '\'' {
        seq!['&', 'a', 'p', 'o', 's', ';']
    } else {
        seq![c]
    }
}

/// `s` escaped for use inside a quoted XML attribute value.
pub open spec fn xml_escaped(s: Seq<char>) -> Seq<char>
    decreases s.len(),
{
    if s.len() == 0 {
        Seq::empty()
    } else {
        xml_escaped(s.drop_last()) + escape_char(s.last())
    }
}

/// Escapes `&`, `<`, `>`, `"` and `'` as entity references.
pub fn escape_xml_attribute(value: &str) -> (r: String)
    ensures
        r@ == xml_escaped(value@),
{
    let cs = chars_of(value);
    let n = cs.len();
    let mut out = String::new();
    let mut i: usize = 0;
    while i < n
        invariant
            n == value@.len(),
            cs@ == value@,
            i <= n,
            out@ == xml_escaped(value@.subrange(0, i as int)),
        decreases n - i,
    {
        let c = cs[i];
        proof {
            reveal_strlit("&amp;");
            reveal_strlit("&lt;");
            reveal_strlit("&gt;");
            reveal_strlit("&quot;");
            reveal_strlit("&apos;");
        }
        if c == '&' {
            out.append("&amp;");
        } else if c == '<' {
            out.append("&lt;");
        } else if c == '>' {
            out.append("&gt;");
        } else if c == '"' {
            out.append("&quot;");
        } else if c == '\'' {
            out.append("&apos;");
        } else {
            out.append(value.substring_char(i, i + 1));
        }
        assert(value@.subrange(0, i + 1).drop_last() =~= value@.subrange(0, i as int));
        i = i + 1;
    }
    assert(value@.subrange(0, n as int) =~= value@);
    out
}

/// The name of the page-number attribute.
pub open spec fn page_attr() -> Seq<char> {
    seq!['p', 'a', 'g', 'e']
}

/// The name of the paging-cursor attribute.
pub open spec fn cookie_attr() -> Seq<char> {
    seq!['p', 'a', 'g', 'i', 'n', 'g', '-', 'c', 'o', 'o', 'k', 'i', 'e']
}

/// The name of the page-size attribute.
pub open spec fn count_attr() -> Seq<char> {
    seq!['c', 'o', 'u', 'n', 't']
}

/// The name of the row-limit attribute.
pub open spec fn top_attr() -> Seq<char> {
    seq!['t', 'o', 'p']
}

/// The text that marks an aggregate query.
pub open spec fn aggregate_marker() -> Seq<char> {
    seq!['a', 'g', 'g', 'r', 'e', 'g', 'a', 't', 'e', '=', '"', 't', 'r', 'u', 'e', '"']
}

/// `q` with its page number set and, when a cursor is given, its escaped
/// cursor set.
pub open spec fn apply_paging_spec(q: Seq<char>, page: nat, cursor: Option<Seq<char>>) -> Result<
    Seq<char>,
    SyntaxFault,
> {
    match upsert_spec(q, page_attr(), decimal(page)) {
        Err(f) => Err(f),
        Ok(u) => match cursor {
            None => Ok(u),
            Some(c) => upsert_spec(u, cookie_attr(), xml_escaped(c)),
        },
    }
}

/// `q` with a page-size cap of `cap` when it is an aggregate query without
/// one, else `q` unchanged; a query without a closed root tag is an error.
pub open spec fn aggregate_cap_spec(q: Seq<char>, cap: nat) -> Result<Seq<char>, SyntaxFault> {
    match has_attr_spec(q, count_attr()) {
        Err(f) => Err(f),
        Ok(has_count) => if find_from(q, aggregate_marker(), 0) is None || has_count {
            Ok(q)
        } else {
            upsert_spec(q, count_attr(), decimal(cap))
        },
    }
}

/// Sets the page number and, when given, the escaped paging cursor.
pub fn apply_paging(fetchxml: &str, page: u32, paging_cookie: Option<&str>) -> (r: Result<
    String,
    QuerySyntaxError,
>)
    ensures
        text_result(r) == apply_paging_spec(
            fetchxml@,
            page as nat,
            match paging_cookie {
                Some(c) => Some(c@),
                None => None,
            },
        ),
{
    let digits = decimal_string(page as u64);
    proof {
        reveal_strlit("page");
        reveal_strlit("paging-cookie");
        assert("page"@ =~= page_attr());
        assert("paging-cookie"@ =~= cookie_attr());
    }
    let updated = match upsert_fetch_attr(fetchxml, "page", digits.as_str()) {
        Err(e) => return Err(e),
        Ok(u) => u,
    };
    match paging_cookie {
        None => Ok(updated),
        Some(cookie) => {
            let escaped = escape_xml_attribute(cookie);
            upsert_fetch_attr(updated.as_str(), "paging-cookie", escaped.as_str())
        },
    }
}

/// Caps an aggregate query's page size at `aggregate_page_size` unless the
/// query already sets a `count`.
pub fn ensure_aggregate_page_size(fetchxml: &str, aggregate_page_size: u32) -> (r: Result<
    String,
    QuerySyntaxError,
>)
    ensures
        text_result(r) == aggregate_cap_spec(fetchxml@, aggregate_page_size as nat),
{
    proof {
        reveal_strlit("aggregate=\"true\"");
        reveal_strlit("count");
        assert("count"@ =~= count_attr());
    }
    let has_count = match fetch_tag_has_attr(fetchxml, "count") {
        Err(e) => return Err(e),
        Ok(b) => b,
    };
    let q = chars_of(fetchxml);
    let marker = chars_of("aggregate=\"true\"");
    assert(marker@ =~= aggregate_marker());
    if find_chars(&q, &marker, 0).is_none() || has_count {
        return Ok(String::from_str(fetchxml));
    }
    let digits = decimal_string(aggregate_page_size as u64);
    upsert_fetch_attr(fetchxml, "count", digits.as_str())
}

} // verus!
