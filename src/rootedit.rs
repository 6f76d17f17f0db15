//! Properties of repeated edits of a query's root tag.
use vstd::prelude::*;

use crate::fetchxml::{
    aggregate_cap_spec, aggregate_marker, apply_paging_spec, attr_key, cookie_attr, count_attr,
    escape_char, has_attr_spec, page_attr, root_open, root_tag, root_tag_span, upsert_spec,
    xml_escaped,
};
use crate::json::{json_get, JsonValue};
use crate::parse::{cookie_open, cursor_spec, decoded_twice, lemma_cursor_from_fragment, paging_cookie_key};
use crate::text::{
    decimal, find_from, lemma_decimal_digits, lemma_find_first, lemma_find_from, lemma_find_some,
    lemma_match_char, lemma_match_window, lemma_no_match_at, matches_at,
};

verus! {

/// `s` holds no `c`.
pub open spec fn lacks(s: Seq<char>, c: char) -> bool {
    forall|k: int| 0 <= k < s.len() ==> s[k] != c
}

/// `q` with `j` inserted at index `e`.
pub open spec fn insert_at(q: Seq<char>, e: int, j: Seq<char>) -> Seq<char> {
    q.subrange(0, e) + j + q.subrange(e, q.len() as int)
}

/// Inserting text without `>` just before the root tag's `>` keeps where the
/// tag starts and moves its end past the inserted text.
pub proof fn lemma_insert_span(q: Seq<char>, st: int, e: int, j: Seq<char>)
    requires
        root_tag_span(q) == Ok::<(int, int), crate::error::SyntaxFault>((st, e)),
        lacks(j, '>'),
    ensures
        0 <= st,
        st + 6 <= e < q.len(),
        q[e] == '>',
        root_tag_span(insert_at(q, e, j)) == Ok::<(int, int), crate::error::SyntaxFault>(
            (st, e + j.len()),
        ),
        root_tag(insert_at(q, e, j), st, e + j.len()) =~= q.subrange(st, e) + j + seq!['>'],
{
    let r = insert_at(q, e, j);
    let open = root_open();
    lemma_find_from(q, open, 0);
    lemma_find_from(q, seq!['>'], st);
    lemma_match_char(q, '>', e);
    assert(q.subrange(st, st + 6) == open);
    if e < st + 6 {
        assert(q.subrange(st, st + 6)[e - st] == q[e]);
    }
    assert forall|i: int| 0 <= i < e implies r[i] == q[i] by {}
    assert forall|i: int| 0 <= i < j.len() implies r[e + i] == j[i] by {}
    assert forall|i: int| e <= i < q.len() implies r[i + j.len()] == q[i] by {}
    assert(q.subrange(st, st + 6) =~= r.subrange(st, st + 6));
    lemma_match_window(q, r, open, st, st);
    assert forall|i: int| 0 <= i < st implies !matches_at(r, open, i) by {
        assert(q.subrange(i, i + 6) =~= r.subrange(i, i + 6));
        lemma_match_window(q, r, open, i, i);
    }
    lemma_find_first(r, open, 0, st);
    lemma_match_char(r, '>', e + j.len());
    assert forall|i: int| st <= i < e + j.len() implies !matches_at(r, seq!['>'], i) by {
        lemma_match_char(r, '>', i);
        lemma_match_char(q, '>', i);
    }
    lemma_find_first(r, seq!['>'], st, e + j.len());
}

/// The index of the root tag's `>`.
pub open spec fn tag_end(q: Seq<char>) -> int {
    match root_tag_span(q) {
        Ok((_, e)) => e,
        Err(_) => 0,
    }
}

/// The text inserted for a new attribute: ` name="value"`.
pub open spec fn attr_text(name: Seq<char>, value: Seq<char>) -> Seq<char> {
    seq![' '] + name + seq!['=', '"'] + value + seq!['"']
}

/// Where no `name=` occurs in the old tag, the first `name=` of the new tag
/// is the one of the inserted text.
proof fn lemma_key_after_insert(x: Seq<char>, name: Seq<char>, value: Seq<char>)
    requires
        find_from(x + seq!['>'], attr_key(name), 0) is None,
        lacks(name, ' '),
    ensures
        find_from(x + attr_text(name, value) + seq!['>'], attr_key(name), 0) == Some(
            (x.len() + 1) as int,
        ),
{
    let key = attr_key(name);
    let old = x + seq!['>'];
    let t = x + attr_text(name, value) + seq!['>'];
    lemma_find_from(old, key, 0);
    assert forall|i: int| 0 <= i < x.len() + 1 implies !matches_at(t, key, i) by {
        if i + key.len() <= x.len() {
            assert(old.subrange(i, i + key.len()) =~= t.subrange(i, i + key.len()));
            lemma_match_window(old, t, key, i, i);
        } else if i + key.len() <= t.len() {
            let k = x.len() - i;
            assert(t[i + k] == ' ');
            if k < name.len() {
                assert(key[k] == name[k]);
            } else {
                assert(key[k] == '=');
            }
            lemma_no_match_at(t, key, i, k);
        }
    }
    let at: int = (x.len() + 1) as int;
    assert(t.subrange(at, at + key.len()) =~= key);
    lemma_find_first(t, key, 0, at);
}

/// Setting an attribute that the root tag lacked, then setting it again to
/// the same value, changes nothing the second time.
pub proof fn lemma_insert_then_same(q: Seq<char>, name: Seq<char>, value: Seq<char>)
    requires
        root_tag_span(q) matches Ok((st, e)) && find_from(root_tag(q, st, e), attr_key(name), 0)
            is None,
        lacks(name, ' '),
        lacks(name, '>'),
        lacks(value, '>'),
        lacks(value, '"'),
    ensures
        upsert_spec(q, name, value) matches Ok(r) && upsert_spec(r, name, value) == Ok::<
            Seq<char>,
            crate::error::SyntaxFault,
        >(r),
        upsert_spec(q, name, value) == Ok::<Seq<char>, crate::error::SyntaxFault>(
            insert_at(q, tag_end(q), attr_text(name, value)),
        ),
        has_attr_spec(insert_at(q, tag_end(q), attr_text(name, value)), name) == Ok::<
            bool,
            crate::error::SyntaxFault,
        >(true),
{
    let (st, e) = match root_tag_span(q) {
        Ok(span) => span,
        Err(_) => (0, 0),
    };
    let j = attr_text(name, value);
    assert(lacks(j, '>')) by {
        assert forall|k: int| 0 <= k < j.len() implies j[k] != '>' by {
            if 1 <= k < 1 + name.len() {
                assert(j[k] == name[k - 1]);
            } else if 3 + name.len() <= k < 3 + name.len() + value.len() {
                assert(j[k] == value[k - 3 - name.len()]);
            }
        }
    }
    let r = insert_at(q, e, j);
    assert(insert_at(q, e, j) =~= q.subrange(0, e) + seq![' '] + name + seq!['=', '"'] + value
        + seq!['"'] + q.subrange(e, q.len() as int));
    lemma_insert_span(q, st, e, j);
    let x = q.subrange(st, e);
    assert(root_tag(q, st, e) =~= x + seq!['>']);
    lemma_key_after_insert(x, name, value);
    let tag = root_tag(r, st, e + j.len());
    let qi: int = (x.len() + 1 + name.len() + 1) as int;
    assert(tag[qi] == '"');
    let ve: int = qi + 1 + value.len();
    assert(tag[ve] == '"');
    lemma_match_char(tag, '"', ve);
    assert forall|i: int| qi + 1 <= i < ve implies !matches_at(tag, seq!['"'], i) by {
        lemma_match_char(tag, '"', i);
        assert(tag[i] == value[i - qi - 1]);
    }
    lemma_find_first(tag, seq![tag[qi]], qi + 1, ve);
    assert(r.subrange(0, st + qi + 1) + value + r.subrange(st + ve, r.len() as int) =~= r);
    assert(tag == x + j + seq!['>']);
}

/// `q` with its characters in `[p, sfx)` replaced by `v`.
pub open spec fn splice(q: Seq<char>, p: int, sfx: int, v: Seq<char>) -> Seq<char> {
    q.subrange(0, p) + v + q.subrange(sfx, q.len() as int)
}

/// Replacing text inside the root tag, after `<fetch`, by text without `>`
/// keeps where the tag starts and moves its end by the change of length.
#[verifier::rlimit(30)]
pub proof fn lemma_splice_span(q: Seq<char>, st: int, e: int, p: int, sfx: int, v: Seq<char>)
    requires
        root_tag_span(q) == Ok::<(int, int), crate::error::SyntaxFault>((st, e)),
        st + 6 <= p <= sfx <= e,
        lacks(v, '>'),
    ensures
        root_tag_span(splice(q, p, sfx, v)) == Ok::<(int, int), crate::error::SyntaxFault>(
            (st, e + v.len() - (sfx - p)),
        ),
        root_tag(splice(q, p, sfx, v), st, e + v.len() - (sfx - p)) =~= q.subrange(st, p) + v
            + q.subrange(sfx, e + 1),
{
    let r = splice(q, p, sfx, v);
    let open = root_open();
    let shift = p + v.len() - sfx;
    lemma_find_from(q, open, 0);
    lemma_find_from(q, seq!['>'], st);
    assert forall|i: int| 0 <= i < p implies r[i] == q[i] by {}
    assert forall|k: int| 0 <= k < v.len() implies r[p + k] == v[k] by {}
    assert forall|i: int| sfx <= i < q.len() implies r[i + shift] == q[i] by {}
    assert(q.subrange(st, st + 6) =~= r.subrange(st, st + 6));
    lemma_match_window(q, r, open, st, st);
    assert forall|i: int| 0 <= i < st implies !matches_at(r, open, i) by {
        assert(q.subrange(i, i + 6) =~= r.subrange(i, i + 6));
        lemma_match_window(q, r, open, i, i);
    }
    lemma_find_first(r, open, 0, st);
    lemma_match_char(q, '>', e);
    lemma_match_char(r, '>', e + shift);
    assert forall|i: int| st <= i < e + shift implies !matches_at(r, seq!['>'], i) by {
        lemma_match_char(r, '>', i);
        if i < p {
            lemma_match_char(q, '>', i);
        } else if i < p + v.len() {
        } else {
            lemma_match_char(q, '>', i - shift);
        }
    }
    lemma_find_first(r, seq!['>'], st, e + shift);
}

/// Replacing an attribute's value with one that holds no `>` and no quote,
/// then replacing it again with the same value, changes nothing the second
/// time.
#[verifier::rlimit(30)]
pub proof fn lemma_replace_then_same(q: Seq<char>, name: Seq<char>, value: Seq<char>)
    requires
        root_tag_span(q) matches Ok((st, e)) && find_from(root_tag(q, st, e), attr_key(name), 0)
            is Some,
        upsert_spec(q, name, value) is Ok,
        lacks(value, '>'),
        lacks(value, '"'),
        lacks(value, '\''),
    ensures
        upsert_spec(q, name, value) matches Ok(r) && upsert_spec(r, name, value) == Ok::<
            Seq<char>,
            crate::error::SyntaxFault,
        >(r),
{
    let (st, e) = match root_tag_span(q) {
        Ok(span) => span,
        Err(_) => (0, 0),
    };
    lemma_insert_span(q, st, e, Seq::empty());
    let tag = root_tag(q, st, e);
    let key = attr_key(name);
    lemma_find_from(tag, key, 0);
    let a = find_from(tag, key, 0)->0;
    let qi = a + name.len() + 1;
    let quote = tag[qi];
    lemma_find_from(tag, seq![quote], qi + 1);
    let ve = find_from(tag, seq![quote], qi + 1)->0;
    lemma_match_char(tag, quote, ve);
    let open = root_open();
    assert(q.subrange(st, st + 6) == open) by {
        lemma_find_from(q, open, 0);
    }
    assert(key[name.len() as int] == '=');
    assert(tag.subrange(a, a + key.len())[name.len() as int] == tag[a + name.len()]);
    if a + name.len() < 6 {
        assert(tag[a + name.len()] == q.subrange(st, st + 6)[a + name.len()]);
    }
    assert(tag[e - st] == '>');
    let p = st + qi + 1;
    let l = value.len() as int;
    let r = splice(q, p, st + ve, value);
    assert(upsert_spec(q, name, value) == Ok::<Seq<char>, crate::error::SyntaxFault>(r));
    lemma_splice_span(q, st, e, p, st + ve, value);
    let tag2 = root_tag(r, st, e + l - (ve - qi - 1));
    assert(tag2 == tag.subrange(0, qi + 1) + value + tag.subrange(ve, tag.len() as int));
    assert forall|i: int| 0 <= i <= qi implies tag2[i] == tag[i] by {}
    // the attribute is found where it was
    assert(tag.subrange(a, a + key.len()) =~= tag2.subrange(a, a + key.len()));
    lemma_match_window(tag, tag2, key, a, a);
    assert forall|i: int| 0 <= i < a implies !matches_at(tag2, key, i) by {
        assert(tag.subrange(i, i + key.len()) =~= tag2.subrange(i, i + key.len()));
        lemma_match_window(tag, tag2, key, i, i);
    }
    lemma_find_first(tag2, key, 0, a);
    // and its value ends at the same closing quote
    let ve2 = qi + 1 + l;
    assert(tag2[ve2] == quote);
    lemma_match_char(tag2, quote, ve2);
    assert forall|i: int| qi + 1 <= i < ve2 implies !matches_at(tag2, seq![quote], i) by {
        lemma_match_char(tag2, quote, i);
        assert(tag2[i] == value[i - qi - 1]);
    }
    lemma_find_first(tag2, seq![tag2[qi]], qi + 1, ve2);
    assert(splice(r, p, st + ve2, value) =~= r);
}

/// Setting a root-tag attribute twice to the same value gives what setting
/// it once gives, for a name without space or `>` and a value without `>`
/// or quotes.
pub proof fn lemma_upsert_twice(q: Seq<char>, name: Seq<char>, value: Seq<char>)
    requires
        upsert_spec(q, name, value) is Ok,
        lacks(name, ' '),
        lacks(name, '>'),
        lacks(value, '>'),
        lacks(value, '"'),
        lacks(value, '\''),
    ensures
        upsert_spec(q, name, value) matches Ok(r) && upsert_spec(r, name, value) == Ok::<
            Seq<char>,
            crate::error::SyntaxFault,
        >(r),
{
    let (st, e) = match root_tag_span(q) {
        Ok(span) => span,
        Err(_) => (0, 0),
    };
    if find_from(root_tag(q, st, e), attr_key(name), 0) is Some {
        lemma_replace_then_same(q, name, value);
    } else {
        lemma_insert_then_same(q, name, value);
    }
}

/// Applying the same page number, without a cursor, a second time gives what
/// applying it once gives: the page attribute is set, not added again.
pub proof fn lemma_apply_paging_twice(q: Seq<char>, page: nat)
    requires
        apply_paging_spec(q, page, None) is Ok,
    ensures
        apply_paging_spec(q, page, None) matches Ok(r) && apply_paging_spec(r, page, None) == Ok::<
            Seq<char>,
            crate::error::SyntaxFault,
        >(r),
{
    lemma_decimal_digits(page);
    let d = decimal(page);
    assert(lacks(d, '>') && lacks(d, '"') && lacks(d, '\''));
    assert(lacks(page_attr(), ' ') && lacks(page_attr(), '>'));
    lemma_upsert_twice(q, page_attr(), d);
}

/// Escaped text holds no `>` and no quote.
pub proof fn lemma_escaped_plain(c: Seq<char>)
    ensures
        lacks(xml_escaped(c), '>'),
        lacks(xml_escaped(c), '"'),
        lacks(xml_escaped(c), '\''),
    decreases c.len(),
{
    if c.len() > 0 {
        lemma_escaped_plain(c.drop_last());
        let a = xml_escaped(c.drop_last());
        let b = escape_char(c.last());
        assert forall|k: int| 0 <= k < xml_escaped(c).len() implies xml_escaped(c)[k] != '>'
            && xml_escaped(c)[k] != '"' && xml_escaped(c)[k] != '\'' by {
            if k < a.len() {
                assert(xml_escaped(c)[k] == a[k]);
            } else {
                assert(xml_escaped(c)[k] == b[k - a.len()]);
            }
        }
    }
}

/// Where the old tag holds no `key`, the first `key` after a space that
/// follows the old tag's text is the first of the new tag.
proof fn lemma_key_after_space(x: Seq<char>, key: Seq<char>, tail: Seq<char>)
    requires
        find_from(x + seq!['>'], key, 0) is None,
        lacks(key, ' '),
    ensures
        find_from(x + seq![' '] + key + tail, key, 0) == Some((x.len() + 1) as int),
{
    let old = x + seq!['>'];
    let t = x + seq![' '] + key + tail;
    lemma_find_from(old, key, 0);
    assert forall|i: int| 0 <= i < x.len() + 1 implies !matches_at(t, key, i) by {
        if i + key.len() <= x.len() {
            assert(old.subrange(i, i + key.len()) =~= t.subrange(i, i + key.len()));
            lemma_match_window(old, t, key, i, i);
        } else if i + key.len() <= t.len() {
            let k = x.len() - i;
            assert(t[i + k] == ' ');
            lemma_no_match_at(t, key, i, k);
        }
    }
    let at: int = (x.len() + 1) as int;
    assert(t.subrange(at, at + key.len()) =~= key);
    lemma_find_first(t, key, 0, at);
}

/// An attribute whose first occurrence in the root tag already holds `value`
/// in double quotes is left as it is by setting it to `value`.
proof fn lemma_set_to_current(q: Seq<char>, name: Seq<char>, value: Seq<char>, a: int)
    requires
        root_tag_span(q) matches Ok((st, e)) && {
            let tag = root_tag(q, st, e);
            let qi = a + name.len() + 1;
            &&& find_from(tag, attr_key(name), 0) == Some(a)
            &&& qi + 1 + value.len() < tag.len()
            &&& tag[qi] == '"'
            &&& tag.subrange(qi + 1, qi + 1 + value.len()) == value
            &&& tag[qi + 1 + value.len()] == '"'
        },
        lacks(value, '"'),
    ensures
        upsert_spec(q, name, value) == Ok::<Seq<char>, crate::error::SyntaxFault>(q),
{
    let (st, e) = match root_tag_span(q) {
        Ok(span) => span,
        Err(_) => (0, 0),
    };
    let tag = root_tag(q, st, e);
    lemma_find_from(tag, attr_key(name), 0);
    let qi = a + name.len() + 1;
    let ve = qi + 1 + value.len();
    lemma_match_char(tag, '"', ve);
    assert forall|i: int| qi + 1 <= i < ve implies !matches_at(tag, seq!['"'], i) by {
        lemma_match_char(tag, '"', i);
        assert(tag[i] == tag.subrange(qi + 1, ve)[i - qi - 1]);
    }
    lemma_find_first(tag, seq![tag[qi]], qi + 1, ve);
    lemma_find_from(q, seq!['>'], st);
    assert(q.subrange(0, st + qi + 1) + value + q.subrange(st + ve, q.len() as int) =~= q);
}

/// For a query whose root tag sets neither a page number nor a paging
/// cursor, applying the same page number and cursor a second time gives what
/// applying them once gives: each attribute is set once, not added again.
#[verifier::rlimit(60)]
pub proof fn lemma_apply_paging_cursor_twice(q: Seq<char>, page: nat, c: Seq<char>)
    requires
        has_attr_spec(q, page_attr()) == Ok::<bool, crate::error::SyntaxFault>(false),
        has_attr_spec(q, cookie_attr()) == Ok::<bool, crate::error::SyntaxFault>(false),
    ensures
        apply_paging_spec(q, page, Some(c)) matches Ok(r) && apply_paging_spec(
            r,
            page,
            Some(c),
        ) == Ok::<Seq<char>, crate::error::SyntaxFault>(r),
        apply_paging_spec(q, page, Some(c)) == Ok::<Seq<char>, crate::error::SyntaxFault>(
            insert_at(
                q,
                tag_end(q),
                attr_text(page_attr(), decimal(page)) + attr_text(cookie_attr(), xml_escaped(c)),
            ),
        ),
{
    let (st, e) = match root_tag_span(q) {
        Ok(span) => span,
        Err(_) => (0, 0),
    };
    lemma_insert_span(q, st, e, Seq::empty());
    let x = q.subrange(st, e);
    assert(root_tag(q, st, e) =~= x + seq!['>']);
    let d = decimal(page);
    let esc = xml_escaped(c);
    lemma_decimal_digits(page);
    lemma_escaped_plain(c);
    let pn = page_attr();
    let cn = cookie_attr();
    assert(lacks(pn, ' ') && lacks(pn, '>') && lacks(cn, ' ') && lacks(cn, '>'));
    assert(lacks(d, '>') && lacks(d, '"'));
    // the page attribute is inserted first
    lemma_insert_then_same(q, pn, d);
    let j1 = attr_text(pn, d);
    assert(lacks(j1, '>')) by {
        assert forall|k: int| 0 <= k < j1.len() implies j1[k] != '>' by {
            if 1 <= k < 1 + pn.len() {
                assert(j1[k] == pn[k - 1]);
            } else if 3 + pn.len() <= k < 3 + pn.len() + d.len() {
                assert(j1[k] == d[k - 3 - pn.len()]);
            }
        }
    }
    lemma_insert_span(q, st, e, j1);
    let r1 = insert_at(q, e, j1);
    let e1 = e + j1.len();
    let t1 = root_tag(r1, st, e1);
    assert(t1 == x + j1 + seq!['>']);
    // it brings no paging-cookie attribute with it
    let ck = attr_key(cn);
    lemma_find_from(x + seq!['>'], ck, 0);
    assert forall|i: int| 0 <= i implies !matches_at(t1, ck, i) by {
        if i + ck.len() <= t1.len() {
            if i + ck.len() <= x.len() {
                assert((x + seq!['>']).subrange(i, i + ck.len()) =~= t1.subrange(i, i + ck.len()));
                lemma_match_window(x + seq!['>'], t1, ck, i, i);
            } else if i <= x.len() {
                assert(t1[i + (x.len() - i)] == ' ');
                lemma_no_match_at(t1, ck, i, x.len() - i);
            } else if i == x.len() + 1 {
                assert(t1[i + 3] == 'e');
                lemma_no_match_at(t1, ck, i, 3);
            } else {
                let k = i - x.len();
                if k < j1.len() {
                    assert(t1[i] == j1[k]);
                    if k < 5 {
                        assert(j1[k] == pn[k - 1]);
                    } else if 7 <= k < 7 + d.len() {
                        assert(j1[k] == d[k - 7]);
                    }
                }
                assert(t1[i] != 'p');
                lemma_no_match_at(t1, ck, i, 0);
            }
        }
    }
    lemma_find_from(t1, ck, 0);
    // so the cookie attribute is inserted after it
    lemma_insert_then_same(r1, cn, esc);
    let j2 = attr_text(cn, esc);
    assert(lacks(j2, '>')) by {
        assert forall|k: int| 0 <= k < j2.len() implies j2[k] != '>' by {
            if 1 <= k < 1 + cn.len() {
                assert(j2[k] == cn[k - 1]);
            } else if 3 + cn.len() <= k < 3 + cn.len() + esc.len() {
                assert(j2[k] == esc[k - 3 - cn.len()]);
            }
        }
    }
    lemma_insert_span(r1, st, e1, j2);
    let r2 = insert_at(r1, e1, j2);
    assert(r1.subrange(st, e1) =~= x + j1);
    let t2 = root_tag(r2, st, e1 + j2.len());
    let pk = attr_key(pn);
    let tail = seq!['"'] + d + seq!['"'] + j2 + seq!['>'];
    assert(t2 =~= x + seq![' '] + pk + tail);
    lemma_key_after_space(x, pk, tail);
    let a = (x.len() + 1) as int;
    let qi = a + pn.len() + 1;
    assert(t2.subrange(qi + 1, qi + 1 + d.len()) =~= d);
    lemma_set_to_current(r2, pn, d, a);
    assert(r2 =~= insert_at(q, e, j1 + j2));
}

/// A cursor goes into the next request escaped, and comes back unchanged:
/// for a query whose root tag sets neither a page number nor a paging cursor,
/// and a page whose paging-cookie annotation holds `pagingcookie="f"` with
/// `f` decoding twice to `c`, the cursor taken from the page is `c`, the
/// next request carries it as the escaped text `xml_escaped(c)`, and
/// unescaping that text gives `c` back.
pub proof fn lemma_cursor_round_trip(
    q: Seq<char>,
    page: nat,
    j: JsonValue,
    pre: Seq<char>,
    f: Seq<char>,
    rest: Seq<char>,
    c: Seq<char>,
)
    requires
        has_attr_spec(q, page_attr()) == Ok::<bool, crate::error::SyntaxFault>(false),
        has_attr_spec(q, cookie_attr()) == Ok::<bool, crate::error::SyntaxFault>(false),
        json_get(j, paging_cookie_key()) matches Some(JsonValue::String(s)) && s@ == pre
            + cookie_open() + f + seq!['"'] + rest,
        forall|i: int| 0 <= i < pre.len() ==> !matches_at(pre + cookie_open(), cookie_open(), i),
        !f.contains('"'),
        decoded_twice(f) == Some(c),
    ensures
        cursor_spec(j) == Some(c),
        apply_paging_spec(q, page, cursor_spec(j)) == Ok::<Seq<char>, crate::error::SyntaxFault>(
            insert_at(
                q,
                tag_end(q),
                attr_text(page_attr(), decimal(page)) + attr_text(cookie_attr(), xml_escaped(c)),
            ),
        ),
        xml_unescaped(xml_escaped(c)) == c,
{
    lemma_cursor_from_fragment(j, pre, f, rest);
    lemma_apply_paging_cursor_twice(q, page, c);
    lemma_escape_round_trip(c);
}

/// `s` with the five entity references of XML attribute escaping turned
/// back into their characters, read from the front.
pub open spec fn xml_unescaped(s: Seq<char>) -> Seq<char>
    decreases s.len(),
{
    if s.len() == 0 {
        Seq::empty()
    } else if s.len() >= 5 && s.take(5) == seq!['&', 'a', 'm', 'p', ';'] {
        seq!['&'] + xml_unescaped(s.skip(5))
    } else if s.len() >= 4 && s.take(4) == seq!['&', 'l', 't', ';'] {
        seq!['<'] + xml_unescaped(s.skip(4))
    } else if s.len() >= 4 && s.take(4) == seq!['&', 'g', 't', ';'] {
        seq!['>'] + xml_unescaped(s.skip(4))
    } else if s.len() >= 6 && s.take(6) == seq!['&', 'q', 'u', 'o', 't', ';'] {
        seq!['"'] + xml_unescaped(s.skip(6))
    } else if s.len() >= 6 && s.take(6) == seq!['&', 'a', 'p', 'o', 's', ';'] {
        seq!['\''] + xml_unescaped(s.skip(6))
    } else {
        seq![s[0]] + xml_unescaped(s.skip(1))
    }
}

proof fn lemma_escaped_append(a: Seq<char>, b: Seq<char>)
    ensures
        xml_escaped(a + b) == xml_escaped(a) + xml_escaped(b),
    decreases b.len(),
{
    if b.len() == 0 {
        assert(a + b =~= a);
        assert(xml_escaped(a) + xml_escaped(b) =~= xml_escaped(a));
    } else {
        lemma_escaped_append(a, b.drop_last());
        assert((a + b).drop_last() =~= a + b.drop_last());
        assert((a + b).last() == b.last());
        assert(xml_escaped(a + b) =~= xml_escaped(a) + xml_escaped(b));
    }
}

proof fn lemma_unescape_one(x: char, rest: Seq<char>)
    ensures
        xml_unescaped(escape_char(x) + rest) == seq![x] + xml_unescaped(rest),
{
    let s = escape_char(x) + rest;
    let e = escape_char(x);
    assert forall|k: int| 0 <= k < e.len() implies s[k] == e[k] by {}
    if x == '&' {
        assert(s.take(5) =~= seq!['&', 'a', 'm', 'p', ';']);
        assert(s.skip(5) =~= rest);
    } else if x == '<' {
        assert(s[1] == 'l');
        if s.len() >= 5 {
            assert(s.take(5)[1] != 'a');
        }
        assert(s.take(4) =~= seq!['&', 'l', 't', ';']);
        assert(s.skip(4) =~= rest);
    } else if x == '>' {
        assert(s[1] == 'g');
        if s.len() >= 5 {
            assert(s.take(5)[1] != 'a');
        }
        assert(s.take(4)[1] != 'l');
        assert(s.take(4) =~= seq!['&', 'g', 't', ';']);
        assert(s.skip(4) =~= rest);
    } else if x == '"' {
        assert(s[1] == 'q');
        assert(s.take(5)[1] != 'a');
        assert(s.take(4)[1] != 'l');
        assert(s.take(4)[1] != 'g');
        assert(s.take(6) =~= seq!['&', 'q', 'u', 'o', 't', ';']);
        assert(s.skip(6) =~= rest);
    } else if x == '\'' {
        assert(s[1] == 'a' && s[2] == 'p');
        assert(s.take(5)[2] != 'm');
        assert(s.take(4)[1] != 'l');
        assert(s.take(4)[1] != 'g');
        assert(s.take(6)[1] != 'q');
        assert(s.take(6) =~= seq!['&', 'a', 'p', 'o', 's', ';']);
        assert(s.skip(6) =~= rest);
    } else {
        assert(s[0] == x);
        if s.len() >= 5 {
            assert(s.take(5)[0] != '&');
        }
        if s.len() >= 4 {
            assert(s.take(4)[0] != '&');
        }
        if s.len() >= 6 {
            assert(s.take(6)[0] != '&');
        }
        assert(s.skip(1) =~= rest);
    }
}

/// Unescaping the escaped form of a text gives the text back.
pub proof fn lemma_escape_round_trip(c: Seq<char>)
    ensures
        xml_unescaped(xml_escaped(c)) == c,
    decreases c.len(),
{
    if c.len() > 0 {
        let rest = c.drop_first();
        lemma_escape_round_trip(rest);
        assert(c =~= seq![c[0]] + rest);
        lemma_escaped_append(seq![c[0]], rest);
        assert(seq![c[0]].drop_last() =~= Seq::<char>::empty());
        assert(xml_escaped(Seq::<char>::empty()) == Seq::<char>::empty());
        assert(seq![c[0]].last() == c[0]);
        assert(xml_escaped(seq![c[0]]) =~= escape_char(c[0]));
        lemma_unescape_one(c[0], xml_escaped(rest));
        assert(seq![c[0]] + rest =~= c);
    }
}

/// The text that marks an aggregate query holds no `>`.
proof fn lemma_marker_lacks_close()
    ensures
        lacks(aggregate_marker(), '>'),
{
    let m = aggregate_marker();
    assert forall|k: int| 0 <= k < m.len() implies m[k] != '>' by {
        if k < 8 {
            if k < 4 {
                if k < 2 {
                    if k == 0 {
                    } else {
                    }
                } else if k == 2 {
                } else {
                }
            } else if k < 6 {
                if k == 4 {
                } else {
                }
            } else if k == 6 {
            } else {
            }
        } else if k < 12 {
            if k < 10 {
                if k == 8 {
                } else {
                }
            } else if k == 10 {
            } else {
            }
        } else if k < 14 {
            if k == 12 {
            } else {
            }
        } else if k == 14 {
        } else {
        }
    }
}

/// An aggregate query that sets no page size gets one inserted, as
/// ` count="cap"` before the root tag's `>`, and capping the result again
/// changes nothing: the cap is inserted exactly once. An aggregate query that
/// sets a page size is left unchanged.
#[verifier::rlimit(40)]
pub proof fn lemma_aggregate_cap_once(q: Seq<char>, cap: nat)
    requires
        find_from(q, aggregate_marker(), 0) is Some,
    ensures
        has_attr_spec(q, count_attr()) == Ok::<bool, crate::error::SyntaxFault>(true)
            ==> aggregate_cap_spec(q, cap) == Ok::<Seq<char>, crate::error::SyntaxFault>(q),
        has_attr_spec(q, count_attr()) == Ok::<bool, crate::error::SyntaxFault>(false) ==> {
            let r = insert_at(q, tag_end(q), attr_text(count_attr(), decimal(cap)));
            &&& aggregate_cap_spec(q, cap) == Ok::<Seq<char>, crate::error::SyntaxFault>(r)
            &&& has_attr_spec(r, count_attr()) == Ok::<bool, crate::error::SyntaxFault>(true)
            &&& aggregate_cap_spec(r, cap) == Ok::<Seq<char>, crate::error::SyntaxFault>(r)
        },
{
    if has_attr_spec(q, count_attr()) == Ok::<bool, crate::error::SyntaxFault>(false) {
        let name = count_attr();
        let d = decimal(cap);
        lemma_decimal_digits(cap);
        assert(lacks(name, ' ') && lacks(name, '>'));
        assert(lacks(d, '>') && lacks(d, '"'));
        lemma_insert_then_same(q, name, d);
        let (st, e) = match root_tag_span(q) {
            Ok(span) => span,
            Err(_) => (0, 0),
        };
        let j = attr_text(name, d);
        assert(lacks(j, '>')) by {
            assert forall|k: int| 0 <= k < j.len() implies j[k] != '>' by {
                if 1 <= k < 1 + name.len() {
                    assert(j[k] == name[k - 1]);
                } else if 3 + name.len() <= k < 3 + name.len() + d.len() {
                    assert(j[k] == d[k - 3 - name.len()]);
                }
            }
        }
        lemma_insert_span(q, st, e, j);
        let r = insert_at(q, e, j);
        let mk = aggregate_marker();
        lemma_find_from(q, mk, 0);
        let m = find_from(q, mk, 0)->0;
        lemma_marker_lacks_close();
        assert(q.subrange(m, m + mk.len()) == mk);
        if m <= e < m + mk.len() {
            assert(q.subrange(m, m + mk.len())[e - m] == q[e]);
        }
        if m + mk.len() <= e {
            assert(q.subrange(m, m + mk.len()) =~= r.subrange(m, m + mk.len()));
            lemma_match_window(q, r, mk, m, m);
            lemma_find_some(r, mk, 0, m);
        } else {
            assert(q.subrange(m, m + mk.len()) =~= r.subrange(m + j.len(), m + j.len() + mk.len()));
            lemma_match_window(q, r, mk, m, m + j.len());
            lemma_find_some(r, mk, 0, m + j.len());
        }
    }
}

} // verus!
