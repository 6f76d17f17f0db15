//! The paging driver: a state machine that turns one logical retrieval into
//! a sequence of page requests.
//!
//! The caller issues each request and hands the decoded payload back; the
//! driver answers with the next request or with the finished result. A query
//! whose root tag sets a row limit (`top`) is fetched in a single request;
//! any other query is paged with the service's paging cookie.
use vstd::prelude::*;

use crate::entity::{
    get_attr, keys_unique, lemma_put_get, lemma_put_keeps_unique, put_attr, Entity, Value,
};
use crate::error::{FetchError, FetchFault, SyntaxFault};
use crate::fetchxml::{
    aggregate_cap_spec, apply_paging, apply_paging_spec, ensure_aggregate_page_size,
    fetch_tag_has_attr, has_attr_spec, top_attr,
};
use crate::json::JsonValue;
use crate::parse::{
    cursor_spec, entity_from_fields, extract_paging_cookie, members, more_records_spec,
    page_items_of, page_rows, parse_more_records, row_of,
};

verus! {

/// The page size given to an aggregate query that sets none.
pub const AGGREGATE_PAGE_SIZE: u32 = 5000;

/// The attribute that numbers the rows of a paged retrieval.
pub open spec fn row_number_key() -> Seq<char> {
    "__rownum"@
}

/// A row, as its attributes.
pub type RowView = Seq<(Seq<char>, Value)>;

/// What a retrieval accumulates.
#[derive(Debug, Clone, Copy, PartialEq, Eq)]
pub enum Collect {
    /// The rows themselves.
    Rows,
    /// Only their number.
    Count,
}

/// The state of a retrieval between two pages.
pub struct PagingView {
    /// The query after the aggregate cap, which each page request edits.
    pub base: Seq<char>,
    /// Whether the query sets a row limit and is fetched in one request.
    pub single_shot: bool,
    /// Whether rows are collected (else only counted).
    pub rows_wanted: bool,
    /// The number of the page last requested.
    pub page: nat,
    /// The rows collected so far.
    pub rows: Seq<RowView>,
    /// The number of records seen so far.
    pub total: nat,
}

/// The result of a finished retrieval.
pub enum OutcomeView {
    Rows(Seq<RowView>),
    Count(nat),
}

/// What the driver does with one page.
pub enum StepView {
    /// Request the next page with this query.
    Fetch(PagingView, Seq<char>),
    /// The retrieval is complete.
    Done(OutcomeView),
    /// The retrieval failed.
    Fail(FetchFault),
}

/// The largest record count a retrieval can hold: it must fit in a `usize`
/// and number rows as `i64`.
pub open spec fn count_limit() -> nat {
    if usize::MAX < i64::MAX {
        usize::MAX as nat
    } else {
        i64::MAX as nat
    }
}

/// The rows of a page, numbered on from `start`.
pub open spec fn numbered(p: Seq<RowView>, start: nat) -> Seq<RowView> {
    Seq::new(
        p.len(),
        |i: int| put_attr(p[i], row_number_key(), Value::Int((start + i + 1) as i64)),
    )
}

/// The state and first request of a retrieval of `q`.
pub open spec fn start_spec(q: Seq<char>, rows_wanted: bool) -> Result<
    (PagingView, Seq<char>),
    SyntaxFault,
> {
    match has_attr_spec(q, top_attr()) {
        Err(f) => Err(f),
        Ok(top) => match aggregate_cap_spec(q, AGGREGATE_PAGE_SIZE as nat) {
            Err(f) => Err(f),
            Ok(base) => {
                let s = PagingView {
                    base,
                    single_shot: top,
                    rows_wanted,
                    page: 1,
                    rows: Seq::empty(),
                    total: 0,
                };
                if top {
                    Ok((s, base))
                } else {
                    match apply_paging_spec(base, 1, None) {
                        Err(f) => Err(f),
                        Ok(req) => Ok((s, req)),
                    }
                }
            },
        },
    }
}

/// What the driver in state `s` does with page payload `j`.
pub open spec fn step_spec(s: PagingView, j: JsonValue) -> StepView {
    match page_rows(j) {
        None => StepView::Fail(FetchFault::MalformedResponse),
        Some(p) => {
            let total = s.total + p.len();
            let rows = if !s.rows_wanted {
                s.rows
            } else if s.single_shot {
                s.rows + p
            } else {
                s.rows + numbered(p, s.total)
            };
            let outcome = if s.rows_wanted {
                OutcomeView::Rows(rows)
            } else {
                OutcomeView::Count(total)
            };
            if total > count_limit() {
                StepView::Fail(FetchFault::CounterOverflow)
            } else if s.single_shot || !more_records_spec(j) {
                StepView::Done(outcome)
            } else {
                match cursor_spec(j) {
                    None => StepView::Fail(FetchFault::ProtocolInconsistency),
                    Some(c) => if s.page + 1 > u32::MAX {
                        StepView::Fail(FetchFault::CounterOverflow)
                    } else {
                        match apply_paging_spec(s.base, s.page + 1, Some(c)) {
                            Err(f) => StepView::Fail(FetchFault::QuerySyntax(f)),
                            Ok(req) => StepView::Fetch(
                                PagingView { page: s.page + 1, rows, total, ..s },
                                req,
                            ),
                        }
                    },
                }
            }
        },
    }
}

/// Where a retrieval stands after a number of pages.
pub enum Progress {
    /// Waiting for the page requested with this query.
    Awaiting(PagingView, Seq<char>),
    /// Complete.
    Finished(OutcomeView),
    /// Failed.
    Failed(FetchFault),
}

/// Where a retrieval of `q` stands once the service has answered its
/// requests, in order, with `pages`. Pages beyond its end are never asked for.
pub open spec fn run_spec(q: Seq<char>, rows_wanted: bool, pages: Seq<JsonValue>) -> Progress
    decreases pages.len(),
{
    if pages.len() == 0 {
        match start_spec(q, rows_wanted) {
            Ok((s, req)) => Progress::Awaiting(s, req),
            Err(f) => Progress::Failed(FetchFault::QuerySyntax(f)),
        }
    } else {
        match run_spec(q, rows_wanted, pages.drop_last()) {
            Progress::Awaiting(s, _) => match step_spec(s, pages.last()) {
                StepView::Fetch(s2, req) => Progress::Awaiting(s2, req),
                StepView::Done(o) => Progress::Finished(o),
                StepView::Fail(f) => Progress::Failed(f),
            },
            other => other,
        }
    }
}

/// A query whose root tag sets a row limit is fetched with exactly one
/// request: once the first page has come, the retrieval is over, and what
/// any further page would hold changes nothing.
pub proof fn lemma_row_limit_single_request(
    q: Seq<char>,
    rows_wanted: bool,
    pages: Seq<JsonValue>,
)
    requires
        has_attr_spec(q, top_attr()) == Ok::<bool, SyntaxFault>(true),
        pages.len() >= 1,
    ensures
        !(run_spec(q, rows_wanted, pages) is Awaiting),
        run_spec(q, rows_wanted, pages) == run_spec(q, rows_wanted, pages.take(1)),
    decreases pages.len(),
{
    if pages.len() == 1 {
        assert(pages.take(1) =~= pages);
        assert(pages.drop_last() =~= Seq::<JsonValue>::empty());
    } else {
        lemma_row_limit_single_request(q, rows_wanted, pages.drop_last());
        assert(pages.drop_last().take(1) =~= pages.take(1));
    }
}

/// A query whose root tag sets a row limit is sent as one request, the query
/// with its aggregate cap, and whatever that page announces, its rows (or
/// their number) are the result.
pub proof fn lemma_row_limit_request_and_result(q: Seq<char>, rows_wanted: bool, j: JsonValue)
    requires
        has_attr_spec(q, top_attr()) == Ok::<bool, SyntaxFault>(true),
    ensures
        match start_spec(q, rows_wanted) {
            Ok((s, req)) => {
                &&& aggregate_cap_spec(q, AGGREGATE_PAGE_SIZE as nat) == Ok::<
                    Seq<char>,
                    SyntaxFault,
                >(req)
                &&& s.single_shot
                &&& (page_rows(j) matches Some(p) && p.len() <= count_limit()) ==> step_spec(s, j)
                    == StepView::Done(
                    if rows_wanted {
                        OutcomeView::Rows(page_rows(j)->0)
                    } else {
                        OutcomeView::Count(page_rows(j)->0.len())
                    },
                )
            },
            Err(f) => aggregate_cap_spec(q, AGGREGATE_PAGE_SIZE as nat) == Err::<
                Seq<char>,
                SyntaxFault,
            >(f),
        },
{
    if let Some(p) = page_rows(j) {
        assert(Seq::<RowView>::empty() + p =~= p);
    }
}

/// Two states of one query, one collecting rows and one counting them, that
/// have seen the same pages.
pub open spec fn rows_and_count_alike(a: PagingView, b: PagingView) -> bool {
    &&& a.base == b.base
    &&& a.single_shot == b.single_shot
    &&& a.page == b.page
    &&& a.total == b.total
    &&& a.rows_wanted
    &&& !b.rows_wanted
    &&& a.rows.len() == a.total
}

proof fn lemma_alike_runs(q: Seq<char>, pages: Seq<JsonValue>)
    ensures
        match (run_spec(q, true, pages), run_spec(q, false, pages)) {
            (Progress::Awaiting(a, r1), Progress::Awaiting(b, r2)) => r1 == r2
                && rows_and_count_alike(a, b),
            (
                Progress::Finished(OutcomeView::Rows(rows)),
                Progress::Finished(OutcomeView::Count(c)),
            ) => rows.len() == c,
            (Progress::Failed(e1), Progress::Failed(e2)) => e1 == e2,
            _ => false,
        },
    decreases pages.len(),
{
    if pages.len() > 0 {
        lemma_alike_runs(q, pages.drop_last());
        match (run_spec(q, true, pages.drop_last()), run_spec(q, false, pages.drop_last())) {
            (Progress::Awaiting(a, _), Progress::Awaiting(b, _)) => {
                let j = pages.last();
                match page_rows(j) {
                    Some(p) => {
                        assert(numbered(p, a.total).len() == p.len());
                    },
                    None => {},
                }
            },
            _ => {},
        }
    }
}

/// Counting a query and collecting its rows, against the same answers of
/// the service, issue the same requests, fail with the same error, or
/// finish with as many rows as the count.
pub proof fn lemma_count_matches_rows(q: Seq<char>, pages: Seq<JsonValue>)
    ensures
        match (run_spec(q, true, pages), run_spec(q, false, pages)) {
            (Progress::Awaiting(_, r1), Progress::Awaiting(_, r2)) => r1 == r2,
            (
                Progress::Finished(OutcomeView::Rows(rows)),
                Progress::Finished(OutcomeView::Count(c)),
            ) => rows.len() == c,
            (Progress::Failed(e1), Progress::Failed(e2)) => e1 == e2,
            _ => false,
        },
{
    lemma_alike_runs(q, pages);
}

/// Every row of a paged retrieval has distinct attribute names, its row
/// number included.
pub proof fn lemma_numbered_rows_unique(p: Seq<RowView>, start: nat)
    requires
        forall|i: int| 0 <= i < p.len() ==> keys_unique(#[trigger] p[i]),
    ensures
        forall|i: int| 0 <= i < p.len() ==> keys_unique(#[trigger] numbered(p, start)[i]),
{
    assert forall|i: int| 0 <= i < p.len() implies keys_unique(#[trigger] numbered(p, start)[i]) by {
        lemma_put_keeps_unique(p[i], row_number_key(), Value::Int((start + i + 1) as i64));
    }
}

/// Rows numbered 1, 2, 3, ... in order.
pub open spec fn numbered_from_one(rows: Seq<RowView>) -> bool {
    forall|i: int|
        0 <= i < rows.len() ==> get_attr(#[trigger] rows[i], row_number_key()) == Some(
            Value::Int((i + 1) as i64),
        )
}

proof fn lemma_numbered_runs(q: Seq<char>, pages: Seq<JsonValue>)
    requires
        has_attr_spec(q, top_attr()) == Ok::<bool, SyntaxFault>(false),
    ensures
        match run_spec(q, true, pages) {
            Progress::Awaiting(s, _) => !s.single_shot && s.rows_wanted && s.rows.len() == s.total
                && numbered_from_one(s.rows),
            Progress::Finished(OutcomeView::Rows(rows)) => numbered_from_one(rows),
            Progress::Finished(OutcomeView::Count(_)) => false,
            Progress::Failed(_) => true,
        },
    decreases pages.len(),
{
    if pages.len() > 0 {
        lemma_numbered_runs(q, pages.drop_last());
        match run_spec(q, true, pages.drop_last()) {
            Progress::Awaiting(s, _) => {
                match page_rows(pages.last()) {
                    Some(p) => {
                        let rows = s.rows + numbered(p, s.total);
                        if s.total + p.len() <= count_limit() {
                            assert forall|i: int| 0 <= i < rows.len() implies get_attr(
                                #[trigger] rows[i],
                                row_number_key(),
                            ) == Some(Value::Int((i + 1) as i64)) by {
                                if i >= s.rows.len() {
                                    let k = i - s.total;
                                    lemma_put_get(
                                        p[k],
                                        row_number_key(),
                                        Value::Int((s.total + k + 1) as i64),
                                    );
                                    assert(rows[i] == numbered(p, s.total)[k]);
                                } else {
                                    assert(rows[i] == s.rows[i]);
                                }
                            }
                        }
                    },
                    None => {},
                }
            },
            _ => {},
        }
    }
}

/// The rows of a paged retrieval are numbered 1, 2, 3, ... across all pages,
/// however many pages were needed.
pub proof fn lemma_rows_numbered(q: Seq<char>, pages: Seq<JsonValue>)
    requires
        has_attr_spec(q, top_attr()) == Ok::<bool, SyntaxFault>(false),
    ensures
        run_spec(q, true, pages) matches Progress::Finished(OutcomeView::Rows(rows))
            ==> numbered_from_one(rows),
{
    lemma_numbered_runs(q, pages);
}

/// The finished result of a retrieval.
#[derive(Debug)]
pub enum Outcome {
    Rows(Vec<Entity>),
    Count(usize),
}

/// The rows of `v`, as their attributes.
pub open spec fn rows_view(v: Seq<Entity>) -> Seq<RowView> {
    v.map_values(|e: Entity| e.attrs())
}

impl View for Outcome {
    type V = OutcomeView;

    open spec fn view(&self) -> OutcomeView {
        match self {
            Outcome::Rows(v) => OutcomeView::Rows(rows_view(v@)),
            Outcome::Count(c) => OutcomeView::Count(*c as nat),
        }
    }
}

/// A retrieval between two pages.
pub struct PagingDriver {
    base: String,
    single_shot: bool,
    collect: Collect,
    page: u32,
    rows: Vec<Entity>,
    total: usize,
    query: Ghost<Seq<char>>,
    pages: Ghost<Seq<JsonValue>>,
}

impl View for PagingDriver {
    type V = PagingView;

    closed spec fn view(&self) -> PagingView {
        PagingView {
            base: self.base@,
            single_shot: self.single_shot,
            rows_wanted: self.collect is Rows,
            page: self.page as nat,
            rows: rows_view(self.rows@),
            total: self.total as nat,
        }
    }
}

/// What the driver does with one page.
pub enum Step {
    /// Request the next page with this query, then hand it to the driver.
    Fetch(PagingDriver, String),
    /// The retrieval is complete.
    Done(Outcome),
}

/// The view of a step.
pub open spec fn step_view(r: Result<Step, FetchError>) -> StepView {
    match r {
        Ok(Step::Fetch(d, q)) => StepView::Fetch(d@, q@),
        Ok(Step::Done(o)) => StepView::Done(o@),
        Err(e) => StepView::Fail(e@),
    }
}

impl PagingDriver {
    /// The query this retrieval was started with.
    pub closed spec fn query(&self) -> Seq<char> {
        self.query@
    }

    /// The page payloads handed to the retrieval so far, in order.
    pub closed spec fn pages(&self) -> Seq<JsonValue> {
        self.pages@
    }

    /// This state is where the retrieval of its query stands after its pages,
    /// waiting for the page requested with `req`.
    pub open spec fn awaiting(&self, req: Seq<char>) -> bool {
        run_spec(self.query(), self@.rows_wanted, self.pages()) == Progress::Awaiting(self@, req)
    }

    /// Starts a retrieval of `fetchxml`: the driver and its first request.
    pub fn start(fetchxml: &str, collect: Collect) -> (r: Result<(PagingDriver, String), FetchError>)
        ensures
            match r {
                Ok((d, q)) => start_spec(fetchxml@, collect is Rows) == Ok::<
                    (PagingView, Seq<char>),
                    SyntaxFault,
                >((d@, q@)) && d.query() == fetchxml@ && d.pages() == Seq::<JsonValue>::empty()
                    && d.awaiting(q@),
                Err(e) => start_spec(fetchxml@, collect is Rows) matches Err(f) && e@
                    == FetchFault::QuerySyntax(f),
            },
    {
        proof {
            reveal_strlit("top");
            assert("top"@ =~= top_attr());
        }
        let top = match fetch_tag_has_attr(fetchxml, "top") {
            Err(e) => return Err(FetchError::QuerySyntax(e)),
            Ok(b) => b,
        };
        let base = match ensure_aggregate_page_size(fetchxml, AGGREGATE_PAGE_SIZE) {
            Err(e) => return Err(FetchError::QuerySyntax(e)),
            Ok(b) => b,
        };
        let first = if top {
            base.clone()
        } else {
            match apply_paging(base.as_str(), 1, None) {
                Err(e) => return Err(FetchError::QuerySyntax(e)),
                Ok(q) => q,
            }
        };
        let d = PagingDriver {
            base,
            single_shot: top,
            collect,
            page: 1,
            rows: Vec::new(),
            total: 0,
            query: Ghost(fetchxml@),
            pages: Ghost(Seq::empty()),
        };
        assert(rows_view(d.rows@) =~= Seq::<RowView>::empty());
        Ok((d, first))
    }

    /// Takes the payload of the page last requested. For a driver that
    /// `start` and `on_page` produced, the result is where the whole
    /// retrieval stands once this page is added to the ones before.
    pub fn on_page(self, json: &JsonValue) -> (r: Result<Step, FetchError>)
        ensures
            step_view(r) == step_spec(self@, *json),
            forall|req: Seq<char>|
                #![trigger self.awaiting(req)]
                self.awaiting(req) ==> match r {
                    Ok(Step::Fetch(d, q)) => d.query() == self.query() && d.pages()
                        == self.pages().push(*json) && d.awaiting(q@),
                    Ok(Step::Done(o)) => run_spec(
                        self.query(),
                        self@.rows_wanted,
                        self.pages().push(*json),
                    ) == Progress::Finished(o@),
                    Err(e) => run_spec(self.query(), self@.rows_wanted, self.pages().push(*json))
                        == Progress::Failed(e@),
                },
    {
        proof {
            let ps = self.pages().push(*json);
            assert(ps.drop_last() =~= self.pages());
        }
        let items = match page_items_of(json) {
            None => return Err(FetchError::MalformedResponse),
            Some(items) => items,
        };
        let ghost p = page_rows(*json)->0;
        let n = items.len();
        let limit: u64 = if (usize::MAX as u64) < (i64::MAX as u64) {
            usize::MAX as u64
        } else {
            i64::MAX as u64
        };
        assert(limit == count_limit());
        assert(p.len() == n);
        if self.total as u64 > limit || n as u64 > limit - self.total as u64 {
            return Err(FetchError::CounterOverflow);
        }
        let total = self.total + n;
        let mut rows = self.rows;
        let ghost old_rows = rows_view(rows@);
        match self.collect {
            Collect::Count => {},
            Collect::Rows => {
                let mut i: usize = 0;
                while i < n
                    invariant
                        n == items@.len(),
                        i <= n,
                        p == items@.map_values(|it: JsonValue| row_of(members(it))),
                        forall|k: int| 0 <= k < n ==> (#[trigger] items@[k] is Object),
                        self.total + n <= count_limit(),
                        rows_view(rows@) == old_rows + (if self.single_shot {
                            p
                        } else {
                            numbered(p, self.total as nat)
                        }).take(i as int),
                    decreases n - i,
                {
                    let ghost before = rows_view(rows@);
                    match &items[i] {
                        JsonValue::Object(fields) => {
                            let mut e = entity_from_fields(fields);
                            if !self.single_shot {
                                let number = (self.total + i + 1) as i64;
                                e.insert(String::from_str("__rownum"), Value::Int(number));
                            }
                            rows.push(e);
                        },
                        _ => {
                            assert(items@[i as int] is Object);
                        },
                    }
                    assert(rows_view(rows@) =~= before.push(rows@.last().attrs()));
                    i = i + 1;
                }
                if self.single_shot {
                    assert(p.take(n as int) =~= p);
                } else {
                    assert(numbered(p, self.total as nat).take(n as int) =~= numbered(
                        p,
                        self.total as nat,
                    ));
                }
            },
        }
        if self.single_shot || !parse_more_records(json) {
            let outcome = match self.collect {
                Collect::Rows => Outcome::Rows(rows),
                Collect::Count => Outcome::Count(total),
            };
            return Ok(Step::Done(outcome));
        }
        let cursor = match extract_paging_cookie(json) {
            None => return Err(FetchError::ProtocolInconsistency),
            Some(c) => c,
        };
        if self.page == u32::MAX {
            return Err(FetchError::CounterOverflow);
        }
        let page = self.page + 1;
        let next = match apply_paging(self.base.as_str(), page, Some(cursor.as_str())) {
            Err(e) => return Err(FetchError::QuerySyntax(e)),
            Ok(q) => q,
        };
        let d = PagingDriver {
            base: self.base,
            single_shot: self.single_shot,
            collect: self.collect,
            page,
            rows,
            total,
            query: self.query,
            pages: Ghost(self.pages@.push(*json)),
        };
        Ok(Step::Fetch(d, next))
    }
}

} // verus!
