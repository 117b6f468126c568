//! Fetching events page by page: which page to ask for next, and what to keep of it.

use crate::address::{self, request_url};
use crate::dispatch::{self, Get, GetView};
use crate::error::CliError;
use crate::filter::{self, matches_filters, project_row};
use crate::json::{self, Json, JsonView, Numeral, NumeralView};
use crate::json_path::{self, get_member};
use crate::numeral::{self, write_decimal};
use crate::query::{self, events_page_pairs, needs_properties, EventQuery, QueryView};
use crate::rows::{self, created_at, sort_by_creation};
use crate::text::{self, before};
use vstd::prelude::*;
use vstd::string::StringExecFns;

verus! {

broadcast use crate::json::lemma_view;

/// What a fetch has seen: pages, rows in them, rows within the time bounds, rows that met the filters.
#[derive(Clone, Copy, Debug, PartialEq, Eq, Structural)]
pub struct FetchStats {
    pub pages: usize,
    pub api_rows: usize,
    pub time_rows: usize,
    pub matched_rows: usize,
}

/// The progress of a fetch: the event and the page that are next, the rows kept, and what was seen.
#[derive(Debug)]
pub struct Fetch {
    pub event: usize,
    pub page: usize,
    pub rows: Vec<Json>,
    pub stats: FetchStats,
}

/// What the progress of a fetch is.
#[verifier::ext_equal]
pub struct FetchView {
    pub event: nat,
    pub page: nat,
    pub rows: Seq<JsonView>,
    pub pages: nat,
    pub api_rows: nat,
    pub time_rows: nat,
    pub matched_rows: nat,
}

impl View for Fetch {
    type V = FetchView;

    open spec fn view(&self) -> FetchView {
        FetchView {
            event: self.event as nat,
            page: self.page as nat,
            rows: json::trees(self.rows@),
            pages: self.stats.pages as nat,
            api_rows: self.stats.api_rows as nat,
            time_rows: self.stats.time_rows as nat,
            matched_rows: self.stats.matched_rows as nat,
        }
    }
}

/// A fetch that has not begun.
pub open spec fn fetch_start() -> FetchView {
    FetchView {
        event: 0,
        page: 1,
        rows: seq![],
        pages: 0,
        api_rows: 0,
        time_rows: 0,
        matched_rows: 0,
    }
}

/// Whether a page may be asked for.
pub open spec fn page_allowed(query: QueryView, page: nat) -> bool {
    query.max_pages matches Some(max) ==> page <= max
}

/// A fetch moved on to the next page that may be asked for, or to the end of the events.
pub open spec fn settled(query: QueryView, fetch: FetchView) -> FetchView
    decreases query.events.len() - fetch.event,
{
    if fetch.event < query.events.len() && !page_allowed(query, fetch.page) {
        settled(query, FetchView { event: fetch.event + 1, page: 1, ..fetch })
    } else {
        fetch
    }
}

/// The rows of a page.
pub open spec fn page_rows(page: JsonView) -> Seq<JsonView> {
    match json_path::value_at(page, seq!["data"@]) {
        Some(JsonView::Array(items)) => items,
        _ => seq![],
    }
}

/// The number of pages that a page announces; where it does not say, its own number.
pub open spec fn page_count(page: JsonView, number: nat) -> nat {
    match json_path::value_at(page, seq!["meta"@, "pages"@]) {
        Some(JsonView::Number(NumeralView::Unsigned(n))) => n as nat,
        _ => number,
    }
}

/// Whether a row was created before the start of a query.
pub open spec fn too_old(query: QueryView, row: JsonView) -> bool {
    text::text_lt(rows::created(row), query.start)
}

/// Whether a row was created within the time bounds of a query.
pub open spec fn in_time(query: QueryView, row: JsonView) -> bool {
    !too_old(query, row) && !text::text_lt(query.end, rows::created(row))
}

/// Whether a query wants a row: it lies in the time bounds and meets the filters.
pub open spec fn wanted(query: QueryView, row: JsonView) -> bool {
    in_time(query, row) && filter::meets_all(row, query.filters)
}

/// The wanted rows of a list, projected to the selected fields.
pub open spec fn wanted_rows(query: QueryView, list: Seq<JsonView>) -> Seq<JsonView>
    decreases list.len(),
{
    if list.len() == 0 {
        seq![]
    } else if wanted(query, list.last()) {
        wanted_rows(query, list.drop_last()).push(filter::projection(list.last(), query.select))
    } else {
        wanted_rows(query, list.drop_last())
    }
}

/// The number of rows of a list within the time bounds.
pub open spec fn count_in_time(query: QueryView, list: Seq<JsonView>) -> nat
    decreases list.len(),
{
    if list.len() == 0 {
        0
    } else if in_time(query, list.last()) {
        count_in_time(query, list.drop_last()) + 1
    } else {
        count_in_time(query, list.drop_last())
    }
}

/// Whether a list has a row from before the start of a query.
pub open spec fn reaches_back(query: QueryView, list: Seq<JsonView>) -> bool {
    exists|i: int| 0 <= i < list.len() && too_old(query, #[trigger] list[i])
}

/// Whether a page is the last one to ask for, for its event: it is empty, reaches back before the start
/// of the query, or is the last that is announced.
pub open spec fn is_last_page(query: QueryView, page: JsonView, number: nat) -> bool {
    let list = page_rows(page);
    list.len() == 0 || reaches_back(query, list) || number >= page_count(page, number)
}

/// A fetch after one more page.
pub open spec fn with_page(query: QueryView, fetch: FetchView, page: JsonView) -> FetchView {
    let list = page_rows(page);
    let kept = wanted_rows(query, list);
    let last = is_last_page(query, page, fetch.page);
    FetchView {
        event: if last {
            fetch.event + 1
        } else {
            fetch.event
        },
        page: if last {
            1
        } else {
            fetch.page + 1
        },
        rows: fetch.rows + kept,
        pages: fetch.pages + 1,
        api_rows: fetch.api_rows + list.len(),
        time_rows: fetch.time_rows + count_in_time(query, list),
        matched_rows: fetch.matched_rows + kept.len(),
    }
}

/// What holds of every fetch: each number counts part of what the one before it counts, and the rows
/// kept are the rows that met the filters.
pub open spec fn consistent(fetch: FetchView) -> bool {
    &&& fetch.matched_rows == fetch.rows.len()
    &&& fetch.matched_rows <= fetch.time_rows
    &&& fetch.time_rows <= fetch.api_rows
}

/// Whether one more page can be counted.
pub open spec fn can_count(fetch: FetchView, page: JsonView) -> bool {
    &&& consistent(fetch)
    &&& fetch.pages < usize::MAX
    &&& fetch.page < usize::MAX
    &&& fetch.api_rows + page_rows(page).len() <= usize::MAX
}

/// No more rows are wanted than lie in the time bounds, and no more lie there than there are.
pub proof fn lemma_counts(query: QueryView, list: Seq<JsonView>)
    ensures
        wanted_rows(query, list).len() <= count_in_time(query, list) <= list.len(),
    decreases list.len(),
{
    if list.len() > 0 {
        lemma_counts(query, list.drop_last());
    }
}

/// The rows of a page, by reference.
fn rows_of_page(page: &Json) -> (r: Option<&Vec<Json>>)
    ensures
        page_rows(page@) == match r {
            Some(items) => json::trees(items@),
            None => Seq::<JsonView>::empty(),
        },
{
    match get_member(page, "data") {
        Some(Json::Array(items)) => Some(items),
        _ => None,
    }
}

/// The number of pages that a page announces.
fn count_of_pages(page: &Json, number: usize) -> (r: u64)
    ensures
        r == page_count(page@, number as nat),
{
    proof {
        reveal_with_fuel(json_path::value_at, 3);
        let names = seq!["meta"@, "pages"@];
        assert(names.drop_first() =~= seq!["pages"@]);
        assert(seq!["meta"@].drop_first() =~= Seq::<Seq<char>>::empty());
        assert(seq!["pages"@].drop_first() =~= Seq::<Seq<char>>::empty());
    }
    match get_member(page, "meta") {
        Some(meta) => match get_member(meta, "pages") {
            Some(Json::Number(Numeral::Unsigned(n))) => *n,
            _ => number as u64,
        },
        None => number as u64,
    }
}

impl Fetch {
    /// A fetch that has not begun.
    pub fn start() -> (r: Fetch)
        ensures
            r@ == fetch_start(),
            consistent(r@),
    {
        let rows: Vec<Json> = Vec::new();
        proof {
            json::lemma_trees(rows@);
            assert(json::trees(rows@) =~= seq![]);
        }
        Fetch {
            event: 0,
            page: 1,
            rows,
            stats: FetchStats { pages: 0, api_rows: 0, time_rows: 0, matched_rows: 0 },
        }
    }

    /// Moves on to the next page that may be asked for, and says which event and page it is; nothing
    /// where all events are done.
    pub fn next_request(&mut self, query: &EventQuery) -> (r: Option<(usize, usize)>)
        ensures
            final(self)@ == settled(query@, old(self)@),
            match r {
                Some(p) => p.0 == final(self)@.event && p.1 == final(self)@.page && p.0
                    < query@.events.len() && page_allowed(query@, p.1 as nat),
                None => final(self)@.event >= query@.events.len(),
            },
    {
        while self.event < query.events.len()
            invariant
                settled(query@, self@) == settled(query@, old(self)@),
                self.rows@ == old(self).rows@,
                self.stats == old(self).stats,
            decreases query.events@.len() - self.event,
        {
            let allowed = match query.max_pages {
                Some(max) => self.page <= max,
                None => true,
            };
            if allowed {
                return Some((self.event, self.page));
            }
            self.event = self.event + 1;
            self.page = 1;
        }
        None
    }

    /// Whether one more page can be counted: the condition that `add_page` asks for.
    pub fn can_add_page(&self, page: &Json) -> (r: bool)
        requires
            consistent(self@),
        ensures
            r == can_count(self@, page@),
    {
        let count: usize = match rows_of_page(page) {
            Some(items) => {
                proof {
                    json::lemma_trees(items@);
                }
                items.len()
            },
            None => 0,
        };
        self.stats.pages < usize::MAX && self.page < usize::MAX && count <= usize::MAX
            - self.stats.api_rows
    }

    /// Takes in the page that was asked for: counts its rows, keeps the wanted ones, and moves on to the
    /// next page of the event, or to the next event after the last page.
    pub fn add_page(&mut self, query: &EventQuery, page: &Json)
        requires
            old(self)@.event < query@.events.len(),
            can_count(old(self)@, page@),
        ensures
            final(self)@ == with_page(query@, old(self)@, page@),
            consistent(final(self)@),
    {
        let ghost start = self@;
        let ghost list = page_rows(page@);
        proof {
            lemma_counts(query@, list);
        }
        self.stats.pages = self.stats.pages + 1;
        let mut last = true;
        if let Some(items) = rows_of_page(page) {
            proof {
                json::lemma_trees(items@);
                assert(list.take(0) =~= Seq::<JsonView>::empty());
                assert(start.rows + wanted_rows(query@, list.take(0)) =~= start.rows);
            }
            if items.len() > 0 {
                self.stats.api_rows = self.stats.api_rows + items.len();
                let mut old_rows = false;
                let mut i: usize = 0;
                while i < items.len()
                    invariant
                        i <= items@.len(),
                        list == json::trees(items@),
                        list.len() == items@.len(),
                        forall|j: int| 0 <= j < items@.len() ==> #[trigger] list[j] == items@[j]@,
                        consistent(start),
                        start.api_rows + list.len() <= usize::MAX,
                        self@ == (FetchView {
                            rows: start.rows + wanted_rows(query@, list.take(i as int)),
                            pages: start.pages + 1,
                            api_rows: start.api_rows + list.len(),
                            time_rows: start.time_rows + count_in_time(
                                query@,
                                list.take(i as int),
                            ),
                            matched_rows: start.matched_rows + wanted_rows(
                                query@,
                                list.take(i as int),
                            ).len(),
                            ..start
                        }),
                        old_rows == exists|j: int|
                            0 <= j < i && too_old(query@, #[trigger] list[j]),
                    decreases items@.len() - i,
                {
                    let row = &items[i];
                    let ghost seen = list.take(i as int);
                    proof {
                        assert(list[i as int] == row@);
                        assert(list.take(i + 1).drop_last() =~= seen);
                        assert(list.take(i + 1).last() == row@);
                        lemma_counts(query@, seen);
                    }
                    let when = created_at(row);
                    if before(when, query.start.as_str()) {
                        old_rows = true;
                    } else if !before(query.end.as_str(), when) {
                        self.stats.time_rows = self.stats.time_rows + 1;
                        if matches_filters(row, &query.filters) {
                            self.stats.matched_rows = self.stats.matched_rows + 1;
                            if let Ok(projected) = project_row(row, &query.select) {
                                proof {
                                    json::lemma_trees_push(self.rows@, projected);
                                    assert((start.rows + wanted_rows(query@, seen)).push(
                                        projected@,
                                    ) =~= start.rows + wanted_rows(query@, seen).push(projected@));
                                }
                                self.rows.push(projected);
                            }
                        }
                    }
                    i = i + 1;
                }
                proof {
                    assert(list.take(i as int) =~= list);
                }
                last = old_rows || self.page as u64 >= count_of_pages(page, self.page);
            }
        } else {
            proof {
                assert(start.rows + wanted_rows(query@, list) =~= start.rows);
            }
        }
        proof {
            assert(query.events.len() == query@.events.len());
        }
        if last {
            self.event = self.event + 1;
            self.page = 1;
        } else {
            self.page = self.page + 1;
        }
    }

    /// The rows of a finished fetch, in the order of their creation, and what was seen.
    pub fn finish(self) -> (r: (Vec<Json>, FetchStats))
        ensures
            rows::sorted_by_creation(self@.rows, json::trees(r.0@)),
            r.1 == self.stats,
    {
        let stats = self.stats;
        (sort_by_creation(self.rows), stats)
    }
}

/// Every row that is kept of a page is a row of the page that lies in the time bounds of the query and
/// meets its filters, projected to the selected fields.
pub proof fn law_kept_rows_are_wanted(query: QueryView, list: Seq<JsonView>, i: int)
    requires
        0 <= i < wanted_rows(query, list).len(),
    ensures
        exists|j: int|
            0 <= j < list.len() && wanted(query, #[trigger] list[j]) && wanted_rows(query, list)[i]
                == filter::projection(list[j], query.select),
    decreases list.len(),
{
    let front = list.drop_last();
    if wanted(query, list.last()) && i == wanted_rows(query, front).len() {
        assert(wanted(query, list[list.len() - 1]));
    } else {
        law_kept_rows_are_wanted(query, front, i);
        let j = choose|j: int|
            0 <= j < front.len() && wanted(query, #[trigger] front[j]) && wanted_rows(
                query,
                front,
            )[i] == filter::projection(front[j], query.select);
        assert(wanted(query, list[j]));
    }
}

/// Every wanted row of a page is kept, projected to the selected fields.
pub proof fn law_wanted_rows_are_kept(query: QueryView, list: Seq<JsonView>, j: int)
    requires
        0 <= j < list.len(),
        wanted(query, list[j]),
    ensures
        wanted_rows(query, list).contains(filter::projection(list[j], query.select)),
    decreases list.len(),
{
    let front = list.drop_last();
    let row = filter::projection(list[j], query.select);
    if j == list.len() - 1 {
        assert(wanted_rows(query, list).last() == row);
    } else {
        law_wanted_rows_are_kept(query, front, j);
        let i = choose|i: int|
            0 <= i < wanted_rows(query, front).len() && wanted_rows(query, front)[i] == row;
        assert(wanted_rows(query, list)[i] == row);
    }
}

/// The state of a fetch after a row of pages has come in, one for each request.
pub open spec fn with_pages(query: QueryView, pages: Seq<JsonView>) -> FetchView
    decreases pages.len(),
{
    if pages.len() == 0 {
        settled(query, fetch_start())
    } else {
        settled(query, with_page(query, with_pages(query, pages.drop_last()), pages.last()))
    }
}

/// Moving on changes neither the rows nor the numbers, and ends at a page that may be asked for or
/// behind the last event.
pub proof fn lemma_settled(query: QueryView, fetch: FetchView)
    ensures
        ({
            let s = settled(query, fetch);
            &&& s.rows == fetch.rows
            &&& s.pages == fetch.pages
            &&& s.api_rows == fetch.api_rows
            &&& s.time_rows == fetch.time_rows
            &&& s.matched_rows == fetch.matched_rows
            &&& s.event >= query.events.len() || page_allowed(query, s.page)
        }),
    decreases query.events.len() - fetch.event,
{
    if fetch.event < query.events.len() && !page_allowed(query, fetch.page) {
        lemma_settled(query, FetchView { event: fetch.event + 1, page: 1, ..fetch });
    }
}

/// Whatever pages come in, the numbers of a fetch are consistent: the rows kept are those that met the
/// filters, no more than those in the time bounds, no more than all; and every page is counted.
pub proof fn law_fetch_is_consistent(query: QueryView, pages: Seq<JsonView>)
    ensures
        consistent(with_pages(query, pages)),
        with_pages(query, pages).pages == pages.len(),
    decreases pages.len(),
{
    if pages.len() == 0 {
        lemma_settled(query, fetch_start());
    } else {
        let before = with_pages(query, pages.drop_last());
        law_fetch_is_consistent(query, pages.drop_last());
        lemma_counts(query, page_rows(pages.last()));
        lemma_settled(query, with_page(query, before, pages.last()));
    }
}

/// Whether each of a row of pages was asked for: before each there was an event left.
pub open spec fn asked_for(query: QueryView, pages: Seq<JsonView>) -> bool {
    forall|k: int|
        0 <= k < pages.len() ==> (#[trigger] with_pages(query, pages.take(k))).event
            < query.events.len()
}

/// Whether a fetch has seen no more pages than the events before its own may have, and the pages
/// before its own.
spec fn is_within(query: QueryView, most: usize, fetch: FetchView) -> bool {
    &&& fetch.event <= query.events.len()
    &&& fetch.page >= 1
    &&& fetch.event == query.events.len() ==> fetch.page == 1
    &&& fetch.pages <= most * fetch.event + fetch.page - 1
}

/// Moving on to the next event stays within the pages that may be asked for.
proof fn lemma_settled_within(query: QueryView, most: usize, fetch: FetchView)
    requires
        query.max_pages == Some(most),
        is_within(query, most, fetch),
        fetch.page <= most + 1,
    ensures
        is_within(query, most, settled(query, fetch)),
    decreases query.events.len() - fetch.event,
{
    if fetch.event < query.events.len() && !page_allowed(query, fetch.page) {
        assert(most * (fetch.event + 1) == most * fetch.event + most) by (nonlinear_arith);
        lemma_settled_within(query, most, FetchView { event: fetch.event + 1, page: 1, ..fetch });
    }
}

/// A fetch whose pages were all asked for stays within the pages that may be asked for.
proof fn lemma_asked_within(query: QueryView, most: usize, pages: Seq<JsonView>)
    requires
        query.max_pages == Some(most),
        asked_for(query, pages),
    ensures
        is_within(query, most, with_pages(query, pages)),
    decreases pages.len(),
{
    if pages.len() == 0 {
        lemma_settled_within(query, most, fetch_start());
    } else {
        let front = pages.drop_last();
        assert forall|k: int| 0 <= k < front.len() implies (#[trigger] with_pages(
            query,
            front.take(k),
        )).event < query.events.len() by {
            assert(front.take(k) =~= pages.take(k));
        }
        lemma_asked_within(query, most, front);
        let was = with_pages(query, front);
        assert(pages.take(pages.len() - 1) =~= front);
        assert(was.event < query.events.len());
        if front.len() == 0 {
            lemma_settled(query, fetch_start());
        } else {
            lemma_settled(query, with_page(query, with_pages(query, front.drop_last()), front.last()));
        }
        assert(page_allowed(query, was.page));
        assert(most * (was.event + 1) == most * was.event + most) by (nonlinear_arith);
        lemma_settled_within(query, most, with_page(query, was, pages.last()));
    }
}

/// A limit on the pages of an event bounds a fetch: it asks for no more pages than the limit allows for
/// each event.
pub proof fn law_pages_are_bounded(query: QueryView, most: usize, pages: Seq<JsonView>)
    requires
        query.max_pages == Some(most),
        asked_for(query, pages),
    ensures
        pages.len() <= most * query.events.len(),
{
    lemma_asked_within(query, most, pages);
    law_fetch_is_consistent(query, pages);
    let now = with_pages(query, pages);
    if now.event < query.events.len() {
        if pages.len() == 0 {
            lemma_settled(query, fetch_start());
        } else {
            lemma_settled(
                query,
                with_page(query, with_pages(query, pages.drop_last()), pages.last()),
            );
        }
        assert(most * now.event + most <= most * query.events.len()) by (nonlinear_arith)
            requires
                now.event + 1 <= query.events.len(),
        ;
    }
}

/// Every wanted row of every page that comes in is kept, projected to the selected fields.
pub proof fn law_fetch_keeps_the_wanted(query: QueryView, pages: Seq<JsonView>, p: int, j: int)
    requires
        0 <= p < pages.len(),
        0 <= j < page_rows(pages[p]).len(),
        wanted(query, page_rows(pages[p])[j]),
    ensures
        with_pages(query, pages).rows.contains(
            filter::projection(page_rows(pages[p])[j], query.select),
        ),
    decreases pages.len(),
{
    let front = pages.drop_last();
    let before = with_pages(query, front);
    let row = filter::projection(page_rows(pages[p])[j], query.select);
    let kept = wanted_rows(query, page_rows(pages.last()));
    lemma_settled(query, with_page(query, before, pages.last()));
    let all = with_pages(query, pages).rows;
    assert(all == before.rows + kept);
    if p == pages.len() - 1 {
        law_wanted_rows_are_kept(query, page_rows(pages[p]), j);
        let i = choose|i: int| 0 <= i < kept.len() && kept[i] == row;
        assert(all[before.rows.len() + i] == row);
    } else {
        law_fetch_keeps_the_wanted(query, front, p, j);
        let i = choose|i: int| 0 <= i < before.rows.len() && before.rows[i] == row;
        assert(all[i] == row);
    }
}

/// Every row that is kept is a wanted row of a page that came in, projected to the selected fields.
pub proof fn law_fetch_keeps_nothing_else(query: QueryView, pages: Seq<JsonView>, i: int) -> (r: (
    int,
    int,
))
    requires
        0 <= i < with_pages(query, pages).rows.len(),
    ensures
        0 <= r.0 < pages.len(),
        0 <= r.1 < page_rows(pages[r.0]).len(),
        wanted(query, page_rows(pages[r.0])[r.1]),
        with_pages(query, pages).rows[i] == filter::projection(
            page_rows(pages[r.0])[r.1],
            query.select,
        ),
    decreases pages.len(),
{
    if pages.len() == 0 {
        lemma_settled(query, fetch_start());
        (0, 0)
    } else {
        let front = pages.drop_last();
        let before = with_pages(query, front);
        let list = page_rows(pages.last());
        let kept = wanted_rows(query, list);
        lemma_settled(query, with_page(query, before, pages.last()));
        assert(with_pages(query, pages).rows == before.rows + kept);
        if i < before.rows.len() {
            law_fetch_keeps_nothing_else(query, front, i)
        } else {
            let k = i - before.rows.len();
            law_kept_rows_are_wanted(query, list, k);
            let j = choose|j: int|
                0 <= j < list.len() && wanted(query, #[trigger] list[j]) && kept[k]
                    == filter::projection(list[j], query.select);
            (pages.len() - 1, j)
        }
    }
}

/// Builds the address of the request for one page of an event.
pub fn events_page_url(
    base_url: &str,
    query: &EventQuery,
    event: &str,
    page: usize,
    includes_properties: bool,
) -> (r: Result<String, CliError>)
    requires
        address::is_short(
            base_url@,
            "export/events"@,
            query::page_pairs(query@, event@, page, includes_properties),
        ),
    ensures
        ({
            let pairs = query::page_pairs(query@, event@, page, includes_properties);
            match r {
                Ok(url) => address::request_address(base_url@, "export/events"@, pairs) == Ok::<
                    Seq<char>,
                    Seq<char>,
                >(url@),
                Err(e) => address::request_address(base_url@, "export/events"@, pairs) == Err::<
                    Seq<char>,
                    Seq<char>,
                >(e@),
            }
        }),
{
    let pairs = events_page_pairs(query, event, page, includes_properties);
    match request_url(base_url, "export/events", &pairs) {
        Ok(url) => Ok(url),
        Err(e) => Err(CliError::of(e)),
    }
}

/// The requests for the first page of each event, where a first page may be asked for.
pub open spec fn first_pages(query: QueryView) -> Seq<GetView> {
    if page_allowed(query, 1) {
        Seq::new(
            query.events.len(),
            |i: int|
                GetView {
                    path: "export/events"@,
                    pairs: query::page_pairs(
                        query,
                        query.events[i],
                        1,
                        query::asks_properties(query),
                    ),
                },
        )
    } else {
        seq![]
    }
}

/// Lists the requests that a dry run of a query shows: those for the first page of each event.
pub fn first_page_gets(query: &EventQuery) -> (r: Vec<Get>)
    ensures
        dispatch::get_views(r@) == first_pages(query@),
{
    let mut out: Vec<Get> = Vec::new();
    let allowed = match query.max_pages {
        Some(max) => 1 <= max,
        None => true,
    };
    let ghost want = first_pages(query@);
    if !allowed {
        proof {
            assert(dispatch::get_views(out@) =~= want);
        }
        return out;
    }
    let properties = needs_properties(query);
    let mut i: usize = 0;
    while i < query.events.len()
        invariant
            i <= query.events@.len(),
            page_allowed(query@, 1),
            want == first_pages(query@),
            properties == query::asks_properties(query@),
            out@.len() == i,
            forall|j: int| 0 <= j < i ==> (#[trigger] out@[j])@ == want[j],
        decreases query.events@.len() - i,
    {
        let get = Get {
            path: "export/events".to_string(),
            pairs: events_page_pairs(query, query.events[i].as_str(), 1, properties),
        };
        proof {
            assert(get@ =~= want[i as int]);
        }
        out.push(get);
        i = i + 1;
    }
    proof {
        assert(dispatch::get_views(out@) =~= want);
    }
    out
}

/// What a dry run shows for the first event is what a fetch asks for first; where it shows nothing, a
/// fetch asks for nothing.
pub proof fn law_dry_runs_show_the_first_request(query: QueryView)
    ensures
        first_pages(query).len() > 0 ==> {
            let first = settled(query, fetch_start());
            &&& first.event == 0 && first.page == 1
            &&& first_pages(query)[0].pairs == query::page_pairs(
                query,
                query.events[0],
                1,
                query::asks_properties(query),
            )
        },
        first_pages(query).len() == 0 ==> settled(query, fetch_start()).event
            >= query.events.len(),
{
    if first_pages(query).len() == 0 {
        lemma_all_barred(query, fetch_start());
    }
}

/// Where no first page may be asked for, a fetch at a first page moves on to the end of the events.
proof fn lemma_all_barred(query: QueryView, fetch: FetchView)
    requires
        fetch.page == 1,
        query.events.len() > 0 ==> !page_allowed(query, 1),
    ensures
        settled(query, fetch).event >= query.events.len(),
    decreases query.events.len() - fetch.event,
{
    if fetch.event < query.events.len() {
        lemma_all_barred(query, FetchView { event: fetch.event + 1, page: 1, ..fetch });
    }
}

/// Writes the counts of a fetch for diagnosis.
pub fn debug_line(stats: &FetchStats) -> (r: String)
    ensures
        r@ == "debug: pages="@ + numeral::decimal(stats.pages as nat) + " api_rows="@
            + numeral::decimal(stats.api_rows as nat) + " after_time="@ + numeral::decimal(
            stats.time_rows as nat,
        ) + " matched="@ + numeral::decimal(stats.matched_rows as nat),
{
    let mut line = "debug: pages=".to_string();
    line.append(write_decimal(stats.pages as u64).as_str());
    line.append(" api_rows=");
    line.append(write_decimal(stats.api_rows as u64).as_str());
    line.append(" after_time=");
    line.append(write_decimal(stats.time_rows as u64).as_str());
    line.append(" matched=");
    line.append(write_decimal(stats.matched_rows as u64).as_str());
    line
}

/// Which rows of a page are kept: exactly those whose `createdAt`, a text, stands neither before the
/// start of the query nor behind its end in dictionary order, both bounds included, and whose cells are
/// the values of the filters that ask for equality and not those of the others. A row without such a
/// text counts as one with an empty text. The rows are kept in their order, each once, projected to the
/// selected fields.
pub proof fn law_rows_within_the_bounds_are_kept(query: QueryView, list: Seq<JsonView>) -> (at: Seq<
    int,
>)
    ensures
        at.len() == wanted_rows(query, list).len(),
        forall|i: int|
            0 <= i < at.len() ==> 0 <= #[trigger] at[i] < list.len() && wanted_rows(query, list)[i]
                == filter::projection(list[at[i]], query.select),
        forall|i: int, j: int| 0 <= i < j < at.len() ==> #[trigger] at[i] < #[trigger] at[j],
        forall|j: int|
            0 <= j < list.len() ==> (#[trigger] at.contains(j) <==> {
                &&& match json_path::value_at(list[j], seq!["createdAt"@]) {
                    Some(JsonView::Text(c)) => !text::text_lt(c, query.start) && !text::text_lt(
                        query.end,
                        c,
                    ),
                    _ => query.start.len() == 0,
                }
                &&& forall|f: int|
                    0 <= f < query.filters.len() ==> (json_path::cell_text(
                        json_path::path_value(list[j], (#[trigger] query.filters[f]).path),
                    ) == query.filters[f].value <==> query.filters[f].op == filter::FilterOp::Eq)
            }),
    decreases list.len(),
{
    if list.len() == 0 {
        Seq::empty()
    } else {
        let front = list.drop_last();
        let last = list.len() - 1;
        let before = law_rows_within_the_bounds_are_kept(query, front);
        let row = list.last();
        lemma_wanted_written_out(query, row);
        let at = if wanted(query, row) {
            before.push(last)
        } else {
            before
        };
        assert forall|j: int| 0 <= j < list.len() implies (#[trigger] at.contains(j) <==> {
            &&& match json_path::value_at(list[j], seq!["createdAt"@]) {
                Some(JsonView::Text(c)) => !text::text_lt(c, query.start) && !text::text_lt(
                    query.end,
                    c,
                ),
                _ => query.start.len() == 0,
            }
            &&& forall|f: int|
                0 <= f < query.filters.len() ==> (json_path::cell_text(
                    json_path::path_value(list[j], (#[trigger] query.filters[f]).path),
                ) == query.filters[f].value <==> query.filters[f].op == filter::FilterOp::Eq)
        }) by {
            lemma_wanted_written_out(query, list[j]);
            if j < last {
                assert(list[j] == front[j]);
                assert(at.contains(j) == before.contains(j)) by {
                    if at.contains(j) {
                        let i = choose|i: int| 0 <= i < at.len() && at[i] == j;
                        assert(before[i] == j);
                    }
                    if before.contains(j) {
                        let i = choose|i: int| 0 <= i < before.len() && before[i] == j;
                        assert(at[i] == j);
                    }
                }
            } else {
                if wanted(query, row) {
                    assert(at[at.len() - 1] == j);
                }
                assert forall|i: int| 0 <= i < before.len() implies before[i] != j by {
                    assert(0 <= before[i] < front.len());
                }
            }
        }
        assert forall|i: int| 0 <= i < at.len() implies 0 <= #[trigger] at[i] < list.len()
            && wanted_rows(query, list)[i] == filter::projection(list[at[i]], query.select) by {
            if i < before.len() {
                assert(0 <= before[i] < front.len());
                assert(list[before[i]] == front[before[i]]);
            }
        }
        assert forall|i: int, j: int| 0 <= i < j < at.len() implies #[trigger] at[i]
            < #[trigger] at[j] by {
            if j < before.len() {
                assert(before[i] < before[j]);
            } else {
                assert(0 <= before[i] < front.len());
            }
        }
        at
    }
}

/// Whether a query wants a row, written out.
proof fn lemma_wanted_written_out(query: QueryView, row: JsonView)
    ensures
        wanted(query, row) <==> {
            &&& match json_path::value_at(row, seq!["createdAt"@]) {
                Some(JsonView::Text(c)) => !text::text_lt(c, query.start) && !text::text_lt(
                    query.end,
                    c,
                ),
                _ => query.start.len() == 0,
            }
            &&& forall|f: int|
                0 <= f < query.filters.len() ==> (json_path::cell_text(
                    json_path::path_value(row, (#[trigger] query.filters[f]).path),
                ) == query.filters[f].value <==> query.filters[f].op == filter::FilterOp::Eq)
        },
{
    let empty: Seq<char> = seq![];
    assert(!text::text_lt(query.end, empty));
    assert(filter::meets_all(row, query.filters) <==> forall|f: int|
        0 <= f < query.filters.len() ==> (json_path::cell_text(
            json_path::path_value(row, (#[trigger] query.filters[f]).path),
        ) == query.filters[f].value <==> query.filters[f].op == filter::FilterOp::Eq)) by {
        if filter::meets_all(row, query.filters) {
            assert forall|f: int| 0 <= f < query.filters.len() implies (json_path::cell_text(
                json_path::path_value(row, (#[trigger] query.filters[f]).path),
            ) == query.filters[f].value <==> query.filters[f].op == filter::FilterOp::Eq) by {
                assert(filter::meets(row, query.filters[f]));
            }
        }
    }
}

/// The rows that a page counts as in time are those within the bounds: counting goes row by row.
pub proof fn law_counts_go_row_by_row(query: QueryView, list: Seq<JsonView>, more: Seq<JsonView>)
    ensures
        count_in_time(query, list + more) == count_in_time(query, list) + count_in_time(query, more),
        list.len() == 1 ==> count_in_time(query, list) == match json_path::value_at(
            list[0],
            seq!["createdAt"@],
        ) {
            Some(JsonView::Text(c)) => if text::text_lt(c, query.start) || text::text_lt(
                query.end,
                c,
            ) {
                0nat
            } else {
                1nat
            },
            _ => if query.start.len() == 0 {
                1nat
            } else {
                0nat
            },
        },
    decreases more.len(),
{
    if more.len() == 0 {
        assert(list + more =~= list);
    } else {
        law_counts_go_row_by_row(query, list, more.drop_last());
        assert((list + more).drop_last() =~= list + more.drop_last());
    }
    if list.len() == 1 {
        let empty: Seq<char> = seq![];
        assert(!text::text_lt(query.end, empty));
        assert(list.drop_last() =~= Seq::<JsonView>::empty());
        reveal_with_fuel(count_in_time, 2);
    }
}

/// What a page adds to a fetch: its kept rows behind the others, itself to the pages, its rows to the
/// rows seen, and to the other counts those within the bounds and those kept. The rows of a page are
/// the items of its list `data`, none where it has no such list.
pub proof fn law_pages_add_up(query: QueryView, fetch: FetchView, page: JsonView, list: Seq<JsonView>)
    requires
        match json_path::value_at(page, seq!["data"@]) {
            Some(JsonView::Array(items)) => list == items,
            _ => list.len() == 0,
        },
    ensures
        ({
            let after = with_page(query, fetch, page);
            &&& after.rows == fetch.rows + wanted_rows(query, list)
            &&& after.pages == fetch.pages + 1
            &&& after.api_rows == fetch.api_rows + list.len()
            &&& after.time_rows == fetch.time_rows + count_in_time(query, list)
            &&& after.matched_rows == fetch.matched_rows + wanted_rows(query, list).len()
        }),
{
    assert(page_rows(page) =~= list);
}

/// Which page comes next: the next one of the same event where the page had rows, none of them from
/// before the start of the query, announced more pages than its own number in `meta.pages`, and the
/// limit allows it; else the first page of the next event, unless no first page is allowed.
pub proof fn law_next_page(query: QueryView, fetch: FetchView, page: JsonView, list: Seq<JsonView>)
    requires
        fetch.event < query.events.len(),
        fetch.page >= 1,
        query.max_pages matches Some(most) ==> fetch.page <= most,
        match json_path::value_at(page, seq!["data"@]) {
            Some(JsonView::Array(items)) => list == items,
            _ => list.len() == 0,
        },
    ensures
        ({
            let goes_on = {
                &&& list.len() > 0
                &&& forall|j: int|
                    0 <= j < list.len() ==> match json_path::value_at(
                        #[trigger] list[j],
                        seq!["createdAt"@],
                    ) {
                        Some(JsonView::Text(c)) => !text::text_lt(c, query.start),
                        _ => query.start.len() == 0,
                    }
                &&& json_path::value_at(page, seq!["meta"@, "pages"@]) matches Some(
                    JsonView::Number(NumeralView::Unsigned(n)),
                ) && fetch.page < n
                &&& query.max_pages matches Some(most) ==> fetch.page < most
            };
            let next = settled(query, with_page(query, fetch, page));
            if goes_on {
                next.event == fetch.event && next.page == fetch.page + 1
            } else {
                next.event == fetch.event + 1 && next.page == 1
            }
        }),
{
    assert(page_rows(page) =~= list);
    assert(reaches_back(query, list) <==> exists|j: int|
        0 <= j < list.len() && !(match json_path::value_at(
            #[trigger] list[j],
            seq!["createdAt"@],
        ) {
            Some(JsonView::Text(c)) => !text::text_lt(c, query.start),
            _ => query.start.len() == 0,
        })) by {
        if reaches_back(query, list) {
            let j = choose|j: int| 0 <= j < list.len() && too_old(query, #[trigger] list[j]);
            assert(too_old(query, list[j]));
        }
        assert forall|j: int|
            0 <= j < list.len() && !(match json_path::value_at(
                #[trigger] list[j],
                seq!["createdAt"@],
            ) {
                Some(JsonView::Text(c)) => !text::text_lt(c, query.start),
                _ => query.start.len() == 0,
            }) implies reaches_back(query, list) by {
            assert(too_old(query, list[j]));
        }
    }
    let after = with_page(query, fetch, page);
    reveal_with_fuel(settled, 3);
}

/// A fetch begins with the first page of the first event, and where the limit is no page at all asks for
/// none.
pub proof fn law_first_page(query: QueryView)
    ensures
        query.max_pages != Some(0usize) ==> settled(query, fetch_start()) == fetch_start(),
        query.max_pages == Some(0usize) ==> settled(query, fetch_start()).event
            == query.events.len(),
        fetch_start().event == 0 && fetch_start().page == 1 && fetch_start().rows.len() == 0,
{
    if query.max_pages == Some(0usize) {
        lemma_barred_ends(query, fetch_start());
    }
}

/// Where no page may be asked for, a fetch ends right behind the events.
proof fn lemma_barred_ends(query: QueryView, fetch: FetchView)
    requires
        fetch.page == 1,
        fetch.event <= query.events.len(),
        query.max_pages == Some(0usize),
    ensures
        settled(query, fetch).event == query.events.len(),
    decreases query.events.len() - fetch.event,
{
    if fetch.event < query.events.len() {
        lemma_barred_ends(query, FetchView { event: fetch.event + 1, page: 1, ..fetch });
    }
}

/// A dry run shows one request for each event, in their order: the one for its first page.
pub proof fn law_dry_runs_show_each_event(query: QueryView, i: int)
    requires
        query.max_pages != Some(0usize),
        0 <= i < query.events.len(),
    ensures
        first_pages(query).len() == query.events.len(),
        first_pages(query)[i].path == "export/events"@,
        first_pages(query)[i].pairs == query::page_pairs(
            query,
            query.events[i],
            1,
            query::asks_properties(query),
        ),
{
}

} // verus!
