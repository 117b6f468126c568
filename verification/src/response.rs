//! Responses: what is shown of one, and when it is an error.

use crate::error::CliError;
use crate::fetch;
use crate::json::{self, Json, JsonView, Members, Numeral, NumeralView};
use crate::json_path::{self, get_member, parse_json};
use crate::json_text::{self, write_json};
use crate::numeral::{self, write_decimal};
use crate::query;
use crate::retry::{self, auth_error_hint, is_success};
use crate::rows::{self, created_at};
use crate::text::{self, before, same};
use vstd::prelude::*;
use vstd::string::StringExecFns;

verus! {

broadcast use crate::json::lemma_view;

/// Reads the body of a response, which is given where it is text.
pub fn decode_body(body: Option<&str>) -> (r: Result<Json, CliError>)
    ensures
        match r {
            Ok(v) => body matches Some(text) && json_text::json_value(text@) == Ok::<
                JsonView,
                Seq<char>,
            >(v@),
            Err(e) => e@ == "decode json"@ && (body matches Some(text) ==> json_text::json_value(
                text@,
            ) is Err),
        },
{
    match body {
        Some(text) => parse_json(text, "decode json"),
        None => Err(CliError::new("decode json")),
    }
}

/// The values of the headers with a name, in their order.
pub open spec fn header_values(headers: Seq<(Seq<char>, Seq<char>)>, name: Seq<char>) -> Seq<JsonView>
    decreases headers.len(),
{
    if headers.len() == 0 {
        seq![]
    } else {
        let before = header_values(headers.drop_last(), name);
        if headers.last().0 == name {
            before.push(JsonView::Text(headers.last().1))
        } else {
            before
        }
    }
}

/// Headers by their names: each with the list of its values.
pub open spec fn header_map(headers: Seq<(Seq<char>, Seq<char>)>) -> Map<Seq<char>, JsonView> {
    Map::new(
        |name: Seq<char>| header_values(headers, name).len() > 0,
        |name: Seq<char>| JsonView::Array(header_values(headers, name)),
    )
}

/// Collects headers by their names.
fn collect_headers(headers: &Vec<(String, String)>) -> (r: Members)
    ensures
        r@ == header_map(query::pair_views(headers@)),
{
    let mut out = Members::new();
    let ghost all = query::pair_views(headers@);
    let mut i: usize = 0;
    proof {
        assert(all.take(0) =~= seq![]);
        assert(out@ =~= header_map(all.take(0)));
    }
    while i < headers.len()
        invariant
            i <= headers@.len(),
            all == query::pair_views(headers@),
            out@ == header_map(all.take(i as int)),
        decreases headers@.len() - i,
    {
        let ghost seen = all.take(i as int);
        let ghost next = all.take(i + 1);
        let name = &headers[i].0;
        proof {
            assert(next.drop_last() =~= seen);
            assert(next.last() == (headers@[i as int].0@, headers@[i as int].1@));
        }
        let (others, found) = out.take(name.as_str());
        let mut values: Vec<Json> = match found {
            Some(Json::Array(values)) => values,
            _ => Vec::new(),
        };
        proof {
            if !header_map(seen).contains_key(name@) {
                json::lemma_trees(values@);
                assert(header_values(seen, name@) =~= seq![]);
                assert(json::trees(values@) =~= seq![]);
            }
            assert(json::trees(values@) == header_values(seen, name@));
        }
        let value = Json::Text(headers[i].1.clone());
        proof {
            json::lemma_trees_push(values@, value);
        }
        values.push(value);
        out = others.insert(name.clone(), Json::Array(values));
        proof {
            assert(header_values(next, name@) == header_values(seen, name@).push(value@));
            assert forall|k: Seq<char>| k != name@ implies header_values(next, k) == header_values(
                seen,
                k,
            ) by {}
            assert(out@ =~= header_map(next));
        }
        i = i + 1;
    }
    proof {
        assert(all.take(i as int) =~= all);
    }
    out
}

/// A whole response as a JSON value.
pub open spec fn response_tree(
    status: u16,
    headers: Seq<(Seq<char>, Seq<char>)>,
    body: JsonView,
) -> JsonView {
    JsonView::Object(
        map![
            "status"@ => JsonView::Number(NumeralView::Unsigned(status as u64)),
            "headers"@ => JsonView::Object(header_map(headers)),
            "body"@ => body,
        ],
    )
}

/// What becomes of a response: what is shown of it, whether diagnostics of its page are shown before,
/// and the error that it is.
#[derive(Debug, PartialEq, Eq)]
pub struct Outcome {
    pub shown: Json,
    pub diagnose: bool,
    pub error: Option<CliError>,
}

/// What becomes of a response.
#[verifier::ext_equal]
pub struct OutcomeView {
    pub shown: JsonView,
    pub diagnose: bool,
    pub error: Option<Seq<char>>,
}

impl View for Outcome {
    type V = OutcomeView;

    open spec fn view(&self) -> OutcomeView {
        OutcomeView {
            shown: self.shown@,
            diagnose: self.diagnose,
            error: match self.error {
                Some(e) => Some(e@),
                None => None,
            },
        }
    }
}

/// What was asked for: the resource and the operation, the response as it came, diagnostics of the page.
#[derive(Debug, PartialEq, Eq)]
pub struct Asked<'a> {
    pub resource: &'a str,
    pub op: &'a str,
    pub raw: bool,
    pub diagnostics: bool,
}

/// What becomes of a response: where it is asked for raw, it is shown whole. A status that is no
/// success is an error after that, with a hint where the response is not raw. Diagnostics are shown of
/// a page of exported events, where they are asked for, unless the response is raw or an error.
pub open spec fn outcome_of(
    asked: Asked,
    status: u16,
    status_text: Seq<char>,
    headers: Seq<(Seq<char>, Seq<char>)>,
    body: JsonView,
) -> OutcomeView {
    let success = 200 <= status < 300;
    OutcomeView {
        shown: if asked.raw {
            response_tree(status, headers, body)
        } else {
            body
        },
        diagnose: success && !asked.raw && asked.resource@ == "export"@ && asked.op@ == "events"@
            && asked.diagnostics,
        error: if success {
            None
        } else if asked.raw {
            Some("http "@ + status_text)
        } else {
            Some("http "@ + status_text + retry::refusal_hint(asked.resource@, status))
        },
    }
}

/// Decides what becomes of a response.
pub fn judge_response(
    asked: &Asked,
    status: u16,
    status_text: &str,
    headers: &Vec<(String, String)>,
    body: Json,
) -> (r: Outcome)
    ensures
        r@ == outcome_of(*asked, status, status_text@, query::pair_views(headers@), body@),
{
    let success = is_success(status);
    let error = if success {
        None
    } else {
        let mut message = "http ".to_string();
        message.append(status_text);
        if !asked.raw {
            message.append(auth_error_hint(asked.resource, status));
        }
        Some(CliError::of(message))
    };
    let shown = if asked.raw {
        Json::Object(
            Members::new().insert(
                "status".to_string(),
                Json::Number(Numeral::Unsigned(status as u64)),
            ).insert("headers".to_string(), Json::Object(collect_headers(headers))).insert(
                "body".to_string(),
                body,
            ),
        )
    } else {
        body
    };
    let diagnose = success && !asked.raw && same(asked.resource, "export") && same(
        asked.op,
        "events",
    ) && asked.diagnostics;
    Outcome { shown, diagnose, error }
}

/// Whether a row was created outside of a window; an open end leaves nothing out.
pub open spec fn outside(row: JsonView, start: Option<Seq<char>>, end: Option<Seq<char>>) -> bool {
    ||| start matches Some(s) && text::text_lt(rows::created(row), s)
    ||| end matches Some(e) && text::text_lt(e, rows::created(row))
}

/// The number of rows that were created outside of a window.
pub open spec fn count_outside(
    list: Seq<JsonView>,
    start: Option<Seq<char>>,
    end: Option<Seq<char>>,
) -> nat
    decreases list.len(),
{
    if list.len() == 0 {
        0
    } else {
        count_outside(list.drop_last(), start, end) + if outside(list.last(), start, end) {
            1nat
        } else {
            0nat
        }
    }
}

/// There are no more rows outside of a window than rows.
proof fn lemma_count_outside(list: Seq<JsonView>, start: Option<Seq<char>>, end: Option<Seq<char>>)
    ensures
        count_outside(list, start, end) <= list.len(),
    decreases list.len(),
{
    if list.len() > 0 {
        lemma_count_outside(list.drop_last(), start, end);
    }
}

/// The diagnostics of a page of events, given the text of its `meta` member.
pub open spec fn page_diagnostics(
    meta: Seq<char>,
    list: Seq<JsonView>,
    start: Option<Seq<char>>,
    end: Option<Seq<char>>,
) -> Seq<char> {
    "pagination: meta="@ + meta + " rows="@ + numeral::decimal(list.len())
        + " outside_requested_window="@ + numeral::decimal(count_outside(list, start, end))
}

/// Counts the rows that were created outside of a window.
fn count_rows_outside(list: &Vec<Json>, start: Option<&str>, end: Option<&str>) -> (r: usize)
    ensures
        r == count_outside(json::trees(list@), text::text_of(start), text::text_of(end)),
{
    let ghost all = json::trees(list@);
    proof {
        json::lemma_trees(list@);
        assert(all.take(0) =~= seq![]);
    }
    let mut count: usize = 0;
    let mut i: usize = 0;
    while i < list.len()
        invariant
            i <= list@.len(),
            all == json::trees(list@),
            all.len() == list@.len(),
            forall|j: int| 0 <= j < list@.len() ==> #[trigger] all[j] == list@[j]@,
            count == count_outside(all.take(i as int), text::text_of(start), text::text_of(end)),
        decreases list@.len() - i,
    {
        let row = &list[i];
        proof {
            assert(all[i as int] == row@);
            assert(all.take(i + 1).drop_last() =~= all.take(i as int));
            assert(all.take(i + 1).last() == row@);
            lemma_count_outside(all.take(i as int), text::text_of(start), text::text_of(end));
        }
        let created = created_at(row);
        let early = match start {
            Some(s) => before(created, s),
            None => false,
        };
        let late = match end {
            Some(e) => before(e, created),
            None => false,
        };
        if early || late {
            count = count + 1;
        }
        i = i + 1;
    }
    proof {
        assert(all.take(i as int) =~= all);
    }
    count
}

/// Writes the diagnostics of a page of events, given the text of its `meta` member.
pub fn write_page_diagnostics(
    meta: &str,
    page: &Json,
    start: Option<&str>,
    end: Option<&str>,
) -> (r: String)
    ensures
        r@ == page_diagnostics(
            meta@,
            fetch::page_rows(page@),
            text::text_of(start),
            text::text_of(end),
        ),
{
    let none: Vec<Json> = Vec::new();
    proof {
        json::lemma_trees(none@);
        assert(json::trees(none@) =~= seq![]);
        reveal_with_fuel(json_path::value_at, 2);
    }
    let list = match get_member(page, "data") {
        Some(Json::Array(list)) => list,
        _ => &none,
    };
    proof {
        json::lemma_trees(list@);
        assert(list.len() == list@.len());
    }
    let mut line = "pagination: meta=".to_string();
    line.append(meta);
    line.append(" rows=");
    line.append(write_decimal(list.len() as u64).as_str());
    line.append(" outside_requested_window=");
    line.append(write_decimal(count_rows_outside(list, start, end) as u64).as_str());
    line
}

/// What stands under a page's `meta` member.
pub open spec fn meta_of(page: JsonView) -> JsonView {
    match json_path::value_at(page, seq!["meta"@]) {
        Some(meta) => meta,
        None => JsonView::Null,
    }
}

/// Writes the diagnostics of a page of events.
pub fn diagnose_page(page: &Json, start: Option<&str>, end: Option<&str>) -> (r: Result<
    String,
    CliError,
>)
    ensures
        match r {
            Ok(line) => json_text::json_text(meta_of(page@)) matches Ok(meta) && line@
                == page_diagnostics(
                meta,
                fetch::page_rows(page@),
                text::text_of(start),
                text::text_of(end),
            ),
            Err(e) => json_text::json_text(meta_of(page@)) == Err::<Seq<char>, Seq<char>>(e@),
        },
{
    proof {
        reveal_with_fuel(json_path::value_at, 2);
    }
    let written = match get_member(page, "meta") {
        Some(meta) => write_json(meta),
        None => write_json(&Json::Null),
    };
    match written {
        Ok(meta) => Ok(write_page_diagnostics(meta.as_str(), page, start, end)),
        Err(e) => Err(CliError::of(e)),
    }
}

/// What comes over a web socket.
#[derive(Debug, PartialEq, Eq)]
pub enum Frame {
    Text(String),
    Binary(usize),
    Close,
    Other,
}

/// What is done with what comes over a web socket.
#[derive(Debug, PartialEq, Eq)]
pub enum FrameAction {
    Print(String),
    Stop,
    Ignore,
}

/// Decides what is done with what comes over a web socket: texts are printed, and the number of bytes
/// of anything else; the end of the connection is the end.
pub fn on_frame(frame: Frame) -> (r: FrameAction)
    ensures
        match frame {
            Frame::Text(text) => r == FrameAction::Print(text),
            Frame::Binary(len) => r matches FrameAction::Print(line) && line@ == "binary: "@
                + numeral::decimal(len as nat) + " bytes"@,
            Frame::Close => r is Stop,
            Frame::Other => r is Ignore,
        },
{
    match frame {
        Frame::Text(text) => FrameAction::Print(text),
        Frame::Binary(len) => {
            let mut line = "binary: ".to_string();
            line.append(write_decimal(len as u64).as_str());
            line.append(" bytes");
            FrameAction::Print(line)
        },
        Frame::Close => FrameAction::Stop,
        Frame::Other => FrameAction::Ignore,
    }
}

/// The values of a header are picked out header by header, in their order: those with its name, and no
/// others.
pub proof fn law_header_values_go_one_by_one(
    some: Seq<(Seq<char>, Seq<char>)>,
    more: Seq<(Seq<char>, Seq<char>)>,
    name: Seq<char>,
)
    ensures
        header_values(some + more, name) == header_values(some, name) + header_values(more, name),
        some.len() == 1 ==> header_values(some, name) == if some[0].0 == name {
            seq![JsonView::Text(some[0].1)]
        } else {
            Seq::<JsonView>::empty()
        },
    decreases more.len(),
{
    if more.len() == 0 {
        assert(some + more =~= some);
        assert(header_values(some, name) + header_values(more, name) =~= header_values(some, name));
    } else {
        law_header_values_go_one_by_one(some, more.drop_last(), name);
        assert((some + more).drop_last() =~= some + more.drop_last());
        assert(header_values(some + more, name) =~= header_values(some, name) + header_values(
            more,
            name,
        ));
    }
    if some.len() == 1 {
        assert(some.drop_last() =~= Seq::<(Seq<char>, Seq<char>)>::empty());
        reveal_with_fuel(header_values, 2);
        assert(Seq::<JsonView>::empty().push(JsonView::Text(some[0].1)) =~= seq![
            JsonView::Text(some[0].1),
        ]);
    }
}

/// A raw response is shown whole: its status, under each name of a header the list of its values, and its
/// body. Any other is shown as its body alone.
pub proof fn law_responses_are_shown(
    asked: Asked,
    status: u16,
    status_text: Seq<char>,
    headers: Seq<(Seq<char>, Seq<char>)>,
    body: JsonView,
    name: Seq<char>,
)
    ensures
        ({
            let shown = outcome_of(asked, status, status_text, headers, body).shown;
            if asked.raw {
                &&& json_path::value_at(shown, seq!["status"@]) == Some(
                    JsonView::Number(NumeralView::Unsigned(status as u64)),
                )
                &&& json_path::value_at(shown, seq!["headers"@, name]) == if header_values(
                    headers,
                    name,
                ).len() > 0 {
                    Some(JsonView::Array(header_values(headers, name)))
                } else {
                    None
                }
                &&& json_path::value_at(shown, seq!["body"@]) == Some(body)
            } else {
                shown == body
            }
        }),
{
    reveal_strlit("status");
    reveal_strlit("headers");
    reveal_strlit("body");
    assert("status"@.len() == 6 && "headers"@.len() == 7 && "body"@.len() == 4);
    reveal_with_fuel(json_path::value_at, 3);
    assert(seq!["status"@].drop_first() =~= Seq::<Seq<char>>::empty());
    assert(seq!["body"@].drop_first() =~= Seq::<Seq<char>>::empty());
    assert(seq!["headers"@, name].drop_first() =~= seq![name]);
    assert(seq![name].drop_first() =~= Seq::<Seq<char>>::empty());
}

/// A response is an error exactly where its status is not one from 200 to 299; the message begins with
/// the status, and has a hint behind it only where the response is not raw. Diagnostics are shown exactly
/// of a page of exported events that is neither raw nor an error, where they were asked for.
pub proof fn law_responses_are_judged(
    asked: Asked,
    status: u16,
    status_text: Seq<char>,
    headers: Seq<(Seq<char>, Seq<char>)>,
    body: JsonView,
)
    ensures
        ({
            let outcome = outcome_of(asked, status, status_text, headers, body);
            &&& outcome.error is None <==> 200 <= status <= 299
            &&& outcome.error matches Some(e) ==> e == "http "@ + status_text + if asked.raw {
                Seq::<char>::empty()
            } else {
                retry::refusal_hint(asked.resource@, status)
            }
            &&& outcome.diagnose <==> asked.diagnostics && !asked.raw && 200 <= status <= 299
                && asked.resource@ == "export"@ && asked.op@ == "events"@
        }),
{
    assert("http "@ + status_text + Seq::<char>::empty() =~= "http "@ + status_text);
}

/// The rows outside of a window are counted row by row: those whose `createdAt` stands before the start
/// or behind the end, where there is one.
pub proof fn law_rows_outside_are_counted(
    list: Seq<JsonView>,
    more: Seq<JsonView>,
    start: Seq<char>,
    end: Seq<char>,
)
    ensures
        count_outside(list + more, Some(start), Some(end)) == count_outside(
            list,
            Some(start),
            Some(end),
        ) + count_outside(more, Some(start), Some(end)),
        list.len() == 1 ==> count_outside(list, Some(start), Some(end)) == match json_path::value_at(
            list[0],
            seq!["createdAt"@],
        ) {
            Some(JsonView::Text(c)) => if text::text_lt(c, start) || text::text_lt(end, c) {
                1nat
            } else {
                0nat
            },
            _ => if start.len() > 0 {
                1nat
            } else {
                0nat
            },
        },
        count_outside(list, None, None) == 0,
    decreases more.len() + list.len(),
{
    if more.len() == 0 {
        assert(list + more =~= list);
    } else {
        law_rows_outside_are_counted(list, more.drop_last(), start, end);
        assert((list + more).drop_last() =~= list + more.drop_last());
    }
    if list.len() == 1 {
        let empty: Seq<char> = seq![];
        assert(!text::text_lt(end, empty));
        assert(list.drop_last() =~= Seq::<JsonView>::empty());
        reveal_with_fuel(count_outside, 2);
    }
    lemma_none_outside(list);
}

/// A window without bounds leaves no row out.
proof fn lemma_none_outside(list: Seq<JsonView>)
    ensures
        count_outside(list, None, None) == 0,
    decreases list.len(),
{
    if list.len() > 0 {
        lemma_none_outside(list.drop_last());
    }
}

} // verus!
