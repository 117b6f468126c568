//! Event queries: from command-line arguments to a checked query.

use crate::error::CliError;
use crate::fields::{self, split_csv, split_csv_required};
use crate::filter::{self, parse_where, Filter, FilterView};
use crate::numeral::{self, write_decimal};
use crate::pattern::{self, starts_with};
use crate::text::{self, copy_texts};
use crate::time_window::{self, local_day_window, normalize_rfc3339_bound};
use vstd::prelude::*;

verus! {

/// The arguments of an event query, as they were given.
#[derive(Debug, PartialEq, Eq)]
pub struct QueryArgs {
    pub project_id: Option<String>,
    pub events: Option<String>,
    pub start: Option<String>,
    pub end: Option<String>,
    pub day: Option<String>,
    pub tz_offset: Option<String>,
    pub where_clause: Option<String>,
    pub select: Option<String>,
    pub format: Option<String>,
    pub output: Option<String>,
    pub limit: Option<usize>,
    pub max_pages: Option<usize>,
    pub debug: bool,
}

/// A query for events.
#[derive(Debug, PartialEq, Eq)]
pub struct EventQuery {
    pub project_id: String,
    pub events: Vec<String>,
    pub start: String,
    pub end: String,
    pub filters: Vec<Filter>,
    pub select: Vec<String>,
    pub format: String,
    pub output: Option<String>,
    pub limit: usize,
    pub max_pages: Option<usize>,
    pub debug: bool,
}

/// What a query asks for.
#[verifier::ext_equal]
pub struct QueryView {
    pub project_id: Seq<char>,
    pub events: Seq<Seq<char>>,
    pub start: Seq<char>,
    pub end: Seq<char>,
    pub filters: Seq<FilterView>,
    pub select: Seq<Seq<char>>,
    pub format: Seq<char>,
    pub output: Option<Seq<char>>,
    pub limit: usize,
    pub max_pages: Option<usize>,
    pub debug: bool,
}

impl View for EventQuery {
    type V = QueryView;

    open spec fn view(&self) -> QueryView {
        QueryView {
            project_id: self.project_id@,
            events: text::texts(self.events@),
            start: self.start@,
            end: self.end@,
            filters: filter::filter_views(self.filters@),
            select: text::texts(self.select@),
            format: self.format@,
            output: text::owned_text(self.output),
            limit: self.limit,
            max_pages: self.max_pages,
            debug: self.debug,
        }
    }
}

/// The steps, the selection and the format that a funnel sets for its query.
pub struct FunnelDefaults<'a> {
    pub steps: &'a Vec<String>,
    pub select: &'a str,
    pub format: &'a str,
}

/// The offset of a query's day from UTC.
pub open spec fn offset_of(args: QueryArgs) -> Seq<char> {
    match args.tz_offset {
        Some(offset) => offset@,
        None => "+00:00"@,
    }
}

/// The first and the last moment of a query, or the message of the fault: a local day where one is
/// given, else a start and an end.
pub open spec fn time_bounds(args: QueryArgs) -> Result<(Seq<char>, Seq<char>), Seq<char>> {
    match args.day {
        Some(day) => time_window::day_window(day@, offset_of(args)),
        None => match args.start {
            None => Err("--start or --day required"@),
            Some(start) => match args.end {
                None => Err("--end or --day required"@),
                Some(end) => Ok(
                    (
                        time_window::bound_text(start@, false),
                        time_window::bound_text(end@, true),
                    ),
                ),
            },
        },
    }
}

/// Whether the time bounds of a query can be computed.
pub open spec fn bounds_fit(args: QueryArgs) -> bool {
    args.day matches Some(day) ==> time_window::window_fits(day@, offset_of(args))
}

/// Finds the first and the last moment of a query.
pub fn parse_time_window(args: &QueryArgs) -> (r: Result<(String, String), CliError>)
    requires
        bounds_fit(*args),
    ensures
        match r {
            Ok(w) => time_bounds(*args) == Ok::<(Seq<char>, Seq<char>), Seq<char>>((w.0@, w.1@)),
            Err(e) => time_bounds(*args) == Err::<(Seq<char>, Seq<char>), Seq<char>>(e@),
        },
{
    if let Some(day) = &args.day {
        let offset = match &args.tz_offset {
            Some(offset) => offset.as_str(),
            None => "+00:00",
        };
        return local_day_window(day.as_str(), offset);
    }
    let start = match &args.start {
        Some(start) => start,
        None => return Err(CliError::new("--start or --day required")),
    };
    let end = match &args.end {
        Some(end) => end,
        None => return Err(CliError::new("--end or --day required")),
    };
    Ok(
        (
            normalize_rfc3339_bound(start.as_str(), false),
            normalize_rfc3339_bound(end.as_str(), true),
        ),
    )
}

/// Whether the time bounds of a query can be computed: the condition that `parse_time_window` asks for.
pub fn query_bounds_fit(args: &QueryArgs) -> (r: bool)
    ensures
        r == bounds_fit(*args),
{
    match &args.day {
        Some(day) => {
            let offset = match &args.tz_offset {
                Some(offset) => offset.as_str(),
                None => "+00:00",
            };
            time_window::day_window_fits(day.as_str(), offset)
        },
        None => true,
    }
}

/// The events that a query asks for, or the message that asks for them.
pub open spec fn wanted_events(args: QueryArgs, funnel: Option<FunnelDefaults>) -> Result<
    Seq<Seq<char>>,
    Seq<char>,
> {
    match funnel {
        Some(f) => Ok(text::texts(f.steps@)),
        None => fields::required_fields(text::owned_text(args.events), "events"@),
    }
}

/// The fields that a query selects.
pub open spec fn wanted_fields(args: QueryArgs, funnel: Option<FunnelDefaults>) -> Seq<Seq<char>> {
    match funnel {
        Some(f) => fields::csv_fields(f.select@),
        None => match args.select {
            Some(s) => fields::csv_fields(s@),
            None => seq![],
        },
    }
}

/// The format that a query is written in.
pub open spec fn wanted_format(args: QueryArgs, funnel: Option<FunnelDefaults>) -> Seq<char> {
    match funnel {
        Some(f) => f.format@,
        None => match args.format {
            Some(s) => s@,
            None => "jsonl"@,
        },
    }
}

/// The number of rows of a page: from 1 to 1000, and 1000 where nothing is said.
pub open spec fn page_limit(limit: Option<usize>) -> usize {
    match limit {
        None => 1000,
        Some(n) => if n < 1 {
            1
        } else if n > 1000 {
            1000
        } else {
            n
        },
    }
}

/// The query that arguments ask for, or the message of the first fault.
pub open spec fn event_query(args: QueryArgs, funnel: Option<FunnelDefaults>) -> Result<
    QueryView,
    Seq<char>,
> {
    match args.project_id {
        None => Err("--project-id required"@),
        Some(project_id) => match wanted_events(args, funnel) {
            Err(e) => Err(e),
            Ok(events) => match time_bounds(args) {
                Err(e) => Err(e),
                Ok(bounds) => match filter::where_filters(text::owned_text(args.where_clause)) {
                    Err(e) => Err(e),
                    Ok(filters) => Ok(
                        QueryView {
                            project_id: project_id@,
                            events,
                            start: bounds.0,
                            end: bounds.1,
                            filters,
                            select: wanted_fields(args, funnel),
                            format: wanted_format(args, funnel),
                            output: text::owned_text(args.output),
                            limit: page_limit(args.limit),
                            max_pages: args.max_pages,
                            debug: args.debug,
                        },
                    ),
                },
            },
        },
    }
}

/// A slice of an optional string.
pub fn as_text(s: &Option<String>) -> (r: Option<&str>)
    ensures
        text::text_of(r) == text::owned_text(*s),
{
    match s {
        Some(s) => Some(s.as_str()),
        None => None,
    }
}

/// A copy of an optional string.
pub fn copy_text(s: &Option<String>) -> (r: Option<String>)
    ensures
        text::owned_text(r) == text::owned_text(*s),
{
    match s {
        Some(s) => Some(s.clone()),
        None => None,
    }
}

/// Whether the time bounds can be computed where they are needed: a missing project and missing events
/// are found first.
pub open spec fn query_fits(args: QueryArgs, funnel: Option<FunnelDefaults>) -> bool {
    args.project_id is Some && wanted_events(args, funnel) is Ok ==> bounds_fit(args)
}

/// Tells whether the time bounds can be computed where they are needed: the condition that
/// `parse_event_query` asks for.
pub fn can_parse_query(args: &QueryArgs, funnel_defaults: &Option<FunnelDefaults>) -> (r: bool)
    ensures
        r == query_fits(*args, *funnel_defaults),
{
    let complete = args.project_id.is_some() && (funnel_defaults.is_some() || split_csv_required(
        as_text(&args.events),
        "events",
    ).is_ok());
    !complete || query_bounds_fit(args)
}

/// Makes a query of arguments; a funnel sets the events, the selection and the format itself.
pub fn parse_event_query(args: &QueryArgs, funnel_defaults: Option<FunnelDefaults>) -> (r: Result<
    EventQuery,
    CliError,
>)
    requires
        query_fits(*args, funnel_defaults),
    ensures
        match r {
            Ok(q) => event_query(*args, funnel_defaults) == Ok::<QueryView, Seq<char>>(q@),
            Err(e) => event_query(*args, funnel_defaults) == Err::<QueryView, Seq<char>>(e@),
        },
{
    let project_id = match &args.project_id {
        Some(id) => id.clone(),
        None => return Err(CliError::new("--project-id required")),
    };
    let events = match &funnel_defaults {
        Some(f) => copy_texts(f.steps),
        None => match split_csv_required(as_text(&args.events), "events") {
            Ok(events) => events,
            Err(e) => return Err(e),
        },
    };
    let (start, end) = match parse_time_window(args) {
        Ok(w) => w,
        Err(e) => return Err(e),
    };
    let filters = match parse_where(as_text(&args.where_clause)) {
        Ok(filters) => filters,
        Err(e) => return Err(e),
    };
    let select = match &funnel_defaults {
        Some(f) => split_csv(f.select),
        None => match &args.select {
            Some(s) => split_csv(s.as_str()),
            None => Vec::new(),
        },
    };
    proof {
        assert(text::texts(select@) =~= wanted_fields(*args, funnel_defaults));
    }
    let format = match &funnel_defaults {
        Some(f) => f.format.to_string(),
        None => match &args.format {
            Some(s) => s.clone(),
            None => "jsonl".to_string(),
        },
    };
    let limit: usize = match args.limit {
        None => 1000,
        Some(n) => if n < 1 {
            1
        } else if n > 1000 {
            1000
        } else {
            n
        },
    };
    let query = EventQuery {
        project_id,
        events,
        start,
        end,
        filters,
        select,
        format,
        output: copy_text(&args.output),
        limit,
        max_pages: args.max_pages,
        debug: args.debug,
    };
    proof {
        assert(Ok::<QueryView, Seq<char>>(query@) =~= event_query(*args, funnel_defaults));
    }
    Ok(query)
}

/// Whether any text of a list begins with `properties.`.
pub open spec fn any_property(paths: Seq<Seq<char>>) -> bool {
    exists|i: int| 0 <= i < paths.len() && pattern::begins(#[trigger] paths[i], "properties."@)
}

/// Whether a query looks into the properties of events, in what it selects or in its filters.
pub open spec fn asks_properties(query: QueryView) -> bool {
    ||| any_property(query.select)
    ||| exists|i: int|
        0 <= i < query.filters.len() && pattern::begins(
            (#[trigger] query.filters[i]).path,
            "properties."@,
        )
}

/// Whether a query needs the properties of events.
pub fn needs_properties(query: &EventQuery) -> (r: bool)
    ensures
        r == asks_properties(query@),
{
    let mut i: usize = 0;
    while i < query.select.len()
        invariant
            i <= query.select@.len(),
            forall|j: int|
                0 <= j < i ==> !pattern::begins(#[trigger] query@.select[j], "properties."@),
        decreases query.select@.len() - i,
    {
        if starts_with(query.select[i].as_str(), "properties.") {
            assert(pattern::begins(query@.select[i as int], "properties."@));
            return true;
        }
        i = i + 1;
    }
    let mut k: usize = 0;
    while k < query.filters.len()
        invariant
            k <= query.filters@.len(),
            forall|j: int|
                0 <= j < k ==> !pattern::begins(
                    (#[trigger] query@.filters[j]).path,
                    "properties."@,
                ),
        decreases query.filters@.len() - k,
    {
        if starts_with(query.filters[k].path.as_str(), "properties.") {
            assert(pattern::begins(query@.filters[k as int].path, "properties."@));
            return true;
        }
        k = k + 1;
    }
    assert(!any_property(query@.select)) by {
        assert(query@.select.len() == query.select@.len());
    }
    false
}

/// A name and a value of a request.
pub open spec fn pair_views(pairs: Seq<(String, String)>) -> Seq<(Seq<char>, Seq<char>)> {
    Seq::new(pairs.len(), |i: int| (pairs[i].0@, pairs[i].1@))
}

/// The query parameters of the request for one page of an event.
pub open spec fn page_pairs(query: QueryView, event: Seq<char>, page: usize, properties: bool) -> Seq<
    (Seq<char>, Seq<char>),
> {
    let pairs = seq![
        ("projectId"@, query.project_id),
        ("event"@, event),
        ("start"@, query.start),
        ("end"@, query.end),
        ("page"@, numeral::decimal(page as nat)),
        ("limit"@, numeral::decimal(query.limit as nat)),
    ];
    if properties {
        pairs.push(("includes"@, "properties"@))
    } else {
        pairs
    }
}

/// Lists the query parameters of the request for one page of an event.
pub fn events_page_pairs(query: &EventQuery, event: &str, page: usize, includes_properties: bool)
    -> (r: Vec<(String, String)>)
    ensures
        pair_views(r@) == page_pairs(query@, event@, page, includes_properties),
{
    let mut pairs: Vec<(String, String)> = Vec::new();
    pairs.push(("projectId".to_string(), query.project_id.clone()));
    pairs.push(("event".to_string(), event.to_string()));
    pairs.push(("start".to_string(), query.start.clone()));
    pairs.push(("end".to_string(), query.end.clone()));
    pairs.push(("page".to_string(), write_decimal(page as u64)));
    pairs.push(("limit".to_string(), write_decimal(query.limit as u64)));
    if includes_properties {
        pairs.push(("includes".to_string(), "properties".to_string()));
    }
    proof {
        assert(pair_views(pairs@) =~= page_pairs(query@, event@, page, includes_properties));
    }
    pairs
}

/// What a query holds of its arguments: the project, the events, the time bounds, the filters, the
/// selection, the format, the output, the limits and the wish for diagnostics, each from its own
/// argument. Without a format, rows are written as JSON lines; without a selection, whole.
pub proof fn law_queries_hold_their_arguments(args: QueryArgs)
    requires
        event_query(args, None) is Ok,
    ensures
        event_query(args, None) matches Ok(q) && {
            &&& args.project_id matches Some(id) && q.project_id == id@
            &&& args.events matches Some(events) && q.events == fields::csv_fields(events@)
            &&& match args.day {
                Some(day) => {
                    let offset = match args.tz_offset {
                        Some(offset) => offset@,
                        None => "+00:00"@,
                    };
                    time_window::day_window(day@, offset) == Ok::<
                        (Seq<char>, Seq<char>),
                        Seq<char>,
                    >((q.start, q.end))
                },
                None => args.start matches Some(start) && args.end matches Some(end) && q.start
                    == time_window::bound_text(start@, false) && q.end == time_window::bound_text(
                    end@,
                    true,
                ),
            }
            &&& match args.where_clause {
                Some(clause) => filter::where_filters(Some(clause@)) == Ok::<
                    Seq<FilterView>,
                    Seq<char>,
                >(q.filters),
                None => q.filters.len() == 0,
            }
            &&& match args.select {
                Some(select) => q.select == fields::csv_fields(select@),
                None => q.select.len() == 0,
            }
            &&& match args.format {
                Some(format) => q.format == format@,
                None => q.format == "jsonl"@,
            }
            &&& match args.output {
                Some(output) => q.output == Some(output@),
                None => q.output is None,
            }
            &&& q.max_pages == args.max_pages
            &&& q.debug == args.debug
        },
{
}

/// A funnel asks for its steps, with its own selection and format, and takes the rest from the arguments
/// as any query does.
pub proof fn law_funnels_ask_for_their_steps(
    args: QueryArgs,
    funnel: FunnelDefaults,
)
    requires
        event_query(args, Some(funnel)) is Ok,
    ensures
        event_query(args, Some(funnel)) matches Ok(q) && {
            &&& q.events == text::texts(funnel.steps@)
            &&& q.select == fields::csv_fields(funnel.select@)
            &&& q.format == funnel.format@
            &&& args.project_id matches Some(id) && q.project_id == id@
            &&& time_bounds(args) == Ok::<(Seq<char>, Seq<char>), Seq<char>>((q.start, q.end))
            &&& filter::where_filters(text::owned_text(args.where_clause)) == Ok::<
                Seq<FilterView>,
                Seq<char>,
            >(q.filters)
            &&& q.limit == page_limit(args.limit)
            &&& q.max_pages == args.max_pages
        },
{
}

/// A page has as many rows as were asked for, within the limits of 1 and 1000, and 1000 where nothing was
/// asked for.
pub proof fn law_pages_have_a_limit(limit: Option<usize>)
    ensures
        1 <= page_limit(limit) <= 1000,
        limit matches Some(n) ==> (1 <= n <= 1000 ==> page_limit(limit) == n),
        limit matches Some(n) ==> (n > 1000 ==> page_limit(limit) == 1000),
        limit matches Some(n) ==> (n < 1 ==> page_limit(limit) == 1),
        limit is None ==> page_limit(limit) == 1000,
{
}

/// What is asked for with a page: under each of their names, once, the project, the event, the two time
/// bounds, the number of the page and the limit; and the properties exactly where they are needed.
pub proof fn law_page_requests_say_what_they_want(
    query: QueryView,
    event: Seq<char>,
    page: usize,
    properties: bool,
    value: Seq<char>,
)
    ensures
        ({
            let pairs = page_pairs(query, event, page, properties);
            &&& pairs.len() == if properties {
                7nat
            } else {
                6nat
            }
            &&& pairs.contains(("projectId"@, value)) <==> value == query.project_id
            &&& pairs.contains(("event"@, value)) <==> value == event
            &&& pairs.contains(("start"@, value)) <==> value == query.start
            &&& pairs.contains(("end"@, value)) <==> value == query.end
            &&& pairs.contains(("page"@, value)) <==> value == numeral::signed_decimal(page as int)
            &&& pairs.contains(("limit"@, value)) <==> value == numeral::signed_decimal(
                query.limit as int,
            )
            &&& pairs.contains(("includes"@, value)) <==> properties && value == "properties"@
        }),
{
    reveal_strlit("projectId");
    reveal_strlit("event");
    reveal_strlit("start");
    reveal_strlit("end");
    reveal_strlit("page");
    reveal_strlit("limit");
    reveal_strlit("includes");
    assert("event"@[0] == 'e' && "start"@[0] == 's' && "limit"@[0] == 'l');
    assert("projectId"@.len() == 9 && "event"@.len() == 5 && "start"@.len() == 5);
    assert("end"@.len() == 3 && "page"@.len() == 4 && "limit"@.len() == 5 && "includes"@.len() == 8);
    let pairs = page_pairs(query, event, page, properties);
    assert(pairs[0] == ("projectId"@, query.project_id));
    assert(pairs[1] == ("event"@, event));
    assert(pairs[2] == ("start"@, query.start));
    assert(pairs[3] == ("end"@, query.end));
    assert(pairs[4] == ("page"@, numeral::decimal(page as nat)));
    assert(pairs[5] == ("limit"@, numeral::decimal(query.limit as nat)));
    if properties {
        assert(pairs[6] == ("includes"@, "properties"@));
    }
    assert forall|name: Seq<char>, v: Seq<char>| #[trigger] pairs.contains((name, v)) implies {
        ||| (name, v) == pairs[0]
        ||| (name, v) == pairs[1]
        ||| (name, v) == pairs[2]
        ||| (name, v) == pairs[3]
        ||| (name, v) == pairs[4]
        ||| (name, v) == pairs[5]
        ||| properties && (name, v) == pairs[6]
    } by {
        let k = choose|k: int| 0 <= k < pairs.len() && pairs[k] == (name, v);
        assert(k == 0 || k == 1 || k == 2 || k == 3 || k == 4 || k == 5 || k == 6);
    }
    assert(pairs.contains(pairs[0]) && pairs.contains(pairs[1]) && pairs.contains(pairs[2]));
    assert(pairs.contains(pairs[3]) && pairs.contains(pairs[4]) && pairs.contains(pairs[5]));
    assert(properties ==> pairs.contains(pairs[6]));
}

/// The properties of events are needed exactly where a selected path or the path of a filter leads into
/// them.
pub proof fn law_properties_are_asked_for_where_needed(query: QueryView)
    ensures
        asks_properties(query) <==> {
            ||| exists|i: int, rest: Seq<char>|
                0 <= i < query.select.len() && #[trigger] query.select[i] == #[trigger] (
                "properties."@ + rest)
            ||| exists|i: int, rest: Seq<char>|
                0 <= i < query.filters.len() && (#[trigger] query.filters[i]).path == #[trigger] (
                "properties."@ + rest)
        },
{
    let word = "properties."@;
    assert forall|s: Seq<char>, rest: Seq<char>| s == #[trigger] (word + rest) implies
        #[trigger] pattern::begins(s, word) by {
        assert(s.take(word.len() as int) =~= word);
    }
    if any_property(query.select) {
        let i = choose|i: int|
            0 <= i < query.select.len() && pattern::begins(#[trigger] query.select[i], word);
        let rest = query.select[i].skip(word.len() as int);
        assert(query.select[i] =~= word + rest);
    }
    if exists|i: int|
        0 <= i < query.filters.len() && pattern::begins((#[trigger] query.filters[i]).path, word) {
        let i = choose|i: int|
            0 <= i < query.filters.len() && pattern::begins(
                (#[trigger] query.filters[i]).path,
                word,
            );
        let rest = query.filters[i].path.skip(word.len() as int);
        assert(query.filters[i].path =~= word + rest);
    }
    assert forall|i: int, rest: Seq<char>|
        0 <= i < query.select.len() && #[trigger] query.select[i] == #[trigger] (word
            + rest) implies asks_properties(query) by {
        assert(pattern::begins(query.select[i], word));
    }
    assert forall|i: int, rest: Seq<char>|
        0 <= i < query.filters.len() && (#[trigger] query.filters[i]).path == #[trigger] (word
            + rest) implies asks_properties(query) by {
        assert(pattern::begins(query.filters[i].path, word));
    }
}

/// What is missing is asked for first: the project, then the events, then the time bounds.
pub proof fn law_missing_arguments_are_asked_for(args: QueryArgs)
    ensures
        args.project_id is None ==> event_query(args, None) == Err::<QueryView, Seq<char>>(
            "--project-id required"@,
        ),
        args.project_id is Some && args.events is None ==> event_query(args, None) is Err,
        args.project_id is Some && args.events is Some && args.day is None && args.start is None
            ==> event_query(args, None) == Err::<QueryView, Seq<char>>("--start or --day required"@),
        args.project_id is Some && args.events is Some && args.day is None && args.start is Some
            && args.end is None ==> event_query(args, None) == Err::<QueryView, Seq<char>>(
            "--end or --day required"@,
        ),
        args.project_id is Some && args.events is Some && args.day is None && args.start is Some
            && args.end is Some && args.where_clause is None ==> event_query(args, None) is Ok,
{
}

} // verus!
