use openpanel::fetch::{debug_line, events_page_url, first_page_gets, Fetch, FetchStats};
use openpanel::fields::{split_csv, split_csv_required, unquote};
use openpanel::filter::{matches_filters, parse_where, project_row, FilterOp};
use openpanel::funnel::{
    build_funnel, funnel_heading, funnel_line, funnel_records, funnel_report, funnel_select,
    funnel_unit, shows_json,
};
use openpanel::json::Json;
use openpanel::json_path::{get_path, parse_json, render_output, value_to_cell};
use openpanel::query::{
    can_parse_query, events_page_pairs, needs_properties, parse_event_query, parse_time_window,
    query_bounds_fit, EventQuery, FunnelDefaults, QueryArgs,
};
use openpanel::rows::{created_at, sort_by_creation};
use openpanel::time_window::local_day_window;

fn json(text: &str) -> Json {
    parse_json(text, "no JSON").unwrap()
}

fn texts(parts: &[&str]) -> Vec<String> {
    parts.iter().map(|part| part.to_string()).collect()
}

fn no_args() -> QueryArgs {
    QueryArgs {
        project_id: None,
        events: None,
        start: None,
        end: None,
        day: None,
        tz_offset: None,
        where_clause: None,
        select: None,
        format: None,
        output: None,
        limit: None,
        max_pages: None,
        debug: false,
    }
}

fn window_args() -> QueryArgs {
    QueryArgs {
        project_id: Some("p1".to_string()),
        events: Some("screen_view, signup".to_string()),
        start: Some("2026-05-01T00:00:00Z".to_string()),
        end: Some("2026-05-02T00:00:00Z".to_string()),
        ..no_args()
    }
}

fn query(args: &QueryArgs) -> EventQuery {
    assert!(can_parse_query(args, &None));
    parse_event_query(args, None).unwrap()
}

#[test]
fn parses_local_day_window() {
    let (start, end) = local_day_window("2026-05-12", "+07:00").unwrap();
    assert_eq!(start, "2026-05-11T17:00:00.000Z");
    assert_eq!(end, "2026-05-12T16:59:59.999Z");
}

#[test]
fn parses_where_filters() {
    let filters = parse_where(Some(
        "country=US and properties.utm_source='meta' and os!=Android",
    ))
    .unwrap();
    assert_eq!(filters.len(), 3);
    assert!(matches!(filters[0].op, FilterOp::Eq));
    assert_eq!(filters[1].path, "properties.utm_source");
    assert_eq!(filters[1].value, "meta");
    assert!(matches!(filters[2].op, FilterOp::Ne));
}

#[test]
fn projects_dotted_fields() {
    let row = json(
        r#"{
            "createdAt": "2026-05-12T00:00:00.000Z",
            "name": "screen_view",
            "properties": {"utm_source": "meta", "utm_content": "ad"}
        }"#,
    );
    let projected = project_row(&row, &split_csv("createdAt,name,properties.utm_source")).unwrap();
    assert_eq!(
        get_path(&projected, "properties.utm_source"),
        Some(&Json::Text("meta".to_string()))
    );
    assert!(get_path(&projected, "properties.utm_content").is_none());
}

#[test]
fn matches_nested_filters() {
    let row = json(r#"{"country": "US", "properties": {"utm_source": "meta"}}"#);
    let filters = parse_where(Some("country=US and properties.utm_source=meta")).unwrap();
    assert!(matches_filters(&row, &filters));
}

#[test]
fn builds_ordered_funnel() {
    let rows = vec![
        json(r#"{"name": "screen_view", "sessionId": "s1"}"#),
        json(r#"{"name": "quiz_started", "sessionId": "s1"}"#),
        json(r#"{"name": "quiz_started", "sessionId": "s2"}"#),
        json(r#"{"name": "paywall_viewed", "sessionId": "s1"}"#),
    ];
    let steps = split_csv("screen_view,quiz_started,paywall_viewed");
    let result = build_funnel(&rows, &steps, "sessionId");
    assert_eq!(get_path(&result[0], "count"), Some(&json("1")));
    assert_eq!(get_path(&result[1], "count"), Some(&json("1")));
    assert_eq!(get_path(&result[2], "count"), Some(&json("1")));
}

#[test]
fn where_clauses_that_do_not_compare_are_refused() {
    assert!(parse_where(None).unwrap().is_empty());
    let error = parse_where(Some("a=1 and  b ")).unwrap_err();
    assert_eq!(error.message, "invalid --where clause: b");
    let empty = parse_where(Some("")).unwrap_err();
    assert_eq!(empty.message, "invalid --where clause: ");
}

#[test]
fn filters_that_differ_leave_rows_out() {
    let row = json(r#"{"os": "Android", "n": 3}"#);
    assert!(!matches_filters(&row, &parse_where(Some("os!=Android")).unwrap()));
    assert!(matches_filters(&row, &parse_where(Some("n=3")).unwrap()));
    assert!(matches_filters(&row, &parse_where(Some("missing=")).unwrap()));
    assert!(!matches_filters(&row, &parse_where(Some("n=3 and os=iOS")).unwrap()));
}

#[test]
fn quotes_come_off_in_pairs() {
    assert_eq!(unquote("\"a\""), "a");
    assert_eq!(unquote("'a'"), "a");
    assert_eq!(unquote("'a\""), "'a\"");
    assert_eq!(unquote("\""), "\"");
    assert_eq!(unquote("\"\""), "");
}

#[test]
fn fields_are_trimmed_and_empty_ones_dropped() {
    assert_eq!(split_csv(" a, ,b,,c "), texts(&["a", "b", "c"]));
    assert_eq!(split_csv("a,b").join(","), "a,b");
    let error = split_csv_required(None, "max_pages").unwrap_err();
    assert_eq!(error.message, "--max-pages required");
    assert_eq!(split_csv_required(Some("x"), "steps").unwrap(), texts(&["x"]));
}

#[test]
fn a_row_without_a_selection_is_kept_whole() {
    let row = json(r#"{"a": 1}"#);
    assert_eq!(project_row(&row, &Vec::new()).unwrap(), row);
    let projected = project_row(&row, &texts(&["a", "b.c"])).unwrap();
    assert_eq!(projected, json(r#"{"a": 1, "b": {"c": null}}"#));
}

#[test]
fn projecting_twice_changes_nothing() {
    let row = json(r#"{"a": "x", "b": {"c": 1, "d": 2}}"#);
    for select in [
        &["b.c", "a", "b.c"][..],
        &["a", "a.b", "a.c", "none"][..],
        &["a.b", "a"][..],
        &["b.d.e", "b", "b.c"][..],
    ] {
        let select = texts(select);
        let once = project_row(&row, &select).unwrap();
        assert_eq!(project_row(&once, &select).unwrap(), once);
    }
    let twice_named = project_row(&row, &texts(&["b.c", "a", "b.c"])).unwrap();
    assert_eq!(twice_named, json(r#"{"a": "x", "b": {"c": 1}}"#));
    let through = project_row(&row, &texts(&["a", "a.b"])).unwrap();
    assert_eq!(through, json(r#"{"a": {"b": null}}"#));
    let money = json(r#"{"$": {"$": 5}}"#);
    let inner = project_row(&money, &texts(&["$"])).unwrap();
    assert_eq!(inner, json(r#"{"$": 5}"#));
    assert_eq!(project_row(&inner, &texts(&["$"])).unwrap(), json("5"));
}

#[test]
fn later_rows_never_lower_a_count() {
    let mut rows = vec![
        json(r#"{"name": "a", "sessionId": "s1"}"#),
        json(r#"{"name": "b", "sessionId": "s1"}"#),
    ];
    let steps = texts(&["a", "b"]);
    let before = build_funnel(&rows, &steps, "sessionId");
    rows.push(json(r#"{"name": "a", "sessionId": "s1"}"#));
    assert_eq!(build_funnel(&rows, &steps, "sessionId"), before);
    rows.push(json(r#"{"name": "a", "sessionId": "s2"}"#));
    assert_eq!(build_funnel(&rows, &steps, "sessionId"), vec![
        json(r#"{"step": "a", "count": 2}"#),
        json(r#"{"step": "b", "count": 1}"#),
    ]);
}

#[test]
fn later_steps_need_the_earlier_ones() {
    let rows = vec![
        json(r#"{"name": "b", "sessionId": "s1"}"#),
        json(r#"{"name": "a", "sessionId": "s1"}"#),
        json(r#"{"name": "a", "sessionId": 7}"#),
        json(r#"{"name": "b", "sessionId": 7}"#),
        json(r#"{"name": "a", "sessionId": ""}"#),
        json(r#"{"name": "a"}"#),
        json(r#"{"name": 5, "sessionId": "s3"}"#),
    ];
    let result = build_funnel(&rows, &texts(&["a", "b"]), "sessionId");
    assert_eq!(result, vec![
        json(r#"{"step": "a", "count": 2}"#),
        json(r#"{"step": "b", "count": 1}"#),
    ]);
}

#[test]
fn funnel_lines_carry_the_counts_before() {
    let result = vec![
        json(r#"{"step": "a", "count": 4}"#),
        json(r#"{"step": "b", "count": 2}"#),
        json(r#"{"step": "c"}"#),
    ];
    let records = funnel_records(&result);
    assert_eq!(records.len(), 3);
    assert_eq!((records[0].count, records[0].first, records[0].previous), (4, 4, 4));
    assert_eq!((records[1].count, records[1].first, records[1].previous), (2, 4, 4));
    assert_eq!((records[2].count, records[2].first, records[2].previous), (0, 4, 2));
    assert_eq!(funnel_heading(), "step\tusers\tconversion\tstep_conversion");
    assert_eq!(funnel_line(&records[1], "50.00%", "50.00%"), "b\t2\t50.00%\t50.00%");
    assert_eq!(funnel_select("deviceId"), "createdAt,name,deviceId");
    assert_eq!(funnel_unit(None), "sessionId");
    assert_eq!(funnel_unit(Some("deviceId")), "deviceId");
    assert!(shows_json(Some("json")) && !shows_json(Some("table")) && !shows_json(None));
}

#[test]
fn funnel_reports_hold_the_counts_of_the_fetch() {
    let stats = FetchStats { pages: 1, api_rows: 5, time_rows: 4, matched_rows: 3 };
    let report = funnel_report(vec![json("1")], &stats);
    assert_eq!(
        render_output(&report, false).unwrap(),
        r#"{"stats":{"apiRows":5,"matchedRows":3,"pages":1,"timeRows":4},"steps":[1]}"#
    );
    assert_eq!(debug_line(&stats), "debug: pages=1 api_rows=5 after_time=4 matched=3");
}

#[test]
fn queries_take_their_defaults() {
    let built = query(&window_args());
    assert_eq!(built.events, texts(&["screen_view", "signup"]));
    assert_eq!(built.start, "2026-05-01T00:00:00.000Z");
    assert_eq!(built.end, "2026-05-02T00:00:00.999Z");
    assert_eq!(built.format, "jsonl");
    assert_eq!(built.limit, 1000);
    assert!(built.select.is_empty() && built.filters.is_empty() && !built.debug);
    let zero = query(&QueryArgs { limit: Some(0), ..window_args() });
    assert_eq!(zero.limit, 1);
    let many = query(&QueryArgs { limit: Some(5000), ..window_args() });
    assert_eq!(many.limit, 1000);
}

#[test]
fn queries_ask_for_what_is_missing() {
    let message = |args: QueryArgs| parse_event_query(&args, None).unwrap_err().message;
    assert_eq!(message(no_args()), "--project-id required");
    assert_eq!(message(QueryArgs { events: None, ..window_args() }), "--events required");
    assert_eq!(message(QueryArgs { start: None, ..window_args() }), "--start or --day required");
    assert_eq!(message(QueryArgs { end: None, ..window_args() }), "--end or --day required");
    assert_eq!(
        message(QueryArgs { where_clause: Some("x".to_string()), ..window_args() }),
        "invalid --where clause: x"
    );
}

#[test]
fn a_day_comes_before_a_start_and_an_end() {
    let args = QueryArgs {
        day: Some("2026-05-12".to_string()),
        tz_offset: Some("+07:00".to_string()),
        ..window_args()
    };
    assert!(query_bounds_fit(&args));
    let window = parse_time_window(&args).unwrap();
    assert_eq!(window.0, "2026-05-11T17:00:00.000Z");
    let far = QueryArgs { day: Some("2147483647-01-01".to_string()), ..no_args() };
    assert!(!query_bounds_fit(&far));
}

#[test]
fn funnels_set_their_own_events_and_fields() {
    let steps = texts(&["a", "b"]);
    let defaults = FunnelDefaults { steps: &steps, select: "createdAt,name,unit", format: "json" };
    let args = QueryArgs { events: None, format: Some("table".to_string()), ..window_args() };
    let built = parse_event_query(&args, Some(defaults)).unwrap();
    assert_eq!(built.events, steps);
    assert_eq!(built.select, texts(&["createdAt", "name", "unit"]));
    assert_eq!(built.format, "json");
}

#[test]
fn properties_are_asked_for_where_they_are_used() {
    let plain = query(&window_args());
    assert!(!needs_properties(&plain));
    let selecting = QueryArgs { select: Some("properties.a".to_string()), ..window_args() };
    assert!(needs_properties(&query(&selecting)));
    let filtering = QueryArgs { where_clause: Some("properties.a=1".to_string()), ..window_args() };
    assert!(needs_properties(&query(&filtering)));
    let pairs = events_page_pairs(&plain, "signup", 2, true);
    assert_eq!(pairs.len(), 7);
    assert_eq!(pairs[4], ("page".to_string(), "2".to_string()));
    assert_eq!(pairs[6], ("includes".to_string(), "properties".to_string()));
}

#[test]
fn page_addresses_carry_the_query() {
    let args = QueryArgs { limit: Some(10), ..window_args() };
    let url = events_page_url("https://api.openpanel.dev", &query(&args), "sign up", 3, false);
    assert_eq!(
        url.unwrap(),
        "https://api.openpanel.dev/export/events?projectId=p1&event=sign+up\
         &start=2026-05-01T00%3A00%3A00.000Z&end=2026-05-02T00%3A00%3A00.999Z&page=3&limit=10"
    );
    let error = events_page_url("api.openpanel.dev", &query(&args), "x", 1, false).unwrap_err();
    assert_eq!(error.message, "relative URL without a base");
}

#[test]
fn dry_runs_ask_for_first_pages() {
    let built = query(&QueryArgs { select: Some("properties.a".to_string()), ..window_args() });
    let gets = first_page_gets(&built);
    assert_eq!(gets.len(), 2);
    assert_eq!(gets[1].path, "export/events");
    assert_eq!(gets[1].pairs, events_page_pairs(&built, "signup", 1, true));
    let none = query(&QueryArgs { max_pages: Some(0), ..window_args() });
    assert!(first_page_gets(&none).is_empty());
}

fn page(text: &str) -> Json {
    json(text)
}

#[test]
fn fetching_goes_page_by_page_and_event_by_event() {
    let built = query(&QueryArgs { where_clause: Some("keep!=no".to_string()), ..window_args() });
    let mut fetch = Fetch::start();
    assert_eq!(fetch.next_request(&built), Some((0, 1)));
    let first = page(
        r#"{"meta": {"pages": 2}, "data": [
            {"createdAt": "2026-05-01T10:00:00.000Z", "id": 2},
            {"createdAt": "2026-05-03T00:00:00.000Z", "id": 9},
            {"createdAt": "2026-05-01T11:00:00.000Z", "id": 8, "keep": "no"}
        ]}"#,
    );
    assert!(fetch.can_add_page(&first));
    fetch.add_page(&built, &first);
    assert_eq!(fetch.next_request(&built), Some((0, 2)));
    let second = page(r#"{"meta": {"pages": 2}, "data": [{"createdAt": "2026-05-01T09:00:00.000Z", "id": 1}]}"#);
    fetch.add_page(&built, &second);
    assert_eq!(fetch.next_request(&built), Some((1, 1)));
    let old = page(
        r#"{"meta": {"pages": 9}, "data": [
            {"createdAt": "2026-05-01T10:00:00.000Z", "id": 3},
            {"createdAt": "2026-04-01T00:00:00.000Z", "id": 7}
        ]}"#,
    );
    fetch.add_page(&built, &old);
    assert_eq!(fetch.next_request(&built), None);
    let (rows, stats) = fetch.finish();
    let ids: Vec<String> = rows.iter().map(|row| value_to_cell(get_path(row, "id"))).collect();
    assert_eq!(ids, texts(&["1", "2", "3"]));
    assert_eq!(stats, FetchStats { pages: 3, api_rows: 6, time_rows: 4, matched_rows: 3 });
}

#[test]
fn an_empty_page_ends_an_event() {
    let built = query(&window_args());
    let mut fetch = Fetch::start();
    fetch.next_request(&built);
    fetch.add_page(&built, &page(r#"{"meta": {"pages": 5}, "data": []}"#));
    assert_eq!(fetch.next_request(&built), Some((1, 1)));
    fetch.add_page(&built, &page("{}"));
    assert_eq!(fetch.next_request(&built), None);
}

#[test]
fn pages_can_be_limited() {
    let built = query(&QueryArgs { max_pages: Some(1), ..window_args() });
    let mut fetch = Fetch::start();
    fetch.next_request(&built);
    let row = r#"{"meta": {"pages": 5}, "data": [{"createdAt": "2026-05-01T10:00:00.000Z"}]}"#;
    fetch.add_page(&built, &page(row));
    assert_eq!(fetch.next_request(&built), Some((1, 1)));
    let none = query(&QueryArgs { max_pages: Some(0), ..window_args() });
    assert_eq!(Fetch::start().next_request(&none), None);
}

#[test]
fn a_page_limit_bounds_the_whole_fetch() {
    let built = query(&QueryArgs { max_pages: Some(3), ..window_args() });
    let row = page(r#"{"meta": {"pages": 50}, "data": [{"createdAt": "2026-05-01T10:00:00.000Z"}]}"#);
    let mut fetch = Fetch::start();
    while fetch.next_request(&built).is_some() {
        fetch.add_page(&built, &row);
    }
    let (rows, stats) = fetch.finish();
    assert_eq!(stats.pages, 3 * built.events.len());
    assert_eq!(rows.len(), 6);
}

#[test]
fn missing_arguments_are_found_before_a_far_day() {
    let far = QueryArgs { day: Some("2147483647-01-01".to_string()), ..no_args() };
    assert!(can_parse_query(&far, &None));
    assert_eq!(parse_event_query(&far, None).unwrap_err().message, "--project-id required");
    let project = QueryArgs { project_id: Some("p1".to_string()), ..far };
    assert!(can_parse_query(&project, &None));
    assert_eq!(parse_event_query(&project, None).unwrap_err().message, "--events required");
    let steps = texts(&["a"]);
    let funnel = FunnelDefaults { steps: &steps, select: "name", format: "json" };
    assert!(!can_parse_query(&project, &Some(funnel)));
    let complete = QueryArgs { events: Some("a".to_string()), ..project };
    assert!(!can_parse_query(&complete, &None));
}

#[test]
fn rows_are_sorted_and_equal_ones_keep_their_order() {
    let rows = vec![
        json(r#"{"createdAt": "b", "id": 1}"#),
        json(r#"{"id": 2}"#),
        json(r#"{"createdAt": "a", "id": 3}"#),
        json(r#"{"createdAt": "b", "id": 4}"#),
        json(r#"{"createdAt": "a", "id": 5}"#),
    ];
    let sorted = sort_by_creation(rows);
    let ids: Vec<String> = sorted.iter().map(|row| value_to_cell(get_path(row, "id"))).collect();
    assert_eq!(ids, texts(&["2", "3", "5", "1", "4"]));
    assert_eq!(created_at(&sorted[0]), "");
    assert_eq!(created_at(&sorted[1]), "a");
}

#[test]
fn plain_filters_come_back_from_their_text() {
    let filters = parse_where(Some("a.b=x=y and c!=!z and d=")).unwrap();
    let spelled: Vec<String> = filters
        .iter()
        .map(|filter| match filter.op {
            FilterOp::Eq => format!("{}={}", filter.path, filter.value),
            FilterOp::Ne => format!("{}!={}", filter.path, filter.value),
        })
        .collect();
    assert_eq!(spelled.join(" and "), "a.b=x=y and c!=!z and d=");
    assert_eq!(parse_where(Some(&spelled.join(" and "))).unwrap(), filters);
}

#[test]
fn filters_come_back_in_every_spelling() {
    let plain = parse_where(Some("a=1 and b!=x.y and and=and")).unwrap();
    assert_eq!(plain.len(), 3);
    for spelled in [
        "a='1' and b!=\"x.y\" and and='and'",
        "a = 1 and b  !=   x.y and and =and",
        "a = \"1\" and b != 'x.y' and and = \"and\"",
    ] {
        assert_eq!(parse_where(Some(spelled)).unwrap(), plain, "{spelled}");
    }
}
