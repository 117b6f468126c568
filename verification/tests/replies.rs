use openpanel::doctor::{
    auth_probes, classify, doctor_report, probe_gets, probe_range, probe_send_error, probe_url, AuthProbe, ClientKind,
};
use openpanel::json::Json;
use openpanel::json_path::{get_path, parse_json, render_output};
use openpanel::output::{csv_escape, output_fields, write_csv, write_json_lines, write_rows, write_table};
use openpanel::response::{
    decode_body, diagnose_page, judge_response, on_frame, write_page_diagnostics, Asked, Frame,
    FrameAction,
};
use openpanel::retry::{
    auth_error_hint, can_truncate, classify_reply, is_success, retryable_status, sort_reply,
    truncate, Reply, Sends, Verdict,
};

fn json(text: &str) -> Json {
    parse_json(text, "no JSON").unwrap()
}

fn texts(parts: &[&str]) -> Vec<String> {
    parts.iter().map(|part| part.to_string()).collect()
}

#[test]
fn statuses_have_their_meaning() {
    assert!(is_success(200) && is_success(299) && !is_success(199) && !is_success(300));
    assert!(retryable_status(429) && retryable_status(500) && retryable_status(599));
    assert!(!retryable_status(404) && !retryable_status(600) && !retryable_status(200));
    assert_eq!(auth_error_hint("export", 404), "");
    assert!(auth_error_hint("export", 401).starts_with(" — Export/Insights require"));
    assert_eq!(auth_error_hint("insights", 403), auth_error_hint("export", 401));
    assert!(auth_error_hint("manage", 403).starts_with(" — Manage endpoints require"));
    assert_eq!(auth_error_hint("track", 401), "");
}

#[test]
fn long_texts_are_cut() {
    let short = "x".repeat(500);
    assert!(can_truncate(&short));
    assert_eq!(truncate(&short), short);
    let long = "x".repeat(501);
    assert_eq!(truncate(&long), format!("{short}…"));
    let odd = format!("{}é{}", "x".repeat(499), "x");
    assert!(!can_truncate(&odd));
}

#[test]
fn replies_are_sorted() {
    assert_eq!(classify_reply(200, "[1]"), Reply::Value(json("[1]")));
    assert!(matches!(classify_reply(200, "["), Reply::Undecodable(_)));
    assert_eq!(classify_reply(503, "[1]"), Reply::Retryable);
    assert_eq!(classify_reply(404, "[1]"), Reply::Refused);
    assert_eq!(sort_reply(204, Err("why".to_string())), Reply::Undecodable("why".to_string()));
}

#[test]
fn requests_are_sent_three_times_at_most() {
    let mut sends = Sends::none();
    assert!(sends.may_send());
    assert_eq!(sends.on_send_error("timed out"), Verdict::Wait(250));
    assert_eq!(sends.last_error, Some("send request: timed out".to_string()));
    let verdict = sends.on_reply(Reply::Retryable, "503 Service Unavailable", "busy");
    assert_eq!(verdict, Verdict::Wait(500));
    let verdict = sends.on_reply(Reply::Undecodable("eof".to_string()), "200 OK", "{");
    assert_eq!(verdict, Verdict::Wait(750));
    assert!(!sends.may_send());
    assert_eq!(sends.give_up().message, "decode json: eof; body={");
    assert_eq!(Sends::none().give_up().message, "request failed");
}

#[test]
fn values_and_refusals_end_the_matter() {
    let mut sends = Sends::none();
    assert_eq!(sends.on_reply(Reply::Value(json("1")), "200 OK", "1"), Verdict::Done(json("1")));
    let verdict = sends.on_reply(Reply::Refused, "404 Not Found", "gone");
    assert!(matches!(verdict, Verdict::Fail(e) if e.message == "http 404 Not Found; body=gone"));
    assert!(sends.may_send());
}

#[test]
fn probes_are_asked_in_order() {
    assert_eq!(probe_range(Some("7d")), "7d");
    let (projects, clients, referrer) = auth_probes("p 1", &probe_range(None));
    assert_eq!(projects.name, "manage_projects");
    assert_eq!(probe_url("https://h", &projects).unwrap(), "https://h/manage/projects?");
    assert_eq!(probe_url("https://h", &clients).unwrap(), "https://h/manage/clients?projectId=p+1");
    assert_eq!(
        probe_url("https://h", &referrer).unwrap(),
        "https://h/insights/p%201/referrer_name?range=today"
    );
    assert_eq!(probe_url("h", &projects).unwrap_err().message, "relative URL without a base");
    let gets = probe_gets("p 1", "today");
    assert_eq!(gets.len(), 3);
    assert_eq!((&gets[2].path, &gets[2].pairs), (&referrer.path, &referrer.pairs));
    assert_eq!(gets[0].path, "manage/projects");
    assert_eq!(probe_send_error("manage_clients").message, "send manage_clients probe");
}

#[test]
fn clients_are_classified() {
    let yes = AuthProbe::of("x", 200, None);
    let no = AuthProbe::of("x", 401, None);
    assert_eq!(classify(&yes, &yes, &no), ClientKind::Root);
    assert_eq!(classify(&yes, &no, &yes), ClientKind::Read);
    assert_eq!(classify(&no, &yes, &no), ClientKind::WriteOrInvalid);
    assert_eq!(ClientKind::Read.name(), "read");
    assert!(ClientKind::Root.explanation().starts_with("Root client:"));
    assert_eq!(ClientKind::WriteOrInvalid.name(), "write_or_invalid");
}

#[test]
fn the_diagnosis_hides_secrets() {
    let projects = AuthProbe::read("manage_projects", 200, Some(r#"{"clientSecret": "s", "n": 1}"#));
    let clients = AuthProbe::read("manage_clients", 403, Some("no JSON"));
    let referrer = AuthProbe::read("insights_referrer_name", 200, None);
    assert!(projects.success && !clients.success);
    assert_eq!(clients.body, Json::Null);
    assert_eq!(referrer.body, Json::Null);
    assert_eq!(
        render_output(&projects.to_json(), false).unwrap(),
        "{\"body\":{\"clientSecret\":\"<redacted>\",\"n\":1},\"name\":\"manage_projects\",\
         \"status\":200,\"success\":true}"
    );
    let report = doctor_report("https://h", "p1", &projects, &clients, &referrer);
    assert_eq!(get_path(&report, "classification"), Some(&json("\"read\"")));
    assert_eq!(get_path(&report, "probes.manageClients.status"), Some(&json("403")));
    assert_eq!(get_path(&report, "probes.manageProjects.body.clientSecret"), Some(&json("\"<redacted>\"")));
    assert_eq!(get_path(&report, "apiUrl"), Some(&json("\"https://h\"")));
}

#[test]
fn responses_are_shown_and_judged() {
    let headers = vec![
        ("b".to_string(), "1".to_string()),
        ("a".to_string(), "2".to_string()),
        ("b".to_string(), "3".to_string()),
    ];
    let asked = |resource, raw| Asked { resource, op: "events", raw, diagnostics: true };
    let fine = judge_response(&asked("export", false), 200, "200 OK", &headers, json("[1]"));
    assert_eq!(fine.shown, json("[1]"));
    assert!(fine.error.is_none() && fine.diagnose);
    let raw = judge_response(&asked("export", true), 401, "401 Unauthorized", &headers, json("null"));
    assert!(!raw.diagnose);
    assert_eq!(
        render_output(&raw.shown, false).unwrap(),
        r#"{"body":null,"headers":{"a":["2"],"b":["1","3"]},"status":401}"#
    );
    assert_eq!(raw.error.unwrap().message, "http 401 Unauthorized");
    let refused = judge_response(&asked("manage", false), 401, "401 Unauthorized", &headers, json("{}"));
    assert!(!refused.diagnose);
    assert_eq!(
        refused.error.unwrap().message,
        "http 401 Unauthorized — Manage endpoints require an OpenPanel root client with organization-wide access."
    );
}

#[test]
fn bodies_are_decoded() {
    assert_eq!(decode_body(Some("{}")).unwrap(), json("{}"));
    assert_eq!(decode_body(Some("{")).unwrap_err().message, "decode json");
    assert_eq!(decode_body(None).unwrap_err().message, "decode json");
}

#[test]
fn pages_are_diagnosed() {
    let page = json(
        r#"{"meta": {"pages": 2}, "data": [
            {"createdAt": "2024-01-01"}, {"createdAt": "2024-02-01"}, {"createdAt": "2024-03-01"}, {}
        ]}"#,
    );
    assert_eq!(
        diagnose_page(&page, Some("2024-01-15"), Some("2024-02-15")).unwrap(),
        "pagination: meta={\"pages\":2} rows=4 outside_requested_window=3"
    );
    assert_eq!(
        diagnose_page(&json("{}"), None, None).unwrap(),
        "pagination: meta=null rows=0 outside_requested_window=0"
    );
    assert_eq!(
        write_page_diagnostics("m", &page, None, Some("2024-01-15")),
        "pagination: meta=m rows=4 outside_requested_window=2"
    );
    let asked = |op, raw, diagnostics| Asked { resource: "export", op, raw, diagnostics };
    let diagnose = |asked: Asked<'_>, status| {
        judge_response(&asked, status, "", &Vec::new(), Json::Null).diagnose
    };
    assert!(diagnose(asked("events", false, true), 200));
    assert!(!diagnose(asked("charts", false, true), 200));
    assert!(!diagnose(asked("events", true, true), 200));
    assert!(!diagnose(asked("events", false, false), 200));
    assert!(!diagnose(asked("events", false, true), 500));
}

#[test]
fn frames_are_printed_or_end_the_matter() {
    assert_eq!(on_frame(Frame::Text("x".to_string())), FrameAction::Print("x".to_string()));
    assert_eq!(on_frame(Frame::Binary(12)), FrameAction::Print("binary: 12 bytes".to_string()));
    assert_eq!(on_frame(Frame::Close), FrameAction::Stop);
    assert_eq!(on_frame(Frame::Other), FrameAction::Ignore);
}

#[test]
fn cells_are_escaped_and_read_back() {
    assert_eq!(csv_escape("plain".to_string()), "plain");
    assert_eq!(csv_escape("a,b".to_string()), "\"a,b\"");
    assert_eq!(csv_escape("a\nb".to_string()), "\"a\nb\"");
    let quoted = csv_escape("say \"hi\"".to_string());
    assert_eq!(quoted, "\"say \"\"hi\"\"\"");
    let inner = &quoted[1..quoted.len() - 1];
    assert_eq!(inner.replace("\"\"", "\""), "say \"hi\"");
}

#[test]
fn columns_come_from_the_selection_or_the_first_row() {
    let rows = vec![json(r#"{"b": 1, "a": {"c": "x,y"}}"#), json(r#"{"z": 1}"#)];
    assert_eq!(output_fields(&rows, &texts(&["q"])), texts(&["q"]));
    assert_eq!(output_fields(&rows, &Vec::new()), texts(&["a", "b"]));
    assert!(output_fields(&vec![json("1")], &Vec::new()).is_empty());
    assert!(output_fields(&Vec::new(), &Vec::new()).is_empty());
    assert_eq!(write_csv(&rows, &texts(&["b", "a.c"])), texts(&["b,a.c", "1,\"x,y\"", ","]));
    assert_eq!(write_table(&rows, &texts(&["b", "a.c"])), texts(&["b\ta.c", "1\tx,y", "\t"]));
}

#[test]
fn rows_are_written_in_every_format() {
    let rows = || vec![json(r#"{"b": 1}"#), json("2")];
    let none = Vec::new();
    assert_eq!(write_rows(rows(), &none, "json").unwrap(), texts(&["[{\"b\":1},2]"]));
    assert_eq!(write_rows(rows(), &none, "jsonl").unwrap(), texts(&["{\"b\":1}", "2"]));
    assert_eq!(write_rows(rows(), &none, "csv").unwrap(), texts(&["b", "1", ""]));
    assert_eq!(write_rows(rows(), &none, "table").unwrap(), texts(&["b", "1", ""]));
    assert_eq!(write_json_lines(&rows()).unwrap().len(), 2);
    assert_eq!(write_rows(rows(), &none, "xml").unwrap_err().message, "unsupported format xml");
}
