use openpanel::address::{is_short_address, ws_base_url, ws_scheme};
use openpanel::args::Matches;
use openpanel::command_tree::{ArgDef, Operation};
use openpanel::dispatch::{
    can_show_gets, dry_run_gets, dry_run_report, list_call_headers, next_step, Action, Get, Step,
};
use openpanel::headers::{check_method, socket_headers};
use openpanel::json::{Json, Numeral};
use openpanel::json_path::{parse_json, render_output};
use openpanel::request::{
    add_headers, add_query_params, build_body, fill_path, parse_global_headers, parse_header,
    request_target, take_whole_body, trim_slashes, try_build_request, RequestParts,
};
use openpanel::values::{
    parse_bool, parse_list_value, parse_query_value, parse_scalar_value, query_from_float,
    scalar_from_float, write_list,
};

fn json(text: &str) -> Json {
    parse_json(text, "no JSON").unwrap()
}

fn arg(name: &str, location: &str, value_type: &str) -> ArgDef {
    ArgDef {
        name: name.to_string(),
        flag: name.replace('_', "-"),
        location: location.to_string(),
        required: false,
        list: false,
        value_type: value_type.to_string(),
        path: None,
        header_name: None,
        nullable: false,
    }
}

fn op(method: &str, path: &str, args: Vec<ArgDef>) -> Operation {
    Operation {
        name: "op".to_string(),
        method: method.to_string(),
        path: path.to_string(),
        description: None,
        body_defaults: None,
        args,
    }
}

fn given(values: &[(&str, &[&str])]) -> Matches {
    let mut matches = Matches::new();
    for (name, list) in values {
        matches.set(name.to_string(), list.iter().map(|v| v.to_string()).collect());
    }
    matches
}

fn pair(name: &str, value: &str) -> (String, String) {
    (name.to_string(), value.to_string())
}

fn build(op: &Operation, base: &str, matches: &Matches) -> Result<RequestParts, String> {
    try_build_request(op, base, matches, None).unwrap().map_err(|e| e.message)
}

#[test]
fn arguments_are_found_by_name() {
    let matches = given(&[("a", &["1", "2"])]);
    assert_eq!(matches.get_one("a"), Some("1"));
    assert_eq!(matches.get_many("a").map(|list| list.len()), Some(2));
    assert!(matches.get_one("b").is_none() && matches.get_many("b").is_none());
}

#[test]
fn truth_values_have_several_spellings() {
    for word in ["true", "1", "YES"] {
        assert!(parse_bool(word).unwrap());
    }
    for word in ["False", "0", "no"] {
        assert!(!parse_bool(word).unwrap());
    }
    assert_eq!(parse_bool("Maybe").unwrap_err().message, "invalid boolean: Maybe");
}

#[test]
fn query_values_are_checked_by_type() {
    let value = |kind: &str, text: &str| {
        parse_query_value(&arg("a", "query", kind), text).map_err(|e| e.message)
    };
    assert_eq!(value("bool", "Yes"), Ok("true".to_string()));
    assert_eq!(value("int", "+07"), Ok("7".to_string()));
    assert_eq!(value("int", "7.0"), Err("invalid integer".to_string()));
    assert_eq!(value("float", "1e3"), Ok("1000".to_string()));
    assert_eq!(value("float", "x"), Err("invalid float".to_string()));
    assert_eq!(value("json", "[ 1 ]"), Ok("[ 1 ]".to_string()));
    assert_eq!(value("json", "["), Err("invalid JSON".to_string()));
    assert_eq!(value("string", " x "), Ok(" x ".to_string()));
}

#[test]
fn body_values_are_read_by_type() {
    let value = |kind: &str, text: &str| {
        parse_scalar_value(&arg("a", "body", kind), text).map_err(|e| e.message)
    };
    assert_eq!(value("int", "-3"), Ok(Json::Number(Numeral::Negative(-3))));
    assert_eq!(value("int", "3"), Ok(Json::Number(Numeral::Unsigned(3))));
    assert_eq!(value("int", ""), Err("cannot parse integer from empty string".to_string()));
    assert_eq!(value("float", "2.50"), Ok(json("2.5")));
    assert_eq!(value("float", "inf"), Ok(Json::Null));
    assert_eq!(value("float", "x"), Err("invalid float literal".to_string()));
    assert_eq!(value("bool", "no"), Ok(Json::Bool(false)));
    assert_eq!(value("json", "{\"a\":1}"), Ok(json("{\"a\":1}")));
    assert_eq!(value("json", "{"), Err("invalid JSON value".to_string()));
    assert_eq!(value("string", "null"), Ok(Json::Text("null".to_string())));
    let nullable = ArgDef { nullable: true, ..arg("a", "body", "int") };
    assert_eq!(parse_scalar_value(&nullable, "null").unwrap(), Json::Null);
}

#[test]
fn floats_that_were_read_become_values() {
    let read = || Ok((Some(Numeral::Unsigned(5)), "5".to_string()));
    assert_eq!(query_from_float(read()).unwrap(), "5");
    assert_eq!(scalar_from_float(read()).unwrap(), json("5"));
    assert_eq!(scalar_from_float(Ok((None, "NaN".to_string()))).unwrap(), Json::Null);
    assert_eq!(scalar_from_float(Err("why".to_string())).unwrap_err().message, "why");
    assert_eq!(query_from_float(Err("why".to_string())).unwrap_err().message, "invalid float");
}

#[test]
fn lists_have_two_forms() {
    let texts = |list: &[&str]| list.iter().map(|v| v.to_string()).collect::<Vec<String>>();
    let plain = arg("types", "body", "string");
    let repeated = parse_list_value(&plain, &texts(&["a", "b"])).unwrap();
    let bracketed = parse_list_value(&plain, &texts(&[" [\"a\", \"b\"]"])).unwrap();
    assert_eq!(repeated, bracketed);
    assert_eq!(repeated, json(r#"["a","b"]"#));
    let numbers = arg("n", "body", "int");
    assert_eq!(parse_list_value(&numbers, &texts(&["1", "2"])).unwrap(), json("[1,2]"));
    assert_eq!(parse_list_value(&plain, &texts(&["[x"])).unwrap_err().message, "invalid JSON list");
    let fault = parse_list_value(&numbers, &texts(&["1", "x", ""])).unwrap_err();
    assert_eq!(fault.message, "invalid digit found in string");
}

#[test]
fn headers_are_split_at_the_first_sign() {
    assert_eq!(parse_header("a = b=c").unwrap(), pair("a", "b=c"));
    assert_eq!(parse_header("X-A: b").unwrap(), pair("X-A", "b"));
    assert_eq!(parse_header("a:b=c").unwrap(), pair("a:b", "c"));
    let message = "invalid header format, expected KEY=VALUE or KEY:VALUE";
    assert_eq!(parse_header("abc").unwrap_err().message, message);
    let matches = given(&[("header", &["a=1", "b:2"])]);
    assert_eq!(parse_global_headers(&matches).unwrap(), vec![pair("a", "1"), pair("b", "2")]);
    assert!(parse_global_headers(&Matches::new()).unwrap().is_empty());
    let bad = given(&[("header", &["a=1", "b"])]);
    assert_eq!(parse_global_headers(&bad).unwrap_err().message, message);
}

#[test]
fn paths_are_filled_with_their_arguments() {
    let get = op("GET", "/a/{id}/b/{id}/{k}", vec![arg("id", "path", "string"), arg("k", "path", "int")]);
    let matches = given(&[("id", &["x y"]), ("k", &["7"])]);
    assert_eq!(fill_path(&get, &matches).unwrap(), "/a/x y/b/x y/7");
    let fault = fill_path(&get, &given(&[("id", &["x"])])).unwrap_err();
    assert_eq!(fault.message, "missing required argument --k");
    assert_eq!(trim_slashes("//a/b/"), "a/b/");
    let target = request_target(&get, "https://h", &matches).unwrap();
    assert_eq!((target.base.as_str(), target.path.as_str()), ("https://h", "a/x y/b/x y/7"));
}

#[test]
fn query_parameters_stand_in_order() {
    let many = ArgDef { list: true, ..arg("event", "query", "string") };
    let needed = ArgDef { required: true, ..arg("project_id", "query", "string") };
    let get = op("GET", "export", vec![many, needed, arg("n", "query", "int")]);
    let matches = given(&[("event", &["a", "b"]), ("project_id", &["p"]), ("n", &["1"])]);
    assert_eq!(
        add_query_params(&get, &matches).unwrap(),
        vec![pair("event", "a"), pair("event", "b"), pair("project_id", "p"), pair("n", "1")]
    );
    let listed = given(&[("event", &["[\"a\"]"]), ("project_id", &["p"])]);
    assert_eq!(
        add_query_params(&get, &listed).unwrap(),
        vec![pair("event", "[\"a\"]"), pair("project_id", "p")]
    );
    let bad = given(&[("event", &["[a"]), ("project_id", &["p"])]);
    assert_eq!(add_query_params(&get, &bad).unwrap_err().message, "invalid JSON");
    let fault = add_query_params(&get, &given(&[])).unwrap_err();
    assert_eq!(fault.message, "missing required argument --project-id");
}

#[test]
fn header_arguments_follow_the_others() {
    let named = ArgDef { header_name: Some("X-Id".to_string()), ..arg("id", "header", "string") };
    let needed = ArgDef { required: true, ..arg("trace_id", "header", "string") };
    let get = op("GET", "a", vec![named, needed]);
    let mut headers = vec![pair("first", "1")];
    let matches = given(&[("id", &["7"]), ("trace_id", &["t"])]);
    add_headers(&mut headers, &get, &matches).unwrap();
    assert_eq!(headers, vec![pair("first", "1"), pair("X-Id", "7"), pair("trace-id", "t")]);
    let fault = add_headers(&mut headers, &get, &given(&[])).unwrap_err();
    assert_eq!(fault.message, "missing required argument --trace-id");
}

#[test]
fn bodies_are_built_from_defaults_and_arguments() {
    let placed = ArgDef { path: Some("payload.name".to_string()), ..arg("name", "body", "string") };
    let listed = ArgDef { list: true, ..arg("types", "body", "string") };
    let post = Operation {
        body_defaults: Some(json(r#"{"type": "track", "payload": {"v": 1}}"#)),
        ..op("POST", "track", vec![placed, listed])
    };
    let matches = given(&[("name", &["signup"]), ("types", &["a", "b"])]);
    assert_eq!(
        build_body(&post, &matches, None).unwrap(),
        Some(json(r#"{"type": "track", "payload": {"v": 1, "name": "signup"}, "types": ["a", "b"]}"#))
    );
    assert_eq!(build_body(&post, &given(&[]), None).unwrap(), Some(json(r#"{"type": "track", "payload": {"v": 1}}"#)));
}

#[test]
fn bodies_need_a_method_that_has_one() {
    let get = op("GET", "a", vec![arg("x", "body", "string")]);
    assert_eq!(build_body(&get, &given(&[]), None).unwrap(), None);
    let message = |fault: Result<Option<Json>, openpanel::error::CliError>| fault.unwrap_err().message;
    assert_eq!(
        message(build_body(&get, &given(&[("x", &["1"])]), None)),
        "body parameters are only supported for POST/PATCH/PUT"
    );
    assert_eq!(
        message(build_body(&get, &given(&[]), Some("{}"))),
        "--body is only supported for POST/PATCH/PUT"
    );
    let put = op("PUT", "a", vec![ArgDef { required: true, ..arg("x", "body", "string") }]);
    assert_eq!(build_body(&put, &given(&[]), Some("[1]")).unwrap(), Some(json("[1]")));
    assert_eq!(message(build_body(&put, &given(&[]), Some("["))), "invalid JSON for --body");
    assert_eq!(message(build_body(&put, &given(&[]), None)), "missing required argument --x");
    assert_eq!(take_whole_body("PATCH", Ok(Json::Null)).unwrap(), Some(Json::Null));
    assert_eq!(message(take_whole_body("PATCH", Err("x".to_string()))), "invalid JSON for --body");
}

#[test]
fn requests_are_put_together() {
    let get = op(
        "GET",
        "/insights/{project_id}/metrics",
        vec![arg("project_id", "path", "string"), arg("range", "query", "string")],
    );
    let matches = given(&[("project_id", &["my project"]), ("range", &["30d"]), ("header", &["A=b"])]);
    let parts = build(&get, "https://api.openpanel.dev", &matches).unwrap();
    assert_eq!(parts.url, "https://api.openpanel.dev/insights/my%20project/metrics?range=30d");
    assert_eq!(parts.headers, vec![pair("A", "b")]);
    assert_eq!(parts.body, None);
    let bare = build(&op("GET", "manage/projects", vec![]), "https://h/v1/", &given(&[])).unwrap();
    assert_eq!(bare.url, "https://h/v1/manage/projects?");
}

#[test]
fn the_first_fault_of_a_request_is_reported() {
    let get = op("GET", "{id}", vec![arg("id", "path", "string"), arg("n", "query", "int")]);
    let all_bad = given(&[("header", &["x"]), ("n", &["x"])]);
    assert!(build(&get, "no base", &all_bad).unwrap_err().starts_with("invalid header format"));
    let no_path = given(&[("n", &["x"])]);
    assert_eq!(build(&get, "no base", &no_path).unwrap_err(), "missing required argument --id");
    let no_base = given(&[("id", &["1"]), ("n", &["x"])]);
    assert_eq!(build(&get, "no base", &no_base).unwrap_err(), "relative URL without a base");
    assert_eq!(build(&get, "https://h", &no_base).unwrap_err(), "invalid integer");
}

#[test]
fn web_sockets_have_their_own_schemes() {
    assert_eq!(ws_base_url("https://h/x").unwrap(), "wss://h/x");
    assert_eq!(ws_base_url("http://h:8080").unwrap(), "ws://h:8080/");
    assert_eq!(ws_base_url("WSS://H").unwrap(), "wss://h/");
    assert_eq!(ws_base_url("ftp://h").unwrap_err().message, "unsupported ws base url scheme");
    assert_eq!(ws_base_url("h").unwrap_err().message, "relative URL without a base");
    assert_eq!(ws_scheme("https").unwrap(), Some("wss"));
    assert_eq!(ws_scheme("ws").unwrap(), None);
    assert_eq!(ws_scheme("file").unwrap_err().message, "unsupported ws base url scheme");
    let live = op("WS", "/live/visitors", vec![]);
    let parts = build(&live, "https://api.openpanel.dev", &given(&[])).unwrap();
    assert_eq!(parts.url, "wss://api.openpanel.dev/live/visitors?");
}

#[test]
fn addresses_beyond_all_measure_are_not_built() {
    let none = Vec::new();
    let long = "é".repeat(0x400_0000);
    assert!(try_build_request(&op("GET", "x", vec![]), &long, &given(&[]), None).is_none());
    assert!(!is_short_address("https://h", &long, &none));
    let ascii = "a".repeat(0x400_0000);
    assert!(is_short_address(&ascii, "x", &none));
    assert!(is_short_address("https://h", "x#f", &vec![pair("a", "b")]));
}

#[test]
fn fragments_stay_behind_the_query() {
    let get = op("GET", "{id}", vec![arg("id", "path", "string"), arg("n", "query", "int")]);
    let parts = build(&get, "https://h#base", &given(&[("id", &["x#f"]), ("n", &["1"])])).unwrap();
    assert_eq!(parts.url, "https://h/x?n=1#f");
}

#[test]
fn a_fragment_counts_the_query() {
    let path = format!("{}#é", "a".repeat(0x3ff_ff00));
    assert!(is_short_address("https://h", &path, &Vec::new()));
    let pairs = vec![pair("n", &"v".repeat(0x1000))];
    assert!(!is_short_address("https://h", &path, &pairs));
    assert!(is_short_address("https://h", &path.replace('#', "b"), &pairs));
}

#[test]
fn dry_runs_show_the_request() {
    let parts = RequestParts {
        url: "https://h/a?".to_string(),
        headers: vec![pair("A", "b")],
        body: None,
    };
    let shown = dry_run_report("GET", parts);
    assert_eq!(
        render_output(&shown, false).unwrap(),
        r#"{"body":null,"headers":[["A","b"]],"method":"GET","url":"https://h/a?"}"#
    );
}

#[test]
fn dry_runs_send_nothing() {
    let (socket, plain) = (op("WS", "live", vec![]), op("GET", "a", vec![]));
    let actions = || {
        [Action::AuthDoctor, Action::EventsQuery, Action::Funnel, Action::Call(&socket), Action::Call(&plain)]
    };
    assert!(actions().iter().all(|action| next_step(true, action) == Step::Show));
    let steps: Vec<Step> = actions().iter().map(|action| next_step(false, action)).collect();
    assert_eq!(steps, vec![Step::Send, Step::Send, Step::Send, Step::Listen, Step::Send]);
}

#[test]
fn dry_runs_show_every_request() {
    let gets = vec![
        Get { path: "a".to_string(), pairs: vec![pair("k", "v w")] },
        Get { path: "b".to_string(), pairs: vec![] },
    ];
    assert!(can_show_gets("https://h", &gets));
    let shown = dry_run_gets("https://h", &gets).unwrap();
    assert_eq!(
        render_output(&shown, false).unwrap(),
        "[{\"body\":null,\"headers\":[],\"method\":\"GET\",\"url\":\"https://h/a?k=v+w\"},\
         {\"body\":null,\"headers\":[],\"method\":\"GET\",\"url\":\"https://h/b?\"}]"
    );
    assert_eq!(dry_run_gets("h", &gets).unwrap_err().message, "relative URL without a base");
}

#[test]
fn query_values_are_settled() {
    for (kind, texts) in [
        ("bool", vec!["YES", "0", "False"]),
        ("int", vec!["+007", "-0", "9223372036854775807"]),
        ("json", vec![" {\"a\": 1} ", "null"]),
        ("string", vec!["", " x "]),
    ] {
        for text in texts {
            let once = parse_query_value(&arg("a", "query", kind), text).unwrap();
            assert_eq!(parse_query_value(&arg("a", "query", kind), &once).unwrap(), once);
        }
    }
    assert_eq!(parse_query_value(&arg("a", "query", "int"), "+007").unwrap(), "7");
}

#[test]
fn written_lists_are_read_back() {
    let plain = arg("types", "body", "string");
    for list in [vec![], vec!["a"], vec!["[x", "\"q\" \\ \n\u{1}", "é\u{10000}"]] {
        let values: Vec<String> = list.iter().map(|v| v.to_string()).collect();
        let one = write_list(&values).unwrap();
        let read = parse_list_value(&plain, &vec![one]).unwrap();
        assert_eq!(read, parse_list_value(&plain, &values).unwrap());
        let texts = values.into_iter().map(Json::Text).collect();
        assert_eq!(read, Json::Array(texts));
    }
    assert_eq!(write_list(&vec!["a".to_string(), "b".to_string()]).unwrap(), r#"["a","b"]"#);
    let odd = parse_list_value(&plain, &vec!["\u{a0}[1]".to_string()]).unwrap_err();
    assert_eq!(odd.message, "invalid JSON list");
}

#[test]
fn calls_carry_the_client() {
    let headers = list_call_headers("id", "key", vec![pair("A", "b")], true);
    assert_eq!(
        headers,
        vec![
            pair("openpanel-client-id", "id"),
            pair("openpanel-client-secret", "key"),
            pair("accept", "application/json"),
            pair("A", "b"),
            pair("content-type", "application/json"),
        ]
    );
    assert_eq!(list_call_headers("id", "key", vec![], false).len(), 3);
}

#[test]
fn headers_of_web_sockets_are_checked() {
    let checked = socket_headers(&vec![pair("X-Trace", "a\tb é"), pair("accept", "")]).unwrap();
    assert_eq!(checked, vec![pair("x-trace", "a\tb é"), pair("accept", "")]);
    let message = |headers: Vec<(String, String)>| socket_headers(&headers).unwrap_err().message;
    assert_eq!(message(vec![pair("a", "b"), pair("", "b")]), "invalid HTTP header name");
    assert_eq!(message(vec![pair("a b", "\n")]), "invalid HTTP header name");
    assert_eq!(message(vec![pair("é", "b")]), "invalid HTTP header name");
    assert_eq!(message(vec![pair("a", "b\nc")]), "failed to parse header value");
    assert_eq!(message(vec![pair("a", "\u{7f}")]), "failed to parse header value");
    assert!(socket_headers(&vec![pair(&"a".repeat(65535), "")]).is_ok());
    assert_eq!(message(vec![pair(&"a".repeat(65536), "")]), "invalid HTTP header name");
    for code in 0u32..0x250 {
        let name = char::from_u32(code).unwrap().to_string();
        let token = name.is_ascii() && (name.chars().all(|c| c.is_ascii_alphanumeric()) || "!#$%&'*+-.^_`|~".contains(&name));
        assert_eq!(socket_headers(&vec![pair(&name, "")]).is_ok(), token, "{code}");
        assert_eq!(check_method(&name).is_ok(), token, "{code}");
    }
}

#[test]
fn methods_are_checked() {
    assert!(check_method("GET").is_ok() && check_method("x-much-longer-method-name").is_ok());
    assert_eq!(check_method("").unwrap_err().message, "invalid HTTP method");
    assert_eq!(check_method("GET /").unwrap_err().message, "invalid HTTP method");
}
