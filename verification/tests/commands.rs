use openpanel::cli::{
    build_arg, build_cli, build_events_query_cmd, build_funnel_cmd, ArgAction, CommandSpec,
    ValueKind,
};
use openpanel::command_tree::{
    describe, describe_with, find_command, find_described, find_op, find_resource, list_json, list_text, op_hint,
    tree_text, unknown_resource, ArgDef, CommandTree, Group, Operation, Resource,
};
use openpanel::dispatch::{
    choose_action, local_command, resolve_settings, Action, LocalCommand, SettingSources,
};
use openpanel::json::Json;
use openpanel::json_path::{parse_json, render_output};

fn arg(name: &str) -> ArgDef {
    ArgDef {
        name: name.to_string(),
        flag: name.replace('_', "-"),
        location: "query".to_string(),
        required: name == "project_id",
        list: name == "event",
        value_type: "string".to_string(),
        path: None,
        header_name: None,
        nullable: false,
    }
}

fn op(name: &str, description: Option<&str>) -> Operation {
    Operation {
        name: name.to_string(),
        method: "GET".to_string(),
        path: format!("/{name}"),
        description: description.map(|d| d.to_string()),
        body_defaults: None,
        args: vec![arg("project_id"), arg("event")],
    }
}

fn tree() -> CommandTree {
    CommandTree {
        version: 1,
        base_url: "https://api.openpanel.dev".to_string(),
        resources: vec![
            Resource {
                name: "export".to_string(),
                ops: vec![op("events", Some("Export events")), op("charts", None)],
                groups: vec![],
            },
            Resource {
                name: "manage".to_string(),
                ops: vec![],
                groups: vec![Group {
                    name: "projects".to_string(),
                    ops: vec![op("list", None), op("create", None)],
                }],
            },
        ],
    }
}

fn path(names: &[&str]) -> Vec<String> {
    names.iter().map(|name| name.to_string()).collect()
}

#[test]
fn operations_are_found_by_their_names() {
    let tree = tree();
    let export = find_resource(&tree, "export").unwrap();
    let manage = find_resource(&tree, "manage").unwrap();
    assert!(find_resource(&tree, "x").is_none());
    assert_eq!(find_op(export, None, "charts").unwrap().name, "charts");
    assert_eq!(find_op(export, Some("any"), "charts").unwrap().name, "charts");
    assert!(find_op(export, None, "x").is_none());
    assert_eq!(find_op(manage, Some("projects"), "create").unwrap().name, "create");
    assert!(find_op(manage, None, "create").is_none());
    assert!(find_op(manage, Some("x"), "create").is_none());
}

#[test]
fn unknown_commands_are_named() {
    let tree = tree();
    let message = |r: &str, g: Option<&str>, o: &str| find_command(&tree, r, g, o).unwrap_err().message;
    assert_eq!(message("x", None, "y"), "unknown resource x");
    assert_eq!(message("export", None, "y"), "unknown command export y");
    assert_eq!(message("manage", Some("g"), "y"), "unknown command manage g y");
    assert_eq!(find_command(&tree, "export", None, "events").unwrap().name, "events");
    assert_eq!(unknown_resource("x").message, "unknown resource x");
    assert_eq!(find_described(&tree, None, None, None).unwrap_err().message, "resource required");
    let no_op = find_described(&tree, Some("x"), None, None).unwrap_err();
    assert_eq!(no_op.message, "operation required");
    let found = find_described(&tree, Some("manage"), Some("projects"), Some("list")).unwrap();
    assert_eq!(found.path, "/list");
}

#[test]
fn hints_fall_back_to_the_request() {
    assert_eq!(op_hint(&op("events", Some("Export events"))), "Export events");
    assert_eq!(op_hint(&op("charts", None)), "GET /charts");
}

#[test]
fn the_tree_is_for_machines() {
    assert_eq!(tree_text(), "Run with --json for machine-readable output.");
}

#[test]
fn resources_are_listed() {
    assert_eq!(
        list_text(&tree()),
        path(&["export", "  events", "  charts", "manage", "  projects", "    list", "    create"])
    );
    assert_eq!(
        render_output(&list_json(&tree()), false).unwrap(),
        "[{\"ops\":[\"events\",\"charts\"],\"resource\":\"export\"},\
         {\"groups\":[{\"group\":\"projects\",\"ops\":[\"list\",\"create\"]}],\"resource\":\"manage\"}]"
    );
}

#[test]
fn operations_are_described() {
    let mut described = op("events", Some("Export events"));
    described.body_defaults = Some(parse_json("{\"a\": 1}", "no JSON").unwrap());
    assert_eq!(
        describe("export", None, &described).unwrap(),
        path(&[
            "export events",
            "  method: GET",
            "  path: /events",
            "  description: Export events",
            "  body defaults: {\"a\":1}",
            "  args:",
            "    --project-id  [string (required)]",
            "    --event  [string]",
        ])
    );
    described.body_defaults = Some(Json::Null);
    described.description = None;
    described.args = vec![];
    assert_eq!(
        describe("manage", Some("projects"), &described).unwrap(),
        path(&["manage projects events", "  method: GET", "  path: /events"])
    );
    assert_eq!(
        describe_with("r", None, &described, Some("x".to_string()))[3],
        "  body defaults: x"
    );
}

fn command<'a>(commands: &'a Vec<CommandSpec>, names: &[&str]) -> &'a CommandSpec {
    commands.iter().find(|command| command.path == path(names)).unwrap()
}

#[test]
fn every_operation_has_a_command() {
    let cli = build_cli(&tree());
    assert_eq!(cli.name, "openpanel");
    assert_eq!(cli.args.len(), 9);
    assert!(cli.args.iter().all(|arg| arg.global));
    assert_eq!(cli.args[3].kind, ValueKind::U64);
    assert_eq!(cli.args[8].action, ArgAction::Append);
    let events = command(&cli.commands, &["export", "events"]);
    assert_eq!(events.about, "Export events");
    assert_eq!(events.args.len(), 3);
    assert_eq!(events.args[2].id, "debug_pagination");
    assert_eq!(command(&cli.commands, &["export", "charts"]).args.len(), 2);
    assert_eq!(command(&cli.commands, &["manage", "projects", "create"]).about, "GET /create");
    assert!(command(&cli.commands, &["manage", "projects"]).needs_subcommand);
    assert_eq!(command(&cli.commands, &["export", "events-bulk"]).args.len(), 13);
    assert_eq!(command(&cli.commands, &["events", "query"]).args[8].choices.len(), 4);
    assert_eq!(command(&cli.commands, &["analytics", "funnel"]).args.len(), 12);
    assert_eq!(cli.commands.len(), 5 + 4 + 4 + 4);
    let firsts: Vec<&str> = cli.commands.iter().map(|c| c.path[0].as_str()).collect();
    assert_eq!(firsts[0], "list");
    assert_eq!(firsts[16], "analytics");
}

#[test]
fn describe_takes_two_names_or_three() {
    let cli = build_cli(&tree());
    let describe = command(&cli.commands, &["describe"]);
    assert!(describe.has_gap);
    let required: Vec<bool> = describe.args.iter().map(|arg| arg.required).collect();
    assert_eq!(required, vec![true, false, true, false]);
    assert!(describe.args[0].long.is_none());
}

#[test]
fn arguments_become_flags() {
    let built = build_arg(&arg("project_id"));
    assert_eq!(built.id, "project_id");
    assert_eq!(built.long, Some("project-id".to_string()));
    assert_eq!(built.value_name, Some("string".to_string()));
    assert!(built.required && built.action == ArgAction::Take);
    let listed = build_arg(&arg("event"));
    assert!(!listed.required && listed.action == ArgAction::Append);
    let query = build_events_query_cmd(path(&["q"]));
    assert_eq!(query.args[10].default, Some("1000".to_string()));
    assert_eq!(query.args[10].kind, ValueKind::Usize);
    assert_eq!(build_funnel_cmd(path(&["f"])).args[2].choices[1], "deviceId");
}

#[test]
fn names_lead_to_actions() {
    let tree = tree();
    let chosen = |names: &[&str]| choose_action(&tree, &path(names)).map_err(|e| e.message);
    assert_eq!(chosen(&["auth", "doctor"]), Ok(Action::AuthDoctor));
    assert_eq!(chosen(&["events", "query"]), Ok(Action::EventsQuery));
    assert_eq!(chosen(&["export", "events-bulk"]), Ok(Action::EventsQuery));
    assert_eq!(chosen(&["analytics", "funnel"]), Ok(Action::Funnel));
    let call = chosen(&["manage", "projects", "create"]);
    assert!(matches!(call, Ok(Action::Call(op)) if op.name == "create"));
    let plain = chosen(&["export", "events"]);
    assert!(matches!(plain, Ok(Action::Call(op)) if op.name == "events"));
}

#[test]
fn names_that_lead_nowhere_are_refused() {
    let tree = tree();
    let message = |names: &[&str]| choose_action(&tree, &path(names)).unwrap_err().message;
    assert_eq!(message(&[]), "resource required");
    assert_eq!(message(&["auth"]), "operation required");
    assert_eq!(message(&["auth", "x"]), "unknown auth operation");
    assert_eq!(message(&["events", "x"]), "unknown events operation");
    assert_eq!(message(&["analytics", "x"]), "unknown analytics operation");
    assert_eq!(message(&["x", "y"]), "unknown resource x");
    assert_eq!(message(&["export"]), "operation required");
    assert_eq!(message(&["export", "x"]), "unknown command export x");
    assert_eq!(message(&["manage"]), "group required");
    assert_eq!(message(&["manage", "projects"]), "operation required");
    assert_eq!(message(&["manage", "projects", "x"]), "unknown command manage projects x");
}

#[test]
fn some_commands_need_no_settings() {
    assert_eq!(local_command(&path(&["list"])), Some(LocalCommand::List));
    assert_eq!(local_command(&path(&["describe"])), Some(LocalCommand::Describe));
    assert_eq!(local_command(&path(&["tree"])), Some(LocalCommand::Tree));
    assert_eq!(local_command(&path(&["export", "list"])), None);
    assert_eq!(local_command(&path(&[])), None);
}

#[test]
fn flags_come_before_the_environment() {
    let text = |s: &str| Some(s.to_string());
    let mut sources = SettingSources {
        api_url: None,
        api_url_env: None,
        client_id: None,
        client_id_env: None,
        client_secret: None,
        client_secret_env: None,
        timeout: None,
    };
    let fault = resolve_settings(&sources, "https://d").unwrap_err();
    assert_eq!(fault.message, "OPENPANEL_CLIENT_ID missing");
    sources.client_id_env = text("env id");
    let fault = resolve_settings(&sources, "https://d").unwrap_err();
    assert_eq!(fault.message, "OPENPANEL_CLIENT_SECRET missing");
    sources.client_secret_env = text("env key");
    sources.client_secret = text("flag key");
    let settings = resolve_settings(&sources, "https://d").unwrap();
    assert_eq!(settings.base_url, "https://d");
    assert_eq!(settings.client_id, "env id");
    assert_eq!(settings.client_secret, "flag key");
    assert_eq!(settings.timeout, 30);
    sources.api_url_env = text("https://e");
    sources.timeout = Some(5);
    let settings = resolve_settings(&sources, "https://d").unwrap();
    assert_eq!((settings.base_url.as_str(), settings.timeout), ("https://e", 5));
    sources.api_url = text("https://f");
    assert_eq!(resolve_settings(&sources, "https://d").unwrap().base_url, "https://f");
}
