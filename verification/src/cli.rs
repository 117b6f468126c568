//! The command line: its commands, and the arguments of each.

use crate::command_tree::{
    self, op_hint, ArgDef, ArgView, CommandTree, GroupView, Operation, OperationView, Resource,
    ResourceView, TreeView,
};
use crate::numeral;
use crate::query::{self, QueryArgs};
use crate::text::{self, push_text, same};
use vstd::prelude::*;

verus! {

/// What is done with the values of an argument.
#[derive(Clone, Copy, Debug, PartialEq, Eq, Structural)]
pub enum ArgAction {
    Take,
    Switch,
    Append,
}

/// What the values of an argument are.
#[derive(Clone, Copy, Debug, PartialEq, Eq, Structural)]
pub enum ValueKind {
    Text,
    U64,
    Usize,
}

/// An argument of a command. One without a flag is taken by its position.
#[derive(Debug, PartialEq, Eq)]
pub struct ArgSpec {
    pub id: String,
    pub long: Option<String>,
    pub value_name: Option<String>,
    pub help: Option<String>,
    pub required: bool,
    pub global: bool,
    pub action: ArgAction,
    pub kind: ValueKind,
    pub default: Option<String>,
    pub choices: Vec<String>,
}

/// What an argument of a command is.
#[verifier::ext_equal]
pub struct ArgSpecView {
    pub id: Seq<char>,
    pub long: Option<Seq<char>>,
    pub value_name: Option<Seq<char>>,
    pub help: Option<Seq<char>>,
    pub required: bool,
    pub global: bool,
    pub action: ArgAction,
    pub kind: ValueKind,
    pub default: Option<Seq<char>>,
    pub choices: Seq<Seq<char>>,
}

impl View for ArgSpec {
    type V = ArgSpecView;

    open spec fn view(&self) -> ArgSpecView {
        ArgSpecView {
            id: self.id@,
            long: text::owned_text(self.long),
            value_name: text::owned_text(self.value_name),
            help: text::owned_text(self.help),
            required: self.required,
            global: self.global,
            action: self.action,
            kind: self.kind,
            default: text::owned_text(self.default),
            choices: text::texts(self.choices@),
        }
    }
}

/// The arguments of a list.
pub open spec fn arg_spec_views(list: Seq<ArgSpec>) -> Seq<ArgSpecView> {
    Seq::new(list.len(), |i: int| list[i]@)
}

impl ArgSpecView {
    /// An optional text with a name, taken by its position.
    pub open spec fn named(id: Seq<char>) -> ArgSpecView {
        ArgSpecView {
            id,
            long: None,
            value_name: None,
            help: None,
            required: false,
            global: false,
            action: ArgAction::Take,
            kind: ValueKind::Text,
            default: None,
            choices: seq![],
        }
    }

    /// The argument, taken by a flag.
    pub open spec fn with_long(self, long: Seq<char>) -> ArgSpecView {
        ArgSpecView { long: Some(long), ..self }
    }

    /// The argument, with a name for its value.
    pub open spec fn with_value_name(self, name: Seq<char>) -> ArgSpecView {
        ArgSpecView { value_name: Some(name), ..self }
    }

    /// The argument, with a line of help.
    pub open spec fn with_help(self, help: Seq<char>) -> ArgSpecView {
        ArgSpecView { help: Some(help), ..self }
    }

    /// The argument, which must be given.
    pub open spec fn as_required(self) -> ArgSpecView {
        ArgSpecView { required: true, ..self }
    }

    /// The argument, which the commands below take too.
    pub open spec fn as_global(self) -> ArgSpecView {
        ArgSpecView { global: true, ..self }
    }

    /// The argument, with what is done with its values.
    pub open spec fn with_action(self, action: ArgAction) -> ArgSpecView {
        ArgSpecView { action, ..self }
    }

    /// The argument, with what its values are.
    pub open spec fn with_kind(self, kind: ValueKind) -> ArgSpecView {
        ArgSpecView { kind, ..self }
    }

    /// The argument, with the value that it has where none is given.
    pub open spec fn with_default(self, value: Seq<char>) -> ArgSpecView {
        ArgSpecView { default: Some(value), ..self }
    }

    /// The argument, with one more value that it may have.
    pub open spec fn with_choice(self, choice: Seq<char>) -> ArgSpecView {
        ArgSpecView { choices: self.choices.push(choice), ..self }
    }
}

impl ArgSpec {
    /// An optional text with a name, taken by its position.
    fn new(id: &str) -> (r: ArgSpec)
        ensures
            r@ == ArgSpecView::named(id@),
    {
        let r = ArgSpec {
            id: id.to_string(),
            long: None,
            value_name: None,
            help: None,
            required: false,
            global: false,
            action: ArgAction::Take,
            kind: ValueKind::Text,
            default: None,
            choices: Vec::new(),
        };
        proof {
            assert(r@ =~= ArgSpecView::named(id@));
        }
        r
    }

    /// The argument, taken by a flag.
    fn with_long(self, long: &str) -> (r: ArgSpec)
        ensures
            r@ == self@.with_long(long@),
    {
        ArgSpec { long: Some(long.to_string()), ..self }
    }

    /// The argument, with a name for its value.
    fn with_value_name(self, name: &str) -> (r: ArgSpec)
        ensures
            r@ == self@.with_value_name(name@),
    {
        ArgSpec { value_name: Some(name.to_string()), ..self }
    }

    /// The argument, with a line of help.
    fn with_help(self, help: &str) -> (r: ArgSpec)
        ensures
            r@ == self@.with_help(help@),
    {
        ArgSpec { help: Some(help.to_string()), ..self }
    }

    /// The argument, which must be given.
    fn as_required(self) -> (r: ArgSpec)
        ensures
            r@ == self@.as_required(),
    {
        ArgSpec { required: true, ..self }
    }

    /// The argument, which the commands below take too.
    fn as_global(self) -> (r: ArgSpec)
        ensures
            r@ == self@.as_global(),
    {
        ArgSpec { global: true, ..self }
    }

    /// The argument, with what is done with its values.
    fn with_action(self, action: ArgAction) -> (r: ArgSpec)
        ensures
            r@ == self@.with_action(action),
    {
        ArgSpec { action, ..self }
    }

    /// The argument, with what its values are.
    fn with_kind(self, kind: ValueKind) -> (r: ArgSpec)
        ensures
            r@ == self@.with_kind(kind),
    {
        ArgSpec { kind, ..self }
    }

    /// The argument, with the value that it has where none is given.
    fn with_default(self, value: &str) -> (r: ArgSpec)
        ensures
            r@ == self@.with_default(value@),
    {
        ArgSpec { default: Some(value.to_string()), ..self }
    }

    /// The argument, with one more value that it may have.
    fn with_choice(self, choice: &str) -> (r: ArgSpec)
        ensures
            r@ == self@.with_choice(choice@),
    {
        let mut r = self;
        push_text(&mut r.choices, choice.to_string());
        r
    }
}

/// The arguments that every command takes.
pub open spec fn shared_args() -> Seq<ArgSpecView> {
    seq![
        ArgSpecView::named("api_url"@).with_long("api-url"@).with_value_name("URL"@).as_global()
            .with_help("Override API base URL (default: https://api.openpanel.dev)"@),
        ArgSpecView::named("client_id"@).with_long("client-id"@).with_value_name("ID"@)
            .as_global().with_help("OpenPanel client ID (env: OPENPANEL_CLIENT_ID)"@),
        ArgSpecView::named("client_secret"@).with_long("client-secret"@)
            .with_value_name("SECRET"@).as_global()
            .with_help("OpenPanel client secret (env: OPENPANEL_CLIENT_SECRET)"@),
        ArgSpecView::named("timeout"@).with_long("timeout"@).with_value_name("SECONDS"@)
            .as_global().with_kind(ValueKind::U64)
            .with_help("HTTP timeout in seconds (default: 30)"@),
        ArgSpecView::named("pretty"@).with_long("pretty"@).as_global()
            .with_action(ArgAction::Switch).with_help("Pretty-print JSON output"@),
        ArgSpecView::named("raw"@).with_long("raw"@).as_global().with_action(ArgAction::Switch)
            .with_help("Return full HTTP response (status, headers, body)"@),
        ArgSpecView::named("dry_run"@).with_long("dry-run"@).as_global()
            .with_action(ArgAction::Switch).with_help("Print request without executing"@),
        ArgSpecView::named("body"@).with_long("body"@).with_value_name("JSON"@).as_global()
            .with_help("Provide full JSON body for POST/PATCH/PUT"@),
        ArgSpecView::named("header"@).with_long("header"@).with_value_name("KEY=VALUE"@)
            .as_global().with_action(ArgAction::Append)
            .with_help("Add custom header (repeatable, KEY=VALUE or KEY:VALUE)"@),
    ]
}

/// Lists the arguments that every command takes.
fn build_shared_args() -> (r: Vec<ArgSpec>)
    ensures
        arg_spec_views(r@) == shared_args(),
{
    let mut out: Vec<ArgSpec> = Vec::new();
    out.push(
        ArgSpec::new("api_url").with_long("api-url").with_value_name("URL").as_global()
            .with_help("Override API base URL (default: https://api.openpanel.dev)"),
    );
    out.push(
        ArgSpec::new("client_id").with_long("client-id").with_value_name("ID").as_global()
            .with_help("OpenPanel client ID (env: OPENPANEL_CLIENT_ID)"),
    );
    out.push(
        ArgSpec::new("client_secret").with_long("client-secret").with_value_name("SECRET")
            .as_global().with_help("OpenPanel client secret (env: OPENPANEL_CLIENT_SECRET)"),
    );
    out.push(
        ArgSpec::new("timeout").with_long("timeout").with_value_name("SECONDS").as_global()
            .with_kind(ValueKind::U64).with_help("HTTP timeout in seconds (default: 30)"),
    );
    out.push(
        ArgSpec::new("pretty").with_long("pretty").as_global().with_action(ArgAction::Switch)
            .with_help("Pretty-print JSON output"),
    );
    out.push(
        ArgSpec::new("raw").with_long("raw").as_global().with_action(ArgAction::Switch)
            .with_help("Return full HTTP response (status, headers, body)"),
    );
    out.push(
        ArgSpec::new("dry_run").with_long("dry-run").as_global().with_action(ArgAction::Switch)
            .with_help("Print request without executing"),
    );
    out.push(
        ArgSpec::new("body").with_long("body").with_value_name("JSON").as_global()
            .with_help("Provide full JSON body for POST/PATCH/PUT"),
    );
    out.push(
        ArgSpec::new("header").with_long("header").with_value_name("KEY=VALUE").as_global()
            .with_action(ArgAction::Append)
            .with_help("Add custom header (repeatable, KEY=VALUE or KEY:VALUE)"),
    );
    proof {
        assert(arg_spec_views(out@) =~= shared_args());
    }
    out
}

/// The argument that asks for JSON.
pub open spec fn json_args() -> Seq<ArgSpecView> {
    seq![
        ArgSpecView::named("json"@).with_long("json"@).with_action(ArgAction::Switch)
            .with_help("Emit machine-readable JSON"@),
    ]
}

/// Lists the argument that asks for JSON.
fn build_json_args() -> (r: Vec<ArgSpec>)
    ensures
        arg_spec_views(r@) == json_args(),
{
    let mut out: Vec<ArgSpec> = Vec::new();
    out.push(
        ArgSpec::new("json").with_long("json").with_action(ArgAction::Switch)
            .with_help("Emit machine-readable JSON"),
    );
    proof {
        assert(arg_spec_views(out@) =~= json_args());
    }
    out
}

/// The arguments of `describe`.
pub open spec fn describe_args() -> Seq<ArgSpecView> {
    seq![
        ArgSpecView::named("resource"@).as_required(),
        ArgSpecView::named("group"@),
        ArgSpecView::named("op"@).as_required(),
        ArgSpecView::named("json"@).with_long("json"@).with_action(ArgAction::Switch)
            .with_help("Emit machine-readable JSON"@),
    ]
}

/// Lists the arguments of `describe`.
fn build_describe_args() -> (r: Vec<ArgSpec>)
    ensures
        arg_spec_views(r@) == describe_args(),
{
    let mut out: Vec<ArgSpec> = Vec::new();
    out.push(ArgSpec::new("resource").as_required());
    out.push(ArgSpec::new("group"));
    out.push(ArgSpec::new("op").as_required());
    out.push(
        ArgSpec::new("json").with_long("json").with_action(ArgAction::Switch)
            .with_help("Emit machine-readable JSON"),
    );
    proof {
        assert(arg_spec_views(out@) =~= describe_args());
    }
    out
}

/// The arguments of `auth doctor`.
pub open spec fn doctor_args() -> Seq<ArgSpecView> {
    seq![
        ArgSpecView::named("project_id"@).with_long("project-id"@).as_required(),
        ArgSpecView::named("range"@).with_long("range"@).with_default("today"@)
            .with_help("Insights range used for the read probe"@),
    ]
}

/// Lists the arguments of `auth doctor`.
fn build_doctor_args() -> (r: Vec<ArgSpec>)
    ensures
        arg_spec_views(r@) == doctor_args(),
{
    let mut out: Vec<ArgSpec> = Vec::new();
    out.push(ArgSpec::new("project_id").with_long("project-id").as_required());
    out.push(
        ArgSpec::new("range").with_long("range").with_default("today")
            .with_help("Insights range used for the read probe"),
    );
    proof {
        assert(arg_spec_views(out@) =~= doctor_args());
    }
    out
}

/// The arguments of an event query.
pub open spec fn query_args() -> Seq<ArgSpecView> {
    seq![
        ArgSpecView::named("project_id"@).with_long("project-id"@).as_required(),
        ArgSpecView::named("events"@).with_long("events"@).as_required(),
        ArgSpecView::named("start"@).with_long("start"@),
        ArgSpecView::named("end"@).with_long("end"@),
        ArgSpecView::named("day"@).with_long("day"@).with_help("Local day as YYYY-MM-DD"@),
        ArgSpecView::named("tz_offset"@).with_long("tz-offset"@).with_default("+00:00"@)
            .with_help("Fixed offset like +07:00"@),
        ArgSpecView::named("where"@).with_long("where"@),
        ArgSpecView::named("select"@).with_long("select"@),
        ArgSpecView::named("format"@).with_long("format"@).with_default("jsonl"@)
            .with_choice("jsonl"@).with_choice("json"@).with_choice("csv"@).with_choice("table"@),
        ArgSpecView::named("output"@).with_long("output"@),
        ArgSpecView::named("limit"@).with_long("limit"@).with_kind(ValueKind::Usize)
            .with_default("1000"@),
        ArgSpecView::named("max_pages"@).with_long("max-pages"@).with_kind(ValueKind::Usize),
        ArgSpecView::named("debug"@).with_long("debug"@).with_action(ArgAction::Switch)
            .with_help("Write fetch diagnostics to stderr"@),
    ]
}

/// Lists the arguments of an event query.
fn build_query_args() -> (r: Vec<ArgSpec>)
    ensures
        arg_spec_views(r@) == query_args(),
{
    let mut out: Vec<ArgSpec> = Vec::new();
    out.push(ArgSpec::new("project_id").with_long("project-id").as_required());
    out.push(ArgSpec::new("events").with_long("events").as_required());
    out.push(ArgSpec::new("start").with_long("start"));
    out.push(ArgSpec::new("end").with_long("end"));
    out.push(ArgSpec::new("day").with_long("day").with_help("Local day as YYYY-MM-DD"));
    out.push(
        ArgSpec::new("tz_offset").with_long("tz-offset").with_default("+00:00")
            .with_help("Fixed offset like +07:00"),
    );
    out.push(ArgSpec::new("where").with_long("where"));
    out.push(ArgSpec::new("select").with_long("select"));
    out.push(
        ArgSpec::new("format").with_long("format").with_default("jsonl").with_choice("jsonl")
            .with_choice("json").with_choice("csv").with_choice("table"),
    );
    out.push(ArgSpec::new("output").with_long("output"));
    out.push(
        ArgSpec::new("limit").with_long("limit").with_kind(ValueKind::Usize).with_default("1000"),
    );
    out.push(ArgSpec::new("max_pages").with_long("max-pages").with_kind(ValueKind::Usize));
    out.push(
        ArgSpec::new("debug").with_long("debug").with_action(ArgAction::Switch)
            .with_help("Write fetch diagnostics to stderr"),
    );
    proof {
        assert(arg_spec_views(out@) =~= query_args());
    }
    out
}

/// The arguments of a funnel.
pub open spec fn funnel_args() -> Seq<ArgSpecView> {
    seq![
        ArgSpecView::named("project_id"@).with_long("project-id"@).as_required(),
        ArgSpecView::named("steps"@).with_long("steps"@).as_required(),
        ArgSpecView::named("unit"@).with_long("unit"@).with_default("sessionId"@)
            .with_choice("sessionId"@).with_choice("deviceId"@).with_choice("profileId"@),
        ArgSpecView::named("start"@).with_long("start"@),
        ArgSpecView::named("end"@).with_long("end"@),
        ArgSpecView::named("day"@).with_long("day"@),
        ArgSpecView::named("tz_offset"@).with_long("tz-offset"@).with_default("+00:00"@),
        ArgSpecView::named("where"@).with_long("where"@),
        ArgSpecView::named("format"@).with_long("format"@).with_default("table"@)
            .with_choice("json"@).with_choice("table"@),
        ArgSpecView::named("limit"@).with_long("limit"@).with_kind(ValueKind::Usize)
            .with_default("1000"@),
        ArgSpecView::named("max_pages"@).with_long("max-pages"@).with_kind(ValueKind::Usize),
        ArgSpecView::named("debug"@).with_long("debug"@).with_action(ArgAction::Switch),
    ]
}

/// Lists the arguments of a funnel.
fn build_funnel_args() -> (r: Vec<ArgSpec>)
    ensures
        arg_spec_views(r@) == funnel_args(),
{
    let mut out: Vec<ArgSpec> = Vec::new();
    out.push(ArgSpec::new("project_id").with_long("project-id").as_required());
    out.push(ArgSpec::new("steps").with_long("steps").as_required());
    out.push(
        ArgSpec::new("unit").with_long("unit").with_default("sessionId").with_choice("sessionId")
            .with_choice("deviceId").with_choice("profileId"),
    );
    out.push(ArgSpec::new("start").with_long("start"));
    out.push(ArgSpec::new("end").with_long("end"));
    out.push(ArgSpec::new("day").with_long("day"));
    out.push(ArgSpec::new("tz_offset").with_long("tz-offset").with_default("+00:00"));
    out.push(ArgSpec::new("where").with_long("where"));
    out.push(
        ArgSpec::new("format").with_long("format").with_default("table").with_choice("json")
            .with_choice("table"),
    );
    out.push(
        ArgSpec::new("limit").with_long("limit").with_kind(ValueKind::Usize).with_default("1000"),
    );
    out.push(ArgSpec::new("max_pages").with_long("max-pages").with_kind(ValueKind::Usize));
    out.push(ArgSpec::new("debug").with_long("debug").with_action(ArgAction::Switch));
    proof {
        assert(arg_spec_views(out@) =~= funnel_args());
    }
    out
}

/// The argument that asks for diagnostics of a page of events.
pub open spec fn pagination_args() -> Seq<ArgSpecView> {
    seq![
        ArgSpecView::named("debug_pagination"@).with_long("debug-pagination"@)
            .with_action(ArgAction::Switch)
            .with_help("Print pagination diagnostics for this page"@),
    ]
}

/// Lists the argument that asks for diagnostics of a page of events.
fn build_pagination_args() -> (r: Vec<ArgSpec>)
    ensures
        arg_spec_views(r@) == pagination_args(),
{
    let mut out: Vec<ArgSpec> = Vec::new();
    out.push(
        ArgSpec::new("debug_pagination").with_long("debug-pagination")
            .with_action(ArgAction::Switch)
            .with_help("Print pagination diagnostics for this page"),
    );
    proof {
        assert(arg_spec_views(out@) =~= pagination_args());
    }
    out
}

/// The argument of the command line for an argument of an operation.
pub open spec fn arg_of(arg: ArgView) -> ArgSpecView {
    let base = ArgSpecView::named(arg.name).with_long(arg.flag).with_value_name(arg.value_type);
    ArgSpecView {
        action: if arg.list {
            ArgAction::Append
        } else {
            ArgAction::Take
        },
        required: arg.required,
        ..base
    }
}

/// Builds the argument of the command line for an argument of an operation.
pub fn build_arg(arg: &ArgDef) -> (r: ArgSpec)
    ensures
        r@ == arg_of(arg@),
{
    let mut built = ArgSpec::new(arg.name.as_str()).with_long(arg.flag.as_str()).with_value_name(
        arg.value_type.as_str(),
    );
    if arg.list {
        built = built.with_action(ArgAction::Append);
    }
    if arg.required {
        built = built.as_required();
    }
    built
}

/// A command, by the names that lead to it. A command that needs another one below it shows its help
/// where it is given nothing. One with a gap has an optional position before a required one.
#[derive(Debug, PartialEq, Eq)]
pub struct CommandSpec {
    pub path: Vec<String>,
    pub about: String,
    pub needs_subcommand: bool,
    pub has_gap: bool,
    pub args: Vec<ArgSpec>,
}

/// What a command is.
#[verifier::ext_equal]
pub struct CommandView {
    pub path: Seq<Seq<char>>,
    pub about: Seq<char>,
    pub needs_subcommand: bool,
    pub has_gap: bool,
    pub args: Seq<ArgSpecView>,
}

impl View for CommandSpec {
    type V = CommandView;

    open spec fn view(&self) -> CommandView {
        CommandView {
            path: text::texts(self.path@),
            about: self.about@,
            needs_subcommand: self.needs_subcommand,
            has_gap: self.has_gap,
            args: arg_spec_views(self.args@),
        }
    }
}

/// The commands of a list.
pub open spec fn command_views(list: Seq<CommandSpec>) -> Seq<CommandView> {
    Seq::new(list.len(), |i: int| list[i]@)
}

/// A command that only leads to others.
pub open spec fn parent(path: Seq<Seq<char>>, about: Seq<char>) -> CommandView {
    CommandView { path, about, needs_subcommand: true, has_gap: false, args: seq![] }
}

/// A command with arguments.
pub open spec fn leaf(path: Seq<Seq<char>>, about: Seq<char>, args: Seq<ArgSpecView>) -> CommandView {
    CommandView { path, about, needs_subcommand: false, has_gap: false, args }
}

/// A path of one name.
fn path_of_one(a: &str) -> (r: Vec<String>)
    ensures
        text::texts(r@) == seq![a@],
{
    let mut path: Vec<String> = Vec::new();
    path.push(a.to_string());
    proof {
        assert(text::texts(path@) =~= seq![a@]);
    }
    path
}

/// A path of two names.
fn path_of_two(a: &str, b: &str) -> (r: Vec<String>)
    ensures
        text::texts(r@) == seq![a@, b@],
{
    let mut path: Vec<String> = Vec::new();
    path.push(a.to_string());
    path.push(b.to_string());
    proof {
        assert(text::texts(path@) =~= seq![a@, b@]);
    }
    path
}

/// A path of three names.
fn path_of_three(a: &str, b: &str, c: &str) -> (r: Vec<String>)
    ensures
        text::texts(r@) == seq![a@, b@, c@],
{
    let mut path: Vec<String> = Vec::new();
    path.push(a.to_string());
    path.push(b.to_string());
    path.push(c.to_string());
    proof {
        assert(text::texts(path@) =~= seq![a@, b@, c@]);
    }
    path
}

/// Builds a command that only leads to others.
fn build_parent(path: Vec<String>, about: &str) -> (r: CommandSpec)
    ensures
        r@ == parent(text::texts(path@), about@),
{
    let args: Vec<ArgSpec> = Vec::new();
    proof {
        assert(arg_spec_views(args@) =~= seq![]);
    }
    CommandSpec { path, about: about.to_string(), needs_subcommand: true, has_gap: false, args }
}

/// Builds a command with arguments.
fn build_leaf(path: Vec<String>, about: &str, args: Vec<ArgSpec>) -> (r: CommandSpec)
    ensures
        r@ == leaf(text::texts(path@), about@, arg_spec_views(args@)),
{
    CommandSpec { path, about: about.to_string(), needs_subcommand: false, has_gap: false, args }
}

/// Appends a command to a list.
fn push_command(list: &mut Vec<CommandSpec>, command: CommandSpec)
    ensures
        command_views(final(list)@) == command_views(old(list)@).push(command@),
{
    let ghost before = list@;
    list.push(command);
    proof {
        assert(command_views(list@) =~= command_views(before).push(command@));
    }
}

/// The command of an event query.
pub open spec fn query_command(path: Seq<Seq<char>>) -> CommandView {
    leaf(path, "Paginate, exact-filter, project, and stream OpenPanel events"@, query_args())
}

/// Builds the command of an event query.
pub fn build_events_query_cmd(path: Vec<String>) -> (r: CommandSpec)
    ensures
        r@ == query_command(text::texts(path@)),
{
    build_leaf(
        path,
        "Paginate, exact-filter, project, and stream OpenPanel events",
        build_query_args(),
    )
}

/// The command of a funnel.
pub open spec fn funnel_command(path: Seq<Seq<char>>) -> CommandView {
    leaf(path, "Build a funnel from raw events"@, funnel_args())
}

/// Builds the command of a funnel.
pub fn build_funnel_cmd(path: Vec<String>) -> (r: CommandSpec)
    ensures
        r@ == funnel_command(text::texts(path@)),
{
    build_leaf(path, "Build a funnel from raw events", build_funnel_args())
}

/// The arguments of the command line for those of an operation.
pub open spec fn args_of(args: Seq<ArgView>) -> Seq<ArgSpecView> {
    Seq::new(args.len(), |i: int| arg_of(args[i]))
}

/// The command of an operation, with more arguments than its own.
pub open spec fn op_command(
    path: Seq<Seq<char>>,
    op: OperationView,
    more: Seq<ArgSpecView>,
) -> CommandView {
    leaf(path, command_tree::hint(op), args_of(op.args) + more)
}

/// Builds the command of an operation, with more arguments than its own.
fn build_op_command(path: Vec<String>, op: &Operation, more: Vec<ArgSpec>) -> (r: CommandSpec)
    ensures
        r@ == op_command(text::texts(path@), op@, arg_spec_views(more@)),
{
    let mut args: Vec<ArgSpec> = Vec::new();
    let ghost want = args_of(op@.args);
    let mut i: usize = 0;
    while i < op.args.len()
        invariant
            i <= op.args@.len(),
            want == args_of(command_tree::arg_views(op.args@)),
            args@.len() == i,
            forall|j: int| 0 <= j < i ==> (#[trigger] args@[j])@ == want[j],
        decreases op.args@.len() - i,
    {
        args.push(build_arg(&op.args[i]));
        i = i + 1;
    }
    let mut more = more;
    let ghost own = args@;
    let ghost others = more@;
    args.append(&mut more);
    proof {
        assert(arg_spec_views(own + others) =~= want + arg_spec_views(others));
    }
    build_leaf(path, op_hint(op).as_str(), args)
}

/// The arguments that an operation without a group has beside its own.
pub open spec fn extra_args(resource: Seq<char>, op: Seq<char>) -> Seq<ArgSpecView> {
    if resource == "export"@ && op == "events"@ {
        pagination_args()
    } else {
        seq![]
    }
}

/// The commands of the operations of a resource without groups.
pub open spec fn plain_commands(resource: Seq<char>, ops: Seq<OperationView>) -> Seq<CommandView> {
    Seq::new(
        ops.len(),
        |i: int|
            op_command(seq![resource, ops[i].name], ops[i], extra_args(resource, ops[i].name)),
    )
}

/// The commands of the operations of a group.
pub open spec fn grouped_commands(
    resource: Seq<char>,
    group: Seq<char>,
    ops: Seq<OperationView>,
) -> Seq<CommandView> {
    Seq::new(
        ops.len(),
        |i: int| op_command(seq![resource, group, ops[i].name], ops[i], seq![]),
    )
}

/// The commands of the groups of a resource.
pub open spec fn group_commands(resource: Seq<char>, groups: Seq<GroupView>) -> Seq<CommandView>
    decreases groups.len(),
{
    if groups.len() == 0 {
        seq![]
    } else {
        let group = groups.last();
        group_commands(resource, groups.drop_last()) + seq![
            parent(seq![resource, group.name], group.name),
        ] + grouped_commands(resource, group.name, group.ops)
    }
}

/// The commands of a resource.
pub open spec fn resource_commands(resource: ResourceView) -> Seq<CommandView> {
    seq![parent(seq![resource.name], resource.name)] + if resource.groups.len() > 0 {
        group_commands(resource.name, resource.groups)
    } else if resource.name == "export"@ {
        plain_commands(resource.name, resource.ops) + seq![
            query_command(seq![resource.name, "events-bulk"@]),
        ]
    } else {
        plain_commands(resource.name, resource.ops)
    }
}

/// The commands of all resources.
pub open spec fn tree_commands(resources: Seq<ResourceView>) -> Seq<CommandView>
    decreases resources.len(),
{
    if resources.len() == 0 {
        seq![]
    } else {
        tree_commands(resources.drop_last()) + resource_commands(resources.last())
    }
}

/// The commands that stand before those of the resources.
pub open spec fn first_commands() -> Seq<CommandView> {
    seq![
        leaf(seq!["list"@], "List resources and operations"@, json_args()),
        CommandView {
            has_gap: true,
            ..leaf(seq!["describe"@], "Describe a specific operation"@, describe_args())
        },
        leaf(seq!["tree"@], "Show full command tree"@, json_args()),
        parent(seq!["auth"@], "Authentication diagnostics"@),
        leaf(
            seq!["auth"@, "doctor"@],
            "Classify the configured OpenPanel API client as root, read, or write/invalid"@,
            doctor_args(),
        ),
    ]
}

/// The commands that stand behind those of the resources.
pub open spec fn last_commands() -> Seq<CommandView> {
    seq![
        parent(seq!["events"@], "Event analytics workflows"@),
        query_command(seq!["events"@, "query"@]),
        parent(seq!["analytics"@], "Analytics summaries"@),
        funnel_command(seq!["analytics"@, "funnel"@]),
    ]
}

/// The whole command line: what it is called and said to be, the arguments that every command takes,
/// and the commands.
#[derive(Debug, PartialEq, Eq)]
pub struct Cli {
    pub name: String,
    pub about: String,
    pub args: Vec<ArgSpec>,
    pub commands: Vec<CommandSpec>,
}

/// What the whole command line is.
#[verifier::ext_equal]
pub struct CliView {
    pub name: Seq<char>,
    pub about: Seq<char>,
    pub args: Seq<ArgSpecView>,
    pub commands: Seq<CommandView>,
}

impl View for Cli {
    type V = CliView;

    open spec fn view(&self) -> CliView {
        CliView {
            name: self.name@,
            about: self.about@,
            args: arg_spec_views(self.args@),
            commands: command_views(self.commands@),
        }
    }
}

/// The command line of a command tree.
pub open spec fn cli_of(tree: TreeView) -> CliView {
    CliView {
        name: "openpanel"@,
        about: "OpenPanel CLI (auto-generated)"@,
        args: shared_args(),
        commands: first_commands() + tree_commands(tree.resources) + last_commands(),
    }
}

/// Appends the commands of a resource without groups.
fn push_plain_commands(list: &mut Vec<CommandSpec>, resource: &Resource)
    ensures
        command_views(final(list)@) == command_views(old(list)@) + plain_commands(
            resource@.name,
            resource@.ops,
        ),
{
    let ghost start = command_views(list@);
    let ghost all = command_tree::op_views(resource.ops@);
    let ghost want = plain_commands(resource.name@, all);
    let mut i: usize = 0;
    proof {
        assert(start + want.take(0) =~= start);
    }
    while i < resource.ops.len()
        invariant
            i <= resource.ops@.len(),
            all == command_tree::op_views(resource.ops@),
            want == plain_commands(resource.name@, all),
            command_views(list@) == start + want.take(i as int),
        decreases resource.ops@.len() - i,
    {
        let op = &resource.ops[i];
        let more: Vec<ArgSpec> = if same(resource.name.as_str(), "export") && same(
            op.name.as_str(),
            "events",
        ) {
            build_pagination_args()
        } else {
            Vec::new()
        };
        proof {
            assert(arg_spec_views(more@) =~= extra_args(resource.name@, op.name@));
            assert(all[i as int] == op@);
            assert(start + want.take(i + 1) =~= (start + want.take(i as int)).push(want[i as int]));
        }
        push_command(
            list,
            build_op_command(path_of_two(resource.name.as_str(), op.name.as_str()), op, more),
        );
        i = i + 1;
    }
    proof {
        assert(want.take(i as int) =~= want);
    }
}

/// Appends the commands of the operations of a group.
fn push_grouped_commands(list: &mut Vec<CommandSpec>, resource: &str, group: &str, ops: &Vec<
    Operation,
>)
    ensures
        command_views(final(list)@) == command_views(old(list)@) + grouped_commands(
            resource@,
            group@,
            command_tree::op_views(ops@),
        ),
{
    let ghost start = command_views(list@);
    let ghost all = command_tree::op_views(ops@);
    let ghost want = grouped_commands(resource@, group@, all);
    let mut i: usize = 0;
    proof {
        assert(start + want.take(0) =~= start);
    }
    while i < ops.len()
        invariant
            i <= ops@.len(),
            all == command_tree::op_views(ops@),
            want == grouped_commands(resource@, group@, all),
            command_views(list@) == start + want.take(i as int),
        decreases ops@.len() - i,
    {
        let op = &ops[i];
        let more: Vec<ArgSpec> = Vec::new();
        proof {
            assert(arg_spec_views(more@) =~= seq![]);
            assert(all[i as int] == op@);
            assert(start + want.take(i + 1) =~= (start + want.take(i as int)).push(want[i as int]));
        }
        push_command(
            list,
            build_op_command(path_of_three(resource, group, op.name.as_str()), op, more),
        );
        i = i + 1;
    }
    proof {
        assert(want.take(i as int) =~= want);
    }
}

/// Appends the commands of a resource.
fn push_resource_commands(list: &mut Vec<CommandSpec>, resource: &Resource)
    ensures
        command_views(final(list)@) == command_views(old(list)@) + resource_commands(resource@),
{
    let ghost before = command_views(list@);
    let name = resource.name.as_str();
    push_command(list, build_parent(path_of_one(name), name));
    let ghost start = command_views(list@);
    if resource.groups.len() == 0 {
        push_plain_commands(list, resource);
        if same(name, "export") {
            push_command(list, build_events_query_cmd(path_of_two(name, "events-bulk")));
        }
    } else {
        let ghost all = command_tree::group_views(resource.groups@);
        let mut i: usize = 0;
        proof {
            assert(all.take(0) =~= seq![]);
            assert(start + group_commands(name@, all.take(0)) =~= start);
        }
        while i < resource.groups.len()
            invariant
                i <= resource.groups@.len(),
                all == command_tree::group_views(resource.groups@),
                command_views(list@) == start + group_commands(name@, all.take(i as int)),
            decreases resource.groups@.len() - i,
        {
            let group = &resource.groups[i];
            proof {
                assert(all.take(i + 1).drop_last() =~= all.take(i as int));
                assert(all.take(i + 1).last() == group@);
            }
            push_command(
                list,
                build_parent(path_of_two(name, group.name.as_str()), group.name.as_str()),
            );
            push_grouped_commands(list, name, group.name.as_str(), &group.ops);
            proof {
                assert(command_views(list@) =~= start + group_commands(name@, all.take(i + 1)));
            }
            i = i + 1;
        }
        proof {
            assert(all.take(i as int) =~= all);
        }
    }
    proof {
        assert(command_views(list@) =~= before + resource_commands(resource@));
    }
}

/// Builds the command line of a command tree.
pub fn build_cli(tree: &CommandTree) -> (r: Cli)
    ensures
        r@ == cli_of(tree@),
{
    let mut list: Vec<CommandSpec> = Vec::new();
    list.push(build_leaf(path_of_one("list"), "List resources and operations", build_json_args()));
    list.push(
        CommandSpec {
            has_gap: true,
            ..build_leaf(
                path_of_one("describe"),
                "Describe a specific operation",
                build_describe_args(),
            )
        },
    );
    list.push(build_leaf(path_of_one("tree"), "Show full command tree", build_json_args()));
    list.push(build_parent(path_of_one("auth"), "Authentication diagnostics"));
    list.push(
        build_leaf(
            path_of_two("auth", "doctor"),
            "Classify the configured OpenPanel API client as root, read, or write/invalid",
            build_doctor_args(),
        ),
    );
    let ghost first = first_commands();
    let ghost all = tree@.resources;
    let mut i: usize = 0;
    proof {
        assert(command_views(list@) =~= first);
        assert(all.take(0) =~= seq![]);
        assert(first + tree_commands(all.take(0)) =~= first);
    }
    while i < tree.resources.len()
        invariant
            i <= tree.resources@.len(),
            all == command_tree::resource_views(tree.resources@),
            command_views(list@) == first + tree_commands(all.take(i as int)),
        decreases tree.resources@.len() - i,
    {
        let resource = &tree.resources[i];
        proof {
            assert(all.take(i + 1).drop_last() =~= all.take(i as int));
            assert(all.take(i + 1).last() == resource@);
        }
        push_resource_commands(&mut list, resource);
        proof {
            assert(command_views(list@) =~= first + tree_commands(all.take(i + 1)));
        }
        i = i + 1;
    }
    proof {
        assert(all.take(i as int) =~= all);
    }
    push_command(&mut list, build_parent(path_of_one("events"), "Event analytics workflows"));
    push_command(&mut list, build_events_query_cmd(path_of_two("events", "query")));
    push_command(&mut list, build_parent(path_of_one("analytics"), "Analytics summaries"));
    push_command(&mut list, build_funnel_cmd(path_of_two("analytics", "funnel")));
    proof {
        assert(command_views(list@) =~= first + tree_commands(all) + last_commands());
    }
    Cli {
        name: "openpanel".to_string(),
        about: "OpenPanel CLI (auto-generated)".to_string(),
        args: build_shared_args(),
        commands: list,
    }
}

/// The names that lead to an operation.
pub open spec fn command_path(
    resource: ResourceView,
    group: Option<Seq<char>>,
    name: Seq<char>,
) -> Seq<Seq<char>> {
    match group {
        Some(group) if resource.groups.len() > 0 => seq![resource.name, group, name],
        _ => seq![resource.name, name],
    }
}

/// Whether a command is that of an operation: under its names, with its hint and its arguments.
pub open spec fn is_command_of(
    command: CommandView,
    resource: ResourceView,
    group: Option<Seq<char>>,
    op: OperationView,
) -> bool {
    &&& command.path == command_path(resource, group, op.name)
    &&& command.about == command_tree::hint(op)
    &&& args_of(op.args).is_prefix_of(command.args)
    &&& !command.needs_subcommand
}

/// The operation that is found by a name has it, and is one of the list.
proof fn lemma_op_named(ops: Seq<OperationView>, name: Seq<char>) -> (i: int)
    requires
        command_tree::op_named(ops, name) is Some,
    ensures
        0 <= i < ops.len(),
        command_tree::op_named(ops, name) == Some(ops[i]),
        ops[i].name == name,
    decreases ops.len(),
{
    if ops[0].name == name {
        0
    } else {
        let j = lemma_op_named(ops.skip(1), name);
        assert(ops.skip(1)[j] == ops[j + 1]);
        j + 1
    }
}

/// The group that is found by a name has it, and is one of the list.
proof fn lemma_group_named(groups: Seq<GroupView>, name: Seq<char>) -> (i: int)
    requires
        command_tree::group_named(groups, name) is Some,
    ensures
        0 <= i < groups.len(),
        command_tree::group_named(groups, name) == Some(groups[i]),
        groups[i].name == name,
    decreases groups.len(),
{
    if groups[0].name == name {
        0
    } else {
        let j = lemma_group_named(groups.skip(1), name);
        assert(groups.skip(1)[j] == groups[j + 1]);
        j + 1
    }
}

/// The commands of a group are among those of all groups.
proof fn lemma_group_commands(resource: Seq<char>, groups: Seq<GroupView>, g: int, k: int) -> (i: int)
    requires
        0 <= g < groups.len(),
        0 <= k < groups[g].ops.len(),
    ensures
        0 <= i < group_commands(resource, groups).len(),
        group_commands(resource, groups)[i] == grouped_commands(
            resource,
            groups[g].name,
            groups[g].ops,
        )[k],
    decreases groups.len(),
{
    if g == groups.len() - 1 {
        group_commands(resource, groups.drop_last()).len() + 1 + k
    } else {
        lemma_group_commands(resource, groups.drop_last(), g, k)
    }
}

/// The commands of a resource are among those of all resources.
proof fn lemma_tree_commands(resources: Seq<ResourceView>, r: int, k: int) -> (i: int)
    requires
        0 <= r < resources.len(),
        0 <= k < resource_commands(resources[r]).len(),
    ensures
        0 <= i < tree_commands(resources).len(),
        tree_commands(resources)[i] == resource_commands(resources[r])[k],
    decreases resources.len(),
{
    if r == resources.len() - 1 {
        tree_commands(resources.drop_last()).len() + k
    } else {
        lemma_tree_commands(resources.drop_last(), r, k)
    }
}

/// Every operation that can be found in the command tree has its command on the command line.
pub proof fn law_operations_have_commands(
    tree: TreeView,
    r: int,
    group: Option<Seq<char>>,
    name: Seq<char>,
) -> (i: int)
    requires
        0 <= r < tree.resources.len(),
        command_tree::operation_of(tree.resources[r], group, name) is Some,
    ensures
        0 <= i < cli_of(tree).commands.len(),
        command_tree::operation_of(tree.resources[r], group, name) matches Some(op)
            && is_command_of(cli_of(tree).commands[i], tree.resources[r], group, op),
{
    let resource = tree.resources[r];
    let k = if resource.groups.len() == 0 {
        let j = lemma_op_named(resource.ops, name);
        let all = plain_commands(resource.name, resource.ops);
        assert(resource_commands(resource)[1 + j] == all[j]);
        1 + j
    } else {
        let g = lemma_group_named(resource.groups, group->Some_0);
        let j = lemma_op_named(resource.groups[g].ops, name);
        let place = lemma_group_commands(resource.name, resource.groups, g, j);
        assert(resource_commands(resource)[1 + place] == group_commands(
            resource.name,
            resource.groups,
        )[place]);
        1 + place
    };
    let t = lemma_tree_commands(tree.resources, r, k);
    let i = first_commands().len() + t;
    assert(cli_of(tree).commands[i] == tree_commands(tree.resources)[t]);
    i as int
}

/// An argument of an operation is taken under its own flag and kept under its own name; it must be given
/// exactly where the operation needs it, and may be given more than once exactly where it is a list.
pub proof fn law_arguments_are_taken_by_their_flags(arg: ArgView)
    ensures
        arg_of(arg).id == arg.name,
        arg_of(arg).long == Some(arg.flag),
        arg_of(arg).required == arg.required,
        arg_of(arg).action == ArgAction::Append <==> arg.list,
        arg_of(arg).action == ArgAction::Take <==> !arg.list,
        arg_of(arg).kind == ValueKind::Text,
        arg_of(arg).default is None,
        arg_of(arg).choices.len() == 0,
{
}

/// Every command of the program itself is on the command line, whatever the command tree holds.
pub proof fn law_own_commands_are_there(tree: TreeView)
    ensures
        ({
            let commands = cli_of(tree).commands;
            let n = commands.len();
            &&& n >= 9
            &&& commands[0].path == seq!["list"@]
            &&& commands[1].path == seq!["describe"@]
            &&& commands[2].path == seq!["tree"@]
            &&& commands[4].path == seq!["auth"@, "doctor"@]
            &&& commands[n - 3].path == seq!["events"@, "query"@]
            &&& commands[n - 1].path == seq!["analytics"@, "funnel"@]
        }),
{
    let commands = cli_of(tree).commands;
    let n = commands.len();
    let last = last_commands();
    assert(commands[n - 3] == last[1]);
    assert(commands[n - 1] == last[3]);
    let first = first_commands();
    assert(commands[0] == first[0] && commands[1] == first[1] && commands[2] == first[2]);
    assert(commands[4] == first[4]);
}

/// What the command line takes where nothing is given is what the library takes where nothing is given.
pub proof fn law_defaults_agree(args: QueryArgs)
    requires
        args.format is None,
        args.tz_offset is None,
    ensures
        exists|i: int|
            0 <= i < query_args().len() && (#[trigger] query_args()[i]).id == "format"@
                && query_args()[i].default == Some(query::wanted_format(args, None))
                && query_args()[i].choices.contains(query::wanted_format(args, None)),
        exists|i: int|
            0 <= i < query_args().len() && (#[trigger] query_args()[i]).id == "tz_offset"@
                && query_args()[i].default == Some(query::offset_of(args)),
        exists|i: int|
            0 <= i < query_args().len() && (#[trigger] query_args()[i]).id == "limit"@ && (
            query_args()[i].default matches Some(n) && numeral::int_value(n, 0, u64::MAX as int)
                == Ok::<int, numeral::IntFault>(query::page_limit(None) as int)),
        exists|i: int|
            0 <= i < funnel_args().len() && (#[trigger] funnel_args()[i]).id == "unit"@
                && funnel_args()[i].default == Some("sessionId"@),
        exists|i: int|
            0 <= i < doctor_args().len() && (#[trigger] doctor_args()[i]).id == "range"@
                && doctor_args()[i].default == Some("today"@),
{
    let format = query_args()[8];
    assert(format.id == "format"@ && format.default == Some("jsonl"@));
    assert(format.choices[0] == "jsonl"@);
    assert(query_args()[5].id == "tz_offset"@);
    assert(query_args()[10].id == "limit"@);
    reveal_strlit("1000");
    assert("1000"@ =~= numeral::signed_decimal(1000)) by {
        reveal_with_fuel(numeral::decimal, 5);
        assert(numeral::decimal(1) =~= seq!['1']);
        assert(numeral::decimal(10) =~= seq!['1', '0']);
        assert(numeral::decimal(100) =~= seq!['1', '0', '0']);
        assert(numeral::decimal(1000) =~= seq!['1', '0', '0', '0']);
    }
    numeral::law_decimal_reads_back(1000, 0, u64::MAX as int);
    assert(funnel_args()[2].id == "unit"@);
    assert(doctor_args()[1].id == "range"@);
}

/// A query and a funnel take the arguments that they are made of, each under the flag of its name.
pub proof fn law_queries_take_their_arguments()
    ensures
        query_args().map_values(|a: ArgSpecView| a.long) == seq![
            Some("project-id"@),
            Some("events"@),
            Some("start"@),
            Some("end"@),
            Some("day"@),
            Some("tz-offset"@),
            Some("where"@),
            Some("select"@),
            Some("format"@),
            Some("output"@),
            Some("limit"@),
            Some("max-pages"@),
            Some("debug"@),
        ],
        forall|i: int|
            0 <= i < query_args().len() ==> ((#[trigger] query_args()[i]).required <==> i < 2),
        forall|i: int|
            0 <= i < funnel_args().len() ==> ((#[trigger] funnel_args()[i]).required <==> i < 2),
        funnel_args()[1].long == Some("steps"@),
{
    assert(query_args().map_values(|a: ArgSpecView| a.long) =~= seq![
        Some("project-id"@),
        Some("events"@),
        Some("start"@),
        Some("end"@),
        Some("day"@),
        Some("tz-offset"@),
        Some("where"@),
        Some("select"@),
        Some("format"@),
        Some("output"@),
        Some("limit"@),
        Some("max-pages"@),
        Some("debug"@),
    ]);
}

/// Every command takes the shared arguments, each under its flag.
pub proof fn law_shared_arguments_are_global()
    ensures
        forall|i: int|
            0 <= i < shared_args().len() ==> (#[trigger] shared_args()[i]).global
                && !shared_args()[i].required,
        shared_args().map_values(|a: ArgSpecView| a.long) == seq![
            Some("api-url"@),
            Some("client-id"@),
            Some("client-secret"@),
            Some("timeout"@),
            Some("pretty"@),
            Some("raw"@),
            Some("dry-run"@),
            Some("body"@),
            Some("header"@),
        ],
        shared_args()[8].action == ArgAction::Append,
        shared_args()[6].action == ArgAction::Switch,
{
    assert(shared_args().map_values(|a: ArgSpecView| a.long) =~= seq![
        Some("api-url"@),
        Some("client-id"@),
        Some("client-secret"@),
        Some("timeout"@),
        Some("pretty"@),
        Some("raw"@),
        Some("dry-run"@),
        Some("body"@),
        Some("header"@),
    ]);
}

} // verus!
