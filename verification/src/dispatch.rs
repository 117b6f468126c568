//! What a command line asks for: its settings, and the action that its commands lead to.

use crate::address::{self, is_short_address, request_url};
use crate::cli;
use crate::command_tree::{
    self, find_command, find_resource, unknown_resource, CommandTree, Operation, OperationView,
    ResourceView, TreeView,
};
use crate::error::CliError;
use crate::json::{self, Json, JsonView, Members};
use crate::json_path;
use crate::query::{self, copy_text};
use crate::request::{RequestParts, RequestView};
use crate::text::{self, same};
use vstd::prelude::*;

verus! {

broadcast use crate::json::lemma_view;

/// Where settings come from: the flags of the command line, and the environment.
#[derive(Debug, PartialEq, Eq)]
pub struct SettingSources {
    pub api_url: Option<String>,
    pub api_url_env: Option<String>,
    pub client_id: Option<String>,
    pub client_id_env: Option<String>,
    pub client_secret: Option<String>,
    pub client_secret_env: Option<String>,
    pub timeout: Option<u64>,
}

/// The settings of a command.
#[derive(Debug, PartialEq, Eq)]
pub struct Settings {
    pub base_url: String,
    pub client_id: String,
    pub client_secret: String,
    pub timeout: u64,
}

/// What the settings of a command are.
#[verifier::ext_equal]
pub struct SettingsView {
    pub base_url: Seq<char>,
    pub client_id: Seq<char>,
    pub client_secret: Seq<char>,
    pub timeout: u64,
}

impl View for Settings {
    type V = SettingsView;

    open spec fn view(&self) -> SettingsView {
        SettingsView {
            base_url: self.base_url@,
            client_id: self.client_id@,
            client_secret: self.client_secret@,
            timeout: self.timeout,
        }
    }
}

/// A setting: by its flag, else from the environment.
pub open spec fn setting(flag: Option<String>, env: Option<String>) -> Option<Seq<char>> {
    match flag {
        Some(value) => Some(value@),
        None => text::owned_text(env),
    }
}

/// The seconds that a request may take where none are given.
pub const DEFAULT_TIMEOUT: u64 = 30;

/// The settings of a command, or the message that asks for one of them. The base of addresses is that
/// of the command tree where none is given.
pub open spec fn settings_of(sources: SettingSources, base: Seq<char>) -> Result<
    SettingsView,
    Seq<char>,
> {
    match setting(sources.client_id, sources.client_id_env) {
        None => Err("OPENPANEL_CLIENT_ID missing"@),
        Some(client_id) => match setting(sources.client_secret, sources.client_secret_env) {
            None => Err("OPENPANEL_CLIENT_SECRET missing"@),
            Some(client_secret) => Ok(
                SettingsView {
                    base_url: match setting(sources.api_url, sources.api_url_env) {
                        Some(url) => url,
                        None => base,
                    },
                    client_id,
                    client_secret,
                    timeout: match sources.timeout {
                        Some(seconds) => seconds,
                        None => DEFAULT_TIMEOUT,
                    },
                },
            ),
        },
    }
}

/// Takes a setting by its flag, else from the environment.
fn flag_or_env(flag: &Option<String>, env: &Option<String>) -> (r: Option<String>)
    ensures
        text::owned_text(r) == setting(*flag, *env),
{
    match flag {
        Some(value) => Some(value.clone()),
        None => copy_text(env),
    }
}

/// Finds the settings of a command.
pub fn resolve_settings(sources: &SettingSources, default_base: &str) -> (r: Result<
    Settings,
    CliError,
>)
    ensures
        match r {
            Ok(settings) => settings_of(*sources, default_base@) == Ok::<SettingsView, Seq<char>>(
                settings@,
            ),
            Err(e) => settings_of(*sources, default_base@) == Err::<SettingsView, Seq<char>>(e@),
        },
{
    let base_url = match flag_or_env(&sources.api_url, &sources.api_url_env) {
        Some(url) => url,
        None => default_base.to_string(),
    };
    let client_id = match flag_or_env(&sources.client_id, &sources.client_id_env) {
        Some(id) => id,
        None => return Err(CliError::new("OPENPANEL_CLIENT_ID missing")),
    };
    let client_secret = match flag_or_env(&sources.client_secret, &sources.client_secret_env) {
        Some(secret) => secret,
        None => return Err(CliError::new("OPENPANEL_CLIENT_SECRET missing")),
    };
    let timeout: u64 = match sources.timeout {
        Some(seconds) => seconds,
        None => DEFAULT_TIMEOUT,
    };
    Ok(Settings { base_url, client_id, client_secret, timeout })
}

/// A command that needs no settings.
#[derive(Clone, Copy, Debug, PartialEq, Eq, Structural)]
pub enum LocalCommand {
    List,
    Describe,
    Tree,
}

/// The command that needs no settings, where the names lead to one.
pub open spec fn local_of(path: Seq<Seq<char>>) -> Option<LocalCommand> {
    if path.len() == 0 {
        None
    } else if path[0] == "list"@ {
        Some(LocalCommand::List)
    } else if path[0] == "describe"@ {
        Some(LocalCommand::Describe)
    } else if path[0] == "tree"@ {
        Some(LocalCommand::Tree)
    } else {
        None
    }
}

/// Tells the command that needs no settings.
pub fn local_command(path: &Vec<String>) -> (r: Option<LocalCommand>)
    ensures
        r == local_of(text::texts(path@)),
{
    if path.len() == 0 {
        return None;
    }
    let name = path[0].as_str();
    if same(name, "list") {
        Some(LocalCommand::List)
    } else if same(name, "describe") {
        Some(LocalCommand::Describe)
    } else if same(name, "tree") {
        Some(LocalCommand::Tree)
    } else {
        None
    }
}

/// What a command asks for.
#[derive(Debug, PartialEq, Eq)]
pub enum Action<'a> {
    /// The diagnosis of the client.
    AuthDoctor,
    /// A query for events.
    EventsQuery,
    /// A funnel.
    Funnel,
    /// A call of an operation.
    Call(&'a Operation),
}

/// What a command asks for.
pub enum ActionView {
    AuthDoctor,
    EventsQuery,
    Funnel,
    Call(OperationView),
}

impl<'a> View for Action<'a> {
    type V = ActionView;

    open spec fn view(&self) -> ActionView {
        match *self {
            Action::AuthDoctor => ActionView::AuthDoctor,
            Action::EventsQuery => ActionView::EventsQuery,
            Action::Funnel => ActionView::Funnel,
            Action::Call(op) => ActionView::Call(op@),
        }
    }
}

/// The one action of a command with one command below it, or the message of the fault.
pub open spec fn only_action(
    path: Seq<Seq<char>>,
    name: Seq<char>,
    action: ActionView,
    message: Seq<char>,
) -> Result<ActionView, Seq<char>> {
    if path.len() < 2 {
        Err("operation required"@)
    } else if path[1] == name {
        Ok(action)
    } else {
        Err(message)
    }
}

/// The call that names lead to in the command tree, or the message of the fault.
pub open spec fn call_of(tree: TreeView, path: Seq<Seq<char>>) -> Result<ActionView, Seq<char>> {
    match command_tree::resource_named(tree.resources, path[0]) {
        None => Err("unknown resource "@ + path[0]),
        Some(resource) => {
            let found = if resource.groups.len() == 0 {
                if path.len() < 2 {
                    Err("operation required"@)
                } else {
                    command_tree::command_op(tree, path[0], None, path[1])
                }
            } else if path.len() < 2 {
                Err("group required"@)
            } else if path.len() < 3 {
                Err("operation required"@)
            } else {
                command_tree::command_op(tree, path[0], Some(path[1]), path[2])
            };
            match found {
                Ok(op) => Ok(ActionView::Call(op)),
                Err(e) => Err(e),
            }
        },
    }
}

/// What names lead to, or the message of the fault: the commands of this program come before those of
/// the command tree.
pub open spec fn action_of(tree: TreeView, path: Seq<Seq<char>>) -> Result<ActionView, Seq<char>> {
    if path.len() == 0 {
        Err("resource required"@)
    } else if path[0] == "auth"@ {
        only_action(path, "doctor"@, ActionView::AuthDoctor, "unknown auth operation"@)
    } else if path[0] == "events"@ {
        only_action(path, "query"@, ActionView::EventsQuery, "unknown events operation"@)
    } else if path[0] == "analytics"@ {
        only_action(path, "funnel"@, ActionView::Funnel, "unknown analytics operation"@)
    } else if path[0] == "export"@ && path.len() >= 2 && path[1] == "events-bulk"@ {
        Ok(ActionView::EventsQuery)
    } else {
        call_of(tree, path)
    }
}

/// Tells the one action of a command with one command below it.
fn choose_only<'a>(path: &Vec<String>, name: &str, action: Action<'a>, message: &str) -> (r: Result<
    Action<'a>,
    CliError,
>)
    ensures
        match r {
            Ok(chosen) => only_action(text::texts(path@), name@, action@, message@) == Ok::<
                ActionView,
                Seq<char>,
            >(chosen@),
            Err(e) => only_action(text::texts(path@), name@, action@, message@) == Err::<
                ActionView,
                Seq<char>,
            >(e@),
        },
{
    if path.len() < 2 {
        Err(CliError::new("operation required"))
    } else if same(path[1].as_str(), name) {
        Ok(action)
    } else {
        Err(CliError::new(message))
    }
}

/// Tells the call that names lead to in the command tree.
fn choose_call<'a>(tree: &'a CommandTree, path: &Vec<String>) -> (r: Result<Action<'a>, CliError>)
    requires
        path@.len() > 0,
    ensures
        match r {
            Ok(chosen) => call_of(tree@, text::texts(path@)) == Ok::<ActionView, Seq<char>>(chosen@),
            Err(e) => call_of(tree@, text::texts(path@)) == Err::<ActionView, Seq<char>>(e@),
        },
{
    let name = path[0].as_str();
    let found = match find_resource(tree, name) {
        None => return Err(unknown_resource(name)),
        Some(resource) => if resource.groups.len() == 0 {
            if path.len() < 2 {
                return Err(CliError::new("operation required"));
            }
            find_command(tree, name, None, path[1].as_str())
        } else {
            if path.len() < 2 {
                return Err(CliError::new("group required"));
            }
            if path.len() < 3 {
                return Err(CliError::new("operation required"));
            }
            find_command(tree, name, Some(path[1].as_str()), path[2].as_str())
        },
    };
    match found {
        Ok(op) => Ok(Action::Call(op)),
        Err(e) => Err(e),
    }
}

/// Tells what the names of commands lead to.
pub fn choose_action<'a>(tree: &'a CommandTree, path: &Vec<String>) -> (r: Result<
    Action<'a>,
    CliError,
>)
    ensures
        match r {
            Ok(chosen) => action_of(tree@, text::texts(path@)) == Ok::<ActionView, Seq<char>>(
                chosen@,
            ),
            Err(e) => action_of(tree@, text::texts(path@)) == Err::<ActionView, Seq<char>>(e@),
        },
{
    if path.len() == 0 {
        return Err(CliError::new("resource required"));
    }
    let name = path[0].as_str();
    if same(name, "auth") {
        choose_only(path, "doctor", Action::AuthDoctor, "unknown auth operation")
    } else if same(name, "events") {
        choose_only(path, "query", Action::EventsQuery, "unknown events operation")
    } else if same(name, "analytics") {
        choose_only(path, "funnel", Action::Funnel, "unknown analytics operation")
    } else if same(name, "export") && path.len() >= 2 && same(path[1].as_str(), "events-bulk") {
        Ok(Action::EventsQuery)
    } else {
        choose_call(tree, path)
    }
}

/// Whether a name is that of a command of this program.
pub open spec fn is_own_name(name: Seq<char>) -> bool {
    ||| name == "list"@
    ||| name == "describe"@
    ||| name == "tree"@
    ||| name == "auth"@
    ||| name == "events"@
    ||| name == "analytics"@
}

/// The names that lead to an operation lead to its call, unless they are those of a command of this
/// program.
pub proof fn law_commands_lead_to_operations(
    tree: TreeView,
    resource: ResourceView,
    group: Option<Seq<char>>,
    op: OperationView,
)
    requires
        command_tree::resource_named(tree.resources, resource.name) == Some(resource),
        command_tree::operation_of(resource, group, op.name) == Some(op),
        !is_own_name(resource.name),
        !(resource.name == "export"@ && cli::command_path(resource, group, op.name)[1]
            == "events-bulk"@),
    ensures
        local_of(cli::command_path(resource, group, op.name)) is None,
        action_of(tree, cli::command_path(resource, group, op.name)) == Ok::<ActionView, Seq<char>>(
            ActionView::Call(op),
        ),
{
}

/// What becomes of the requests of an action.
#[derive(Clone, Copy, Debug, PartialEq, Eq, Structural)]
pub enum Step {
    /// They are shown, and not sent.
    Show,
    /// They open a web socket.
    Listen,
    /// They are sent.
    Send,
}

/// What becomes of the requests of an action: in a dry run they are shown, whatever the action.
pub open spec fn step_of(dry_run: bool, action: ActionView) -> Step {
    if dry_run {
        Step::Show
    } else {
        match action {
            ActionView::Call(op) => if op.method == "WS"@ {
                Step::Listen
            } else {
                Step::Send
            },
            _ => Step::Send,
        }
    }
}

/// Tells what becomes of the requests of an action.
pub fn next_step(dry_run: bool, action: &Action) -> (r: Step)
    ensures
        r == step_of(dry_run, action@),
{
    if dry_run {
        return Step::Show;
    }
    match action {
        Action::Call(op) => if same(op.method.as_str(), "WS") {
            Step::Listen
        } else {
            Step::Send
        },
        _ => Step::Send,
    }
}

/// A dry run sends nothing over HTTP and opens no web socket: what names lead to is shown.
pub proof fn law_dry_runs_send_nothing(tree: TreeView, path: Seq<Seq<char>>)
    ensures
        action_of(tree, path) matches Ok(action) ==> {
            &&& step_of(true, action) == Step::Show
            &&& step_of(true, action) != Step::Send
            &&& step_of(true, action) != Step::Listen
        },
{
}

/// Headers as a JSON value: a list of pairs.
pub open spec fn pairs_tree(pairs: Seq<(Seq<char>, Seq<char>)>) -> JsonView {
    JsonView::Array(
        Seq::new(
            pairs.len(),
            |i: int|
                JsonView::Array(seq![JsonView::Text(pairs[i].0), JsonView::Text(pairs[i].1)]),
        ),
    )
}

/// A request as a JSON value.
pub open spec fn request_tree(method: Seq<char>, request: RequestView) -> JsonView {
    JsonView::Object(
        map![
            "method"@ => JsonView::Text(method),
            "url"@ => JsonView::Text(request.url),
            "headers"@ => pairs_tree(request.headers),
            "body"@ => match request.body {
                Some(body) => body,
                None => JsonView::Null,
            },
        ],
    )
}

/// Shows headers as a JSON value.
fn pairs_json(pairs: &Vec<(String, String)>) -> (r: Json)
    ensures
        r@ == pairs_tree(query::pair_views(pairs@)),
{
    let mut out: Vec<Json> = Vec::new();
    let ghost want = pairs_tree(query::pair_views(pairs@))->Array_0;
    let mut i: usize = 0;
    proof {
        json::lemma_trees(out@);
        assert(json::trees(out@) =~= want.take(0));
    }
    while i < pairs.len()
        invariant
            i <= pairs@.len(),
            want == pairs_tree(query::pair_views(pairs@))->Array_0,
            json::trees(out@) == want.take(i as int),
        decreases pairs@.len() - i,
    {
        let name = Json::Text(pairs[i].0.clone());
        let value = Json::Text(pairs[i].1.clone());
        let mut both: Vec<Json> = Vec::new();
        proof {
            json::lemma_trees(both@);
            json::lemma_trees_push(both@, name);
            json::lemma_trees_push(both@.push(name), value);
            assert(json::trees(both@) =~= seq![]);
            assert(json::trees(both@.push(name).push(value)) =~= seq![name@, value@]);
        }
        both.push(name);
        both.push(value);
        let pair = Json::Array(both);
        proof {
            json::lemma_trees_push(out@, pair);
            assert(want.take(i + 1) =~= want.take(i as int).push(pair@));
        }
        out.push(pair);
        i = i + 1;
    }
    proof {
        assert(want.take(i as int) =~= want);
    }
    Json::Array(out)
}

/// Shows a request as a JSON value.
pub fn dry_run_report(method: &str, parts: RequestParts) -> (r: Json)
    ensures
        r@ == request_tree(method@, parts@),
{
    let headers = pairs_json(&parts.headers);
    let body = match parts.body {
        Some(body) => body,
        None => Json::Null,
    };
    Json::Object(
        Members::new().insert("method".to_string(), Json::Text(method.to_string())).insert(
            "url".to_string(),
            Json::Text(parts.url),
        ).insert("headers".to_string(), headers).insert("body".to_string(), body),
    )
}

/// The headers that every request of a client carries.
pub open spec fn client_headers(client_id: Seq<char>, client_secret: Seq<char>) -> Seq<
    (Seq<char>, Seq<char>),
> {
    seq![
        ("openpanel-client-id"@, client_id),
        ("openpanel-client-secret"@, client_secret),
        ("accept"@, "application/json"@),
    ]
}

/// The headers of a call: those of the client, those of the request, and that of its body.
pub open spec fn call_headers(
    client_id: Seq<char>,
    client_secret: Seq<char>,
    headers: Seq<(Seq<char>, Seq<char>)>,
    has_body: bool,
) -> Seq<(Seq<char>, Seq<char>)> {
    client_headers(client_id, client_secret) + headers + if has_body {
        seq![("content-type"@, "application/json"@)]
    } else {
        seq![]
    }
}

/// Lists the headers that every request of a client carries.
pub fn list_client_headers(client_id: &str, client_secret: &str) -> (r: Vec<(String, String)>)
    ensures
        query::pair_views(r@) == client_headers(client_id@, client_secret@),
{
    let mut out: Vec<(String, String)> = Vec::new();
    out.push(("openpanel-client-id".to_string(), client_id.to_string()));
    out.push(("openpanel-client-secret".to_string(), client_secret.to_string()));
    out.push(("accept".to_string(), "application/json".to_string()));
    proof {
        assert(query::pair_views(out@) =~= client_headers(client_id@, client_secret@));
    }
    out
}

/// Lists the headers of a call.
pub fn list_call_headers(
    client_id: &str,
    client_secret: &str,
    headers: Vec<(String, String)>,
    has_body: bool,
) -> (r: Vec<(String, String)>)
    ensures
        query::pair_views(r@) == call_headers(
            client_id@,
            client_secret@,
            query::pair_views(headers@),
            has_body,
        ),
{
    let mut out = list_client_headers(client_id, client_secret);
    let ghost own = out@;
    let ghost others = headers@;
    let mut headers = headers;
    out.append(&mut headers);
    if has_body {
        out.push(("content-type".to_string(), "application/json".to_string()));
    }
    proof {
        assert(query::pair_views(own + others) =~= query::pair_views(own) + query::pair_views(
            others,
        ));
        assert(query::pair_views(out@) =~= call_headers(
            client_id@,
            client_secret@,
            query::pair_views(others),
            has_body,
        ));
    }
    out
}

/// A request without a body: the path and the query parameters of its address.
#[derive(Debug, PartialEq, Eq)]
pub struct Get {
    pub path: String,
    pub pairs: Vec<(String, String)>,
}

/// What a request without a body is.
#[verifier::ext_equal]
pub struct GetView {
    pub path: Seq<char>,
    pub pairs: Seq<(Seq<char>, Seq<char>)>,
}

impl View for Get {
    type V = GetView;

    open spec fn view(&self) -> GetView {
        GetView { path: self.path@, pairs: query::pair_views(self.pairs@) }
    }
}

/// The requests of a list.
pub open spec fn get_views(gets: Seq<Get>) -> Seq<GetView> {
    Seq::new(gets.len(), |i: int| gets[i]@)
}

/// A request without a body and without headers of its own as a JSON value.
pub open spec fn get_tree(url: Seq<char>) -> JsonView {
    request_tree("GET"@, RequestView { url, headers: seq![], body: None })
}

/// Requests as JSON values, or the message of the first fault in an address.
pub open spec fn get_trees(base: Seq<char>, gets: Seq<GetView>) -> Result<Seq<JsonView>, Seq<char>>
    decreases gets.len(),
{
    if gets.len() == 0 {
        Ok(seq![])
    } else {
        match get_trees(base, gets.drop_last()) {
            Err(e) => Err(e),
            Ok(list) => match address::request_address(base, gets.last().path, gets.last().pairs) {
                Ok(url) => Ok(list.push(get_tree(url))),
                Err(e) => Err(e),
            },
        }
    }
}

/// Whether the addresses of requests are short enough to be built.
pub open spec fn gets_fit(base: Seq<char>, gets: Seq<GetView>) -> bool {
    forall|i: int|
        0 <= i < gets.len() ==> address::is_short(
            base,
            (#[trigger] gets[i]).path,
            gets[i].pairs,
        )
}

/// Tells whether the addresses of requests are short enough to be built: the condition that
/// `dry_run_gets` asks for.
pub fn can_show_gets(base_url: &str, gets: &Vec<Get>) -> (r: bool)
    ensures
        r == gets_fit(base_url@, get_views(gets@)),
{
    let ghost all = get_views(gets@);
    let mut i: usize = 0;
    while i < gets.len()
        invariant
            i <= gets@.len(),
            all == get_views(gets@),
            forall|j: int|
                0 <= j < i ==> address::is_short(
                    base_url@,
                    (#[trigger] all[j]).path,
                    all[j].pairs,
                ),
        decreases gets@.len() - i,
    {
        proof {
            assert(all[i as int] == gets@[i as int]@);
        }
        if !is_short_address(base_url, gets[i].path.as_str(), &gets[i].pairs) {
            return false;
        }
        i = i + 1;
    }
    true
}

/// A fault in the first addresses is the fault of all of them.
proof fn lemma_first_bad_get(base: Seq<char>, gets: Seq<GetView>, n: int)
    requires
        0 <= n <= gets.len(),
        get_trees(base, gets.take(n)) is Err,
    ensures
        get_trees(base, gets) == get_trees(base, gets.take(n)),
    decreases gets.len(),
{
    if n < gets.len() {
        assert(gets.drop_last().take(n) =~= gets.take(n));
        lemma_first_bad_get(base, gets.drop_last(), n);
    } else {
        assert(gets.take(n) =~= gets);
    }
}

/// Shows requests as a JSON value, in the place of sending them.
pub fn dry_run_gets(base_url: &str, gets: &Vec<Get>) -> (r: Result<Json, CliError>)
    requires
        gets_fit(base_url@, get_views(gets@)),
    ensures
        match r {
            Ok(v) => get_trees(base_url@, get_views(gets@)) matches Ok(list) && v@
                == JsonView::Array(list),
            Err(e) => get_trees(base_url@, get_views(gets@)) == Err::<Seq<JsonView>, Seq<char>>(e@),
        },
{
    let mut out: Vec<Json> = Vec::new();
    let ghost all = get_views(gets@);
    let mut i: usize = 0;
    proof {
        json::lemma_trees(out@);
        assert(json::trees(out@) =~= seq![]);
        assert(all.take(0) =~= seq![]);
    }
    while i < gets.len()
        invariant
            i <= gets@.len(),
            all == get_views(gets@),
            gets_fit(base_url@, all),
            get_trees(base_url@, all.take(i as int)) == Ok::<Seq<JsonView>, Seq<char>>(
                json::trees(out@),
            ),
        decreases gets@.len() - i,
    {
        let get = &gets[i];
        proof {
            assert(all[i as int] == get@);
            assert(all.take(i + 1).drop_last() =~= all.take(i as int));
            assert(all.take(i + 1).last() == get@);
        }
        match request_url(base_url, get.path.as_str(), &get.pairs) {
            Ok(url) => {
                let parts = RequestParts { url, headers: Vec::new(), body: None };
                proof {
                    assert(parts@.headers =~= seq![]);
                }
                let shown = dry_run_report("GET", parts);
                proof {
                    json::lemma_trees_push(out@, shown);
                }
                out.push(shown);
            },
            Err(e) => {
                proof {
                    lemma_first_bad_get(base_url@, all, i + 1);
                }
                return Err(CliError::of(e));
            },
        }
        i = i + 1;
    }
    proof {
        assert(all.take(i as int) =~= all);
    }
    Ok(Json::Array(out))
}

/// Where settings come from: a flag comes before the environment, which does not matter then; without a
/// flag the environment decides. Without an address, that of the command tree is taken, and without a
/// time limit 30 seconds; a client needs its name and its secret.
pub proof fn law_flags_come_before_the_environment(sources: SettingSources, base: Seq<char>)
    ensures
        settings_of(sources, base) is Ok <==> (sources.client_id is Some || sources.client_id_env is Some)
            && (sources.client_secret is Some || sources.client_secret_env is Some),
        settings_of(sources, base) matches Ok(s) ==> {
            &&& sources.client_id matches Some(id) ==> s.client_id == id@
            &&& sources.client_id is None ==> (sources.client_id_env matches Some(id) && s.client_id
                == id@)
            &&& sources.client_secret matches Some(secret) ==> s.client_secret == secret@
            &&& sources.client_secret is None ==> (sources.client_secret_env matches Some(secret)
                && s.client_secret == secret@)
            &&& sources.api_url matches Some(url) ==> s.base_url == url@
            &&& sources.api_url is None ==> (sources.api_url_env matches Some(url) ==> s.base_url
                == url@)
            &&& sources.api_url is None && sources.api_url_env is None ==> s.base_url == base
            &&& sources.timeout matches Some(seconds) ==> s.timeout == seconds
            &&& sources.timeout is None ==> s.timeout == 30
        },
        sources.client_id is None && sources.client_id_env is None ==> settings_of(sources, base)
            == Err::<SettingsView, Seq<char>>("OPENPANEL_CLIENT_ID missing"@),
        (sources.client_id is Some || sources.client_id_env is Some) && sources.client_secret is None
            && sources.client_secret_env is None ==> settings_of(sources, base) == Err::<
            SettingsView,
            Seq<char>,
        >("OPENPANEL_CLIENT_SECRET missing"@),
{
}

/// The commands of this program lead to what they are for, whatever names follow; other names behind the
/// first are refused.
pub proof fn law_own_commands_lead_to_their_actions(
    tree: TreeView,
    name: Seq<char>,
    rest: Seq<Seq<char>>,
)
    ensures
        action_of(tree, seq!["auth"@, name] + rest) == if name == "doctor"@ {
            Ok::<ActionView, Seq<char>>(ActionView::AuthDoctor)
        } else {
            Err::<ActionView, Seq<char>>("unknown auth operation"@)
        },
        action_of(tree, seq!["events"@, name] + rest) == if name == "query"@ {
            Ok::<ActionView, Seq<char>>(ActionView::EventsQuery)
        } else {
            Err::<ActionView, Seq<char>>("unknown events operation"@)
        },
        action_of(tree, seq!["analytics"@, name] + rest) == if name == "funnel"@ {
            Ok::<ActionView, Seq<char>>(ActionView::Funnel)
        } else {
            Err::<ActionView, Seq<char>>("unknown analytics operation"@)
        },
        action_of(tree, seq!["export"@, "events-bulk"@] + rest) == Ok::<ActionView, Seq<char>>(
            ActionView::EventsQuery,
        ),
        local_of(seq!["list"@] + rest) == Some(LocalCommand::List),
        local_of(seq!["describe"@] + rest) == Some(LocalCommand::Describe),
        local_of(seq!["tree"@] + rest) == Some(LocalCommand::Tree),
        action_of(tree, seq![]) == Err::<ActionView, Seq<char>>("resource required"@),
{
    reveal_strlit("auth");
    reveal_strlit("events");
    reveal_strlit("analytics");
    reveal_strlit("export");
    reveal_strlit("list");
    reveal_strlit("describe");
    reveal_strlit("tree");
    assert("auth"@.len() == 4 && "events"@.len() == 6 && "analytics"@.len() == 9);
    assert("export"@.len() == 6 && "export"@[1] == 'x' && "events"@[1] == 'v');
    assert("list"@.len() == 4 && "describe"@.len() == 8 && "tree"@.len() == 4);
    assert("list"@[0] == 'l' && "tree"@[0] == 't');
    let a = seq!["auth"@, name] + rest;
    let b = seq!["events"@, name] + rest;
    let c = seq!["analytics"@, name] + rest;
    let d = seq!["export"@, "events-bulk"@] + rest;
    assert(a[0] == "auth"@ && a[1] == name);
    assert(b[0] == "events"@ && b[1] == name);
    assert(c[0] == "analytics"@ && c[1] == name);
    assert(d[0] == "export"@ && d[1] == "events-bulk"@);
    assert((seq!["list"@] + rest)[0] == "list"@);
    assert((seq!["describe"@] + rest)[0] == "describe"@);
    assert((seq!["tree"@] + rest)[0] == "tree"@);
}

/// A run that is not dry sends its requests, but for a call of the method WS, which opens a web socket.
pub proof fn law_live_runs_send(action: ActionView)
    ensures
        step_of(false, action) == Step::Listen <==> (action matches ActionView::Call(op) && op.method
            == "WS"@),
        step_of(false, action) == Step::Send <==> !(action matches ActionView::Call(op) && op.method
            == "WS"@),
{
}

/// A dry run shows a request as it would be sent: its method, its address, its headers as pairs in their
/// order, and its body, null where there is none.
pub proof fn law_dry_runs_show_the_request(method: Seq<char>, request: RequestView)
    ensures
        ({
            let shown = request_tree(method, request);
            &&& json_path::value_at(shown, seq!["method"@]) == Some(JsonView::Text(method))
            &&& json_path::value_at(shown, seq!["url"@]) == Some(JsonView::Text(request.url))
            &&& json_path::value_at(shown, seq!["headers"@]) matches Some(JsonView::Array(list))
                && list.len() == request.headers.len() && forall|i: int|
                0 <= i < list.len() ==> #[trigger] list[i] == JsonView::Array(
                    seq![
                        JsonView::Text(request.headers[i].0),
                        JsonView::Text(request.headers[i].1),
                    ],
                )
            &&& json_path::value_at(shown, seq!["body"@]) == Some(
                match request.body {
                    Some(body) => body,
                    None => JsonView::Null,
                },
            )
        }),
{
    reveal_strlit("method");
    reveal_strlit("url");
    reveal_strlit("headers");
    reveal_strlit("body");
    assert("method"@.len() == 6 && "url"@.len() == 3 && "headers"@.len() == 7 && "body"@.len() == 4);
    reveal_with_fuel(json_path::value_at, 2);
    assert(seq!["method"@].drop_first() =~= Seq::<Seq<char>>::empty());
    assert(seq!["url"@].drop_first() =~= Seq::<Seq<char>>::empty());
    assert(seq!["headers"@].drop_first() =~= Seq::<Seq<char>>::empty());
    assert(seq!["body"@].drop_first() =~= Seq::<Seq<char>>::empty());
}

/// A call carries the name and the secret of its client, each in its own header, asks for JSON, and says
/// that its body is JSON exactly where it has one; its own headers stand between, in their order.
pub proof fn law_calls_carry_their_client(
    client_id: Seq<char>,
    client_secret: Seq<char>,
    headers: Seq<(Seq<char>, Seq<char>)>,
    has_body: bool,
)
    ensures
        ({
            let all = call_headers(client_id, client_secret, headers, has_body);
            &&& all.len() == 3 + headers.len() + if has_body {
                1int
            } else {
                0int
            }
            &&& all[0] == ("openpanel-client-id"@, client_id)
            &&& all[1] == ("openpanel-client-secret"@, client_secret)
            &&& all[2] == ("accept"@, "application/json"@)
            &&& all.subrange(3, 3 + headers.len() as int) == headers
            &&& has_body ==> all.last() == ("content-type"@, "application/json"@)
            &&& client_headers(client_id, client_secret) == all.take(3)
        }),
{
    let all = call_headers(client_id, client_secret, headers, has_body);
    assert(all.subrange(3, 3 + headers.len() as int) =~= headers);
    assert(client_headers(client_id, client_secret) =~= all.take(3));
}

/// Requests without a body are shown one by one, in their order, each with the method GET and its own
/// address.
pub proof fn law_gets_are_shown_one_by_one(base: Seq<char>, gets: Seq<GetView>)
    ensures
        get_trees(base, gets) matches Ok(list) ==> list.len() == gets.len() && forall|i: int|
            0 <= i < gets.len() ==> (address::request_address(
                base,
                (#[trigger] gets[i]).path,
                gets[i].pairs,
            ) matches Ok(url) && json_path::value_at(list[i], seq!["url"@]) == Some(
                JsonView::Text(url),
            ) && json_path::value_at(list[i], seq!["method"@]) == Some(JsonView::Text("GET"@))),
        get_trees(base, gets) matches Err(e) ==> exists|i: int|
            0 <= i < gets.len() && address::request_address(
                base,
                (#[trigger] gets[i]).path,
                gets[i].pairs,
            ) == Err::<Seq<char>, Seq<char>>(e),
    decreases gets.len(),
{
    if gets.len() > 0 {
        let front = gets.drop_last();
        let last = gets.len() - 1;
        law_gets_are_shown_one_by_one(base, front);
        assert(gets[last] == gets.last());
        if let Ok(list) = get_trees(base, gets) {
            let before = get_trees(base, front)->Ok_0;
            assert forall|i: int| 0 <= i < gets.len() implies (address::request_address(
                base,
                (#[trigger] gets[i]).path,
                gets[i].pairs,
            ) matches Ok(url) && json_path::value_at(list[i], seq!["url"@]) == Some(
                JsonView::Text(url),
            ) && json_path::value_at(list[i], seq!["method"@]) == Some(
                JsonView::Text("GET"@),
            )) by {
                if i < last {
                    assert(front[i] == gets[i]);
                    assert(list[i] == before[i]);
                } else {
                    let url = address::request_address(base, gets[i].path, gets[i].pairs)->Ok_0;
                    law_dry_runs_show_the_request(
                        "GET"@,
                        RequestView { url, headers: seq![], body: None },
                    );
                }
            }
        } else if get_trees(base, front) is Err {
            let e = get_trees(base, front)->Err_0;
            let i = choose|i: int|
                0 <= i < front.len() && address::request_address(
                    base,
                    (#[trigger] front[i]).path,
                    front[i].pairs,
                ) == Err::<Seq<char>, Seq<char>>(e);
            assert(gets[i] == front[i]);
        }
    }
}

/// What a call calls is an operation of the command tree, under the resource, the group where the
/// resource has groups, and the name that the command names.
pub proof fn law_calls_are_operations_of_the_tree(tree: TreeView, path: Seq<Seq<char>>)
    ensures
        action_of(tree, path) matches Ok(ActionView::Call(op)) ==> {
            &&& path.len() >= 2
            &&& exists|r: int|
                0 <= r < tree.resources.len() && (#[trigger] tree.resources[r]).name == path[0] && if tree.resources[r].groups.len()
                    == 0 {
                    op.name == path[1] && tree.resources[r].ops.contains(op)
                } else {
                    path.len() >= 3 && op.name == path[2] && exists|g: int|
                        0 <= g < tree.resources[r].groups.len() && (
                        #[trigger] tree.resources[r].groups[g]).name == path[1]
                            && tree.resources[r].groups[g].ops.contains(op)
                }
        },
{
    if let Ok(ActionView::Call(op)) = action_of(tree, path) {
        command_tree::law_resources_are_found_by_name(tree.resources, path[0]);
        let found = command_tree::resource_named(tree.resources, path[0])->Some_0;
        let r = choose|r: int|
            0 <= r < tree.resources.len() && #[trigger] tree.resources[r] == found && forall|j: int|
                0 <= j < r ==> (#[trigger] tree.resources[j]).name != path[0];
        if found.groups.len() == 0 {
            command_tree::law_operations_are_found_in_their_group(found, None, path[1]);
        } else {
            command_tree::law_operations_are_found_in_their_group(found, Some(path[1]), path[2]);
        }
        assert(tree.resources[r] == found);
    }
}

/// A command that needs another one behind it asks for it.
pub proof fn law_commands_ask_for_operations(tree: TreeView, name: Seq<char>)
    requires
        name == "auth"@ || name == "events"@ || name == "analytics"@,
    ensures
        action_of(tree, seq![name]) == Err::<ActionView, Seq<char>>("operation required"@),
{
    reveal_strlit("export");
    reveal_strlit("auth");
    reveal_strlit("events");
    reveal_strlit("analytics");
    assert("auth"@.len() == 4 && "events"@.len() == 6 && "analytics"@.len() == 9);
}

} // verus!
