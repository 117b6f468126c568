//! Diagnosis of the configured client: what it is asked for, and what its replies say of it.

use crate::address::{self, request_url};
use crate::dispatch::{self, Get, GetView};
use crate::error::CliError;
use crate::json::{Json, JsonView, Members, Numeral, NumeralView};
use crate::json_path;
use crate::json_text::{self, read_json};
use crate::pattern;
use crate::query;
use crate::redact::{self, redact_secrets};
use crate::retry::is_success;
use crate::text;
use vstd::prelude::*;
use vstd::string::StringExecFns;

verus! {

broadcast use crate::json::lemma_view;

/// A request that probes what a client may do.
#[derive(Debug, PartialEq, Eq)]
pub struct ProbeRequest {
    pub name: String,
    pub path: String,
    pub pairs: Vec<(String, String)>,
}

/// What a probing request is.
#[verifier::ext_equal]
pub struct ProbeRequestView {
    pub name: Seq<char>,
    pub path: Seq<char>,
    pub pairs: Seq<(Seq<char>, Seq<char>)>,
}

impl View for ProbeRequest {
    type V = ProbeRequestView;

    open spec fn view(&self) -> ProbeRequestView {
        ProbeRequestView {
            name: self.name@,
            path: self.path@,
            pairs: query::pair_views(self.pairs@),
        }
    }
}

/// The request that asks for the projects of the organisation.
pub open spec fn projects_probe() -> ProbeRequestView {
    ProbeRequestView { name: "manage_projects"@, path: "manage/projects"@, pairs: seq![] }
}

/// The request that asks for the clients of a project.
pub open spec fn clients_probe(project_id: Seq<char>) -> ProbeRequestView {
    ProbeRequestView {
        name: "manage_clients"@,
        path: "manage/clients"@,
        pairs: seq![("projectId"@, project_id)],
    }
}

/// The request that asks for the referrers of a project.
pub open spec fn referrer_probe(project_id: Seq<char>, range: Seq<char>) -> ProbeRequestView {
    ProbeRequestView {
        name: "insights_referrer_name"@,
        path: "insights/"@ + project_id + "/referrer_name"@,
        pairs: seq![("range"@, range)],
    }
}

/// The range that the referrers are asked for: today, where none is given.
pub fn probe_range(given: Option<&str>) -> (r: String)
    ensures
        r@ == match given {
            Some(range) => range@,
            None => "today"@,
        },
{
    match given {
        Some(range) => range.to_string(),
        None => "today".to_string(),
    }
}

/// A list with one pair.
fn one_pair(name: &str, value: &str) -> (r: Vec<(String, String)>)
    ensures
        query::pair_views(r@) == seq![(name@, value@)],
{
    let mut pairs: Vec<(String, String)> = Vec::new();
    pairs.push((name.to_string(), value.to_string()));
    proof {
        assert(query::pair_views(pairs@) =~= seq![(name@, value@)]);
    }
    pairs
}

/// Lists the requests that probe a client, in the order in which they are sent.
pub fn auth_probes(project_id: &str, range: &str) -> (r: (ProbeRequest, ProbeRequest, ProbeRequest))
    ensures
        r.0@ == projects_probe(),
        r.1@ == clients_probe(project_id@),
        r.2@ == referrer_probe(project_id@, range@),
{
    let mut path = "insights/".to_string();
    path.append(project_id);
    path.append("/referrer_name");
    let projects = ProbeRequest {
        name: "manage_projects".to_string(),
        path: "manage/projects".to_string(),
        pairs: Vec::new(),
    };
    proof {
        assert(projects@ =~= projects_probe());
    }
    (
        projects,
        ProbeRequest {
            name: "manage_clients".to_string(),
            path: "manage/clients".to_string(),
            pairs: one_pair("projectId", project_id),
        },
        ProbeRequest {
            name: "insights_referrer_name".to_string(),
            path,
            pairs: one_pair("range", range),
        },
    )
}

/// Builds the address of a probing request.
pub fn probe_url(base_url: &str, probe: &ProbeRequest) -> (r: Result<String, CliError>)
    requires
        address::is_short(base_url@, probe@.path, probe@.pairs),
    ensures
        match r {
            Ok(url) => address::request_address(base_url@, probe@.path, probe@.pairs) == Ok::<
                Seq<char>,
                Seq<char>,
            >(url@),
            Err(e) => address::request_address(base_url@, probe@.path, probe@.pairs) == Err::<
                Seq<char>,
                Seq<char>,
            >(e@),
        },
{
    match request_url(base_url, probe.path.as_str(), &probe.pairs) {
        Ok(url) => Ok(url),
        Err(e) => Err(CliError::of(e)),
    }
}

/// The request of a probe.
pub open spec fn get_of(probe: ProbeRequestView) -> GetView {
    GetView { path: probe.path, pairs: probe.pairs }
}

/// Lists the requests that a dry run of the diagnosis shows: those that probe a client.
pub fn probe_gets(project_id: &str, range: &str) -> (r: Vec<Get>)
    ensures
        dispatch::get_views(r@) == seq![
            get_of(projects_probe()),
            get_of(clients_probe(project_id@)),
            get_of(referrer_probe(project_id@, range@)),
        ],
{
    let (projects, clients, referrer) = auth_probes(project_id, range);
    let mut out: Vec<Get> = Vec::new();
    out.push(Get { path: projects.path, pairs: projects.pairs });
    out.push(Get { path: clients.path, pairs: clients.pairs });
    out.push(Get { path: referrer.path, pairs: referrer.pairs });
    proof {
        assert(dispatch::get_views(out@) =~= seq![
            get_of(projects_probe()),
            get_of(clients_probe(project_id@)),
            get_of(referrer_probe(project_id@, range@)),
        ]);
    }
    out
}

/// The message that a probing request could not be sent.
pub fn probe_send_error(name: &str) -> (r: CliError)
    ensures
        r@ == "send "@ + name@ + " probe"@,
{
    let mut message = "send ".to_string();
    message.append(name);
    message.append(" probe");
    CliError::of(message)
}

/// A reply to a probing request.
#[derive(Debug, PartialEq, Eq)]
pub struct AuthProbe {
    pub name: String,
    pub status: u16,
    pub success: bool,
    pub body: Json,
}

/// What a reply to a probing request is.
pub struct AuthProbeView {
    pub name: Seq<char>,
    pub status: u16,
    pub success: bool,
    pub body: JsonView,
}

impl View for AuthProbe {
    type V = AuthProbeView;

    open spec fn view(&self) -> AuthProbeView {
        AuthProbeView {
            name: self.name@,
            status: self.status,
            success: self.success,
            body: self.body@,
        }
    }
}

/// The reply with a status and what was read of its body: null where that holds no JSON.
pub open spec fn probe_of(name: Seq<char>, status: u16, body: Option<JsonView>) -> AuthProbeView {
    AuthProbeView {
        name,
        status,
        success: 200 <= status < 300,
        body: match body {
            Some(body) => body,
            None => JsonView::Null,
        },
    }
}

/// What is read of a body: its JSON value, where it is a text that holds one.
pub open spec fn body_read(text: Option<Seq<char>>) -> Option<JsonView> {
    match text {
        Some(text) => match json_text::json_value(text) {
            Ok(value) => Some(value),
            Err(_) => None,
        },
        None => None,
    }
}

/// One reply to a probing request as a JSON value, with its secrets hidden.
pub open spec fn probe_tree(probe: AuthProbeView) -> JsonView {
    JsonView::Object(
        map![
            "name"@ => JsonView::Text(probe.name),
            "status"@ => JsonView::Number(NumeralView::Unsigned(probe.status as u64)),
            "success"@ => JsonView::Bool(probe.success),
            "body"@ => redact::redacted(probe.body),
        ],
    )
}

impl AuthProbe {
    /// Takes a reply with what was read of its body.
    pub fn of(name: &str, status: u16, body: Option<Json>) -> (r: AuthProbe)
        ensures
            r@ == probe_of(
                name@,
                status,
                match body {
                    Some(body) => Some(body@),
                    None => None,
                },
            ),
    {
        AuthProbe {
            name: name.to_string(),
            status,
            success: is_success(status),
            body: match body {
                Some(body) => body,
                None => Json::Null,
            },
        }
    }

    /// Reads a reply: its body is given where it is text.
    pub fn read(name: &str, status: u16, body: Option<&str>) -> (r: AuthProbe)
        ensures
            r@ == probe_of(name@, status, body_read(text::text_of(body))),
    {
        let value = match body {
            Some(text) => match read_json(text) {
                Ok(value) => Some(value),
                Err(_) => None,
            },
            None => None,
        };
        AuthProbe::of(name, status, value)
    }

    /// Shows a reply as a JSON value, with its secrets hidden.
    pub fn to_json(&self) -> (r: Json)
        ensures
            r@ == probe_tree(self@),
    {
        Json::Object(
            Members::new().insert("name".to_string(), Json::Text(self.name.clone())).insert(
                "status".to_string(),
                Json::Number(Numeral::Unsigned(self.status as u64)),
            ).insert("success".to_string(), Json::Bool(self.success)).insert(
                "body".to_string(),
                redact_secrets(self.body.clone()),
            ),
        )
    }
}

/// The kinds of clients.
#[derive(Clone, Copy, Debug, PartialEq, Eq, Structural)]
pub enum ClientKind {
    Root,
    Read,
    WriteOrInvalid,
}

/// The kind of a client, by which of the probing requests succeeded.
pub open spec fn kind_of(projects: bool, clients: bool, referrer: bool) -> ClientKind {
    if projects && clients {
        ClientKind::Root
    } else if referrer {
        ClientKind::Read
    } else {
        ClientKind::WriteOrInvalid
    }
}

/// Tells the kind of a client from the replies to the probing requests.
pub fn classify(projects: &AuthProbe, clients: &AuthProbe, referrer: &AuthProbe) -> (r: ClientKind)
    ensures
        r == ClientKind::Root <==> projects.success && clients.success,
        r == ClientKind::Read <==> !(projects.success && clients.success) && referrer.success,
        r == ClientKind::WriteOrInvalid <==> !(projects.success && clients.success)
            && !referrer.success,
        r == kind_of(projects.success, clients.success, referrer.success),
{
    if projects.success && clients.success {
        ClientKind::Root
    } else if referrer.success {
        ClientKind::Read
    } else {
        ClientKind::WriteOrInvalid
    }
}

/// The name of a kind of client.
pub open spec fn kind_name(kind: ClientKind) -> Seq<char> {
    match kind {
        ClientKind::Root => "root"@,
        ClientKind::Read => "read"@,
        ClientKind::WriteOrInvalid => "write_or_invalid"@,
    }
}

/// What is said of a kind of client.
pub open spec fn kind_text(kind: ClientKind) -> Seq<char> {
    match kind {
        ClientKind::Root => "Root client: Manage and Insights probes succeeded. This should be org/account-wide."@,
        ClientKind::Read => "Read client: Insights succeeded but Manage failed. Good for analytics, not org management."@,
        ClientKind::WriteOrInvalid => "Write-only or invalid client: official analytics reads failed. Frontend tracking clients usually land here."@,
    }
}

impl ClientKind {
    /// The name of this kind of client.
    pub fn name(self) -> (r: &'static str)
        ensures
            r@ == kind_name(self),
    {
        match self {
            ClientKind::Root => "root",
            ClientKind::Read => "read",
            ClientKind::WriteOrInvalid => "write_or_invalid",
        }
    }

    /// Explains this kind of client.
    pub fn explanation(self) -> (r: &'static str)
        ensures
            r@ == kind_text(self),
    {
        match self {
            ClientKind::Root => "Root client: Manage and Insights probes succeeded. This should be org/account-wide.",
            ClientKind::Read => "Read client: Insights succeeded but Manage failed. Good for analytics, not org management.",
            ClientKind::WriteOrInvalid => "Write-only or invalid client: official analytics reads failed. Frontend tracking clients usually land here.",
        }
    }
}

/// The replies to the probing requests as a JSON value.
pub open spec fn probes_tree(
    projects: AuthProbeView,
    clients: AuthProbeView,
    referrer: AuthProbeView,
) -> JsonView {
    JsonView::Object(
        map![
            "manageProjects"@ => probe_tree(projects),
            "manageClients"@ => probe_tree(clients),
            "insightsReferrerName"@ => probe_tree(referrer),
        ],
    )
}

/// The diagnosis of a client as a JSON value.
pub open spec fn doctor_tree(
    base: Seq<char>,
    project_id: Seq<char>,
    projects: AuthProbeView,
    clients: AuthProbeView,
    referrer: AuthProbeView,
) -> JsonView {
    let kind = kind_of(projects.success, clients.success, referrer.success);
    JsonView::Object(
        map![
            "classification"@ => JsonView::Text(kind_name(kind)),
            "explanation"@ => JsonView::Text(kind_text(kind)),
            "apiUrl"@ => JsonView::Text(base),
            "projectId"@ => JsonView::Text(project_id),
            "probes"@ => probes_tree(projects, clients, referrer),
        ],
    )
}

/// Builds the diagnosis of a client.
pub fn doctor_report(
    base_url: &str,
    project_id: &str,
    projects: &AuthProbe,
    clients: &AuthProbe,
    referrer: &AuthProbe,
) -> (r: Json)
    ensures
        r@ == doctor_tree(base_url@, project_id@, projects@, clients@, referrer@),
{
    let kind = classify(projects, clients, referrer);
    let probes = Members::new().insert("manageProjects".to_string(), projects.to_json()).insert(
        "manageClients".to_string(),
        clients.to_json(),
    ).insert("insightsReferrerName".to_string(), referrer.to_json());
    Json::Object(
        Members::new().insert(
            "classification".to_string(),
            Json::Text(kind.name().to_string()),
        ).insert("explanation".to_string(), Json::Text(kind.explanation().to_string())).insert(
            "apiUrl".to_string(),
            Json::Text(base_url.to_string()),
        ).insert("projectId".to_string(), Json::Text(project_id.to_string())).insert(
            "probes".to_string(),
            Json::Object(probes),
        ),
    )
}

/// Whether no two letters in a row, from an index on, are those that `secret` and `token` begin with.
spec fn plain_from(key: Seq<char>, i: int) -> bool
    decreases key.len() - i,
{
    if i < 0 || i + 1 >= key.len() {
        true
    } else {
        let a = text::lower(key[i]);
        let b = text::lower(key[i + 1]);
        !(a == 's' && b == 'e') && !(a == 't' && b == 'o') && plain_from(key, i + 1)
    }
}

/// A key without such letters in a row holds neither word.
proof fn lemma_plain_from(key: Seq<char>, i: int, j: int)
    requires
        plain_from(key, i),
        0 <= i <= j,
        j + 1 < key.len(),
    ensures
        !(text::lower(key[j]) == 's' && text::lower(key[j + 1]) == 'e'),
        !(text::lower(key[j]) == 't' && text::lower(key[j + 1]) == 'o'),
    decreases j - i,
{
    if i < j {
        lemma_plain_from(key, i + 1, j);
    }
}

/// A key without such letters in a row that is not `password` stands for no secret.
proof fn lemma_no_secret_key(key: Seq<char>)
    requires
        plain_from(key, 0),
        key.len() != 8,
    ensures
        !redact::is_secret(key),
{
    reveal_strlit("secret");
    reveal_strlit("token");
    reveal_strlit("password");
    let low = text::lowered(key);
    assert(low.len() == key.len());
    assert(low != "password"@);
    if pattern::occurs(low, "secret"@) {
        let i = choose|i: int| pattern::occurs_at(low, "secret"@, i);
        let found = low.subrange(i, i + 6);
        assert(found[0] == 's' && found[1] == 'e');
        lemma_plain_from(key, 0, i);
    }
    if pattern::occurs(low, "token"@) {
        let i = choose|i: int| pattern::occurs_at(low, "token"@, i);
        let found = low.subrange(i, i + 5);
        assert(found[0] == 't' && found[1] == 'o');
        lemma_plain_from(key, 0, i);
    }
}

/// A reply to a probing request is shown without its secrets.
pub proof fn law_probe_shows_no_secret(probe: AuthProbeView)
    ensures
        redact::shows_no_secret(probe_tree(probe)),
{
    reveal_strlit("name");
    reveal_strlit("status");
    reveal_strlit("success");
    reveal_strlit("body");
    reveal_with_fuel(plain_from, 8);
    lemma_no_secret_key("name"@);
    lemma_no_secret_key("status"@);
    lemma_no_secret_key("success"@);
    lemma_no_secret_key("body"@);
    redact::law_redacted_shows_no_secret(probe.body);
    reveal_with_fuel(redact::shows_no_secret, 2);
}

/// The diagnosis of a client shows no secret of the replies.
pub proof fn law_doctor_shows_no_secret(
    base: Seq<char>,
    project_id: Seq<char>,
    projects: AuthProbeView,
    clients: AuthProbeView,
    referrer: AuthProbeView,
)
    ensures
        redact::shows_no_secret(doctor_tree(base, project_id, projects, clients, referrer)),
{
    law_probe_shows_no_secret(projects);
    law_probe_shows_no_secret(clients);
    law_probe_shows_no_secret(referrer);
    reveal_strlit("manageProjects");
    reveal_strlit("manageClients");
    reveal_strlit("insightsReferrerName");
    reveal_strlit("classification");
    reveal_strlit("explanation");
    reveal_strlit("apiUrl");
    reveal_strlit("projectId");
    reveal_strlit("probes");
    reveal_with_fuel(plain_from, 21);
    lemma_no_secret_key("manageProjects"@);
    lemma_no_secret_key("manageClients"@);
    lemma_no_secret_key("insightsReferrerName"@);
    lemma_no_secret_key("classification"@);
    lemma_no_secret_key("explanation"@);
    lemma_no_secret_key("apiUrl"@);
    lemma_no_secret_key("projectId"@);
    lemma_no_secret_key("probes"@);
    let inner = probes_tree(projects, clients, referrer);
    assert(redact::shows_no_secret(inner));
    reveal_with_fuel(redact::shows_no_secret, 2);
}

/// A client is a root client exactly where both requests of its management succeeded, whatever the
/// third says; it is a read client exactly where one of those failed and the third succeeded; it is
/// neither exactly where one of those failed and so did the third.
pub proof fn law_kinds_of_clients(projects: bool, clients: bool, referrer: bool)
    ensures
        kind_of(projects, clients, referrer) == ClientKind::Root <==> projects && clients,
        kind_of(projects, clients, referrer) == ClientKind::Read <==> !(projects && clients)
            && referrer,
        kind_of(projects, clients, referrer) == ClientKind::WriteOrInvalid <==> !(projects && clients)
            && !referrer,
{
}

/// A diagnosis says `root`, `read` or `write_or_invalid`, by the statuses of the three replies alone,
/// and shows the base and the project that it is of.
pub proof fn law_diagnosis_follows_the_statuses(
    base: Seq<char>,
    project_id: Seq<char>,
    statuses: (u16, u16, u16),
    bodies: (Option<JsonView>, Option<JsonView>, Option<JsonView>),
)
    ensures
        ({
            let projects = probe_of("manage_projects"@, statuses.0, bodies.0);
            let clients = probe_of("manage_clients"@, statuses.1, bodies.1);
            let referrer = probe_of("insights_referrer_name"@, statuses.2, bodies.2);
            let report = doctor_tree(base, project_id, projects, clients, referrer);
            let manages = 200 <= statuses.0 < 300 && 200 <= statuses.1 < 300;
            let reads = 200 <= statuses.2 < 300;
            &&& json_path::value_at(report, seq!["classification"@]) == Some(
                JsonView::Text(
                    if manages {
                        "root"@
                    } else if reads {
                        "read"@
                    } else {
                        "write_or_invalid"@
                    },
                ),
            )
            &&& json_path::value_at(report, seq!["apiUrl"@]) == Some(JsonView::Text(base))
            &&& json_path::value_at(report, seq!["projectId"@]) == Some(JsonView::Text(project_id))
            &&& json_path::value_at(report, seq!["probes"@, "manageProjects"@, "status"@]) == Some(
                JsonView::Number(NumeralView::Unsigned(statuses.0 as u64)),
            )
            &&& json_path::value_at(report, seq!["probes"@, "manageClients"@, "status"@]) == Some(
                JsonView::Number(NumeralView::Unsigned(statuses.1 as u64)),
            )
            &&& json_path::value_at(report, seq!["probes"@, "insightsReferrerName"@, "status"@])
                == Some(JsonView::Number(NumeralView::Unsigned(statuses.2 as u64)))
        }),
{
    lemma_report_keys();
    reveal_with_fuel(json_path::value_at, 4);
    let one: Seq<Seq<char>> = seq!["classification"@];
    assert(one.drop_first() =~= seq![]);
    assert(seq!["apiUrl"@].drop_first() =~= Seq::<Seq<char>>::empty());
    assert(seq!["projectId"@].drop_first() =~= Seq::<Seq<char>>::empty());
    let a = seq!["probes"@, "manageProjects"@, "status"@];
    let b = seq!["probes"@, "manageClients"@, "status"@];
    let c = seq!["probes"@, "insightsReferrerName"@, "status"@];
    assert(a.drop_first() =~= seq!["manageProjects"@, "status"@]);
    assert(b.drop_first() =~= seq!["manageClients"@, "status"@]);
    assert(c.drop_first() =~= seq!["insightsReferrerName"@, "status"@]);
    assert(a.drop_first().drop_first() =~= seq!["status"@]);
    assert(b.drop_first().drop_first() =~= seq!["status"@]);
    assert(c.drop_first().drop_first() =~= seq!["status"@]);
    assert(seq!["status"@].drop_first() =~= Seq::<Seq<char>>::empty());
}

/// The member names of a diagnosis are different.
proof fn lemma_report_keys()
    ensures
        "classification"@.len() == 14,
        "explanation"@.len() == 11,
        "apiUrl"@.len() == 6,
        "apiUrl"@[0] == 'a',
        "projectId"@.len() == 9,
        "probes"@.len() == 6,
        "probes"@[0] == 'p',
        "manageProjects"@.len() == 14,
        "manageClients"@.len() == 13,
        "insightsReferrerName"@.len() == 20,
        "name"@.len() == 4,
        "name"@[0] == 'n',
        "status"@.len() == 6,
        "success"@.len() == 7,
        "body"@.len() == 4,
        "body"@[0] == 'b',
{
    reveal_strlit("classification");
    reveal_strlit("explanation");
    reveal_strlit("apiUrl");
    reveal_strlit("projectId");
    reveal_strlit("probes");
    reveal_strlit("manageProjects");
    reveal_strlit("manageClients");
    reveal_strlit("insightsReferrerName");
    reveal_strlit("name");
    reveal_strlit("status");
    reveal_strlit("success");
    reveal_strlit("body");
}

/// What a diagnosis asks for: the projects, the clients of the project, and its referrers in the range,
/// each at its own path.
pub proof fn law_probes_ask_for_the_project(project_id: Seq<char>, range: Seq<char>)
    ensures
        projects_probe().path == "manage/projects"@ && projects_probe().pairs.len() == 0,
        clients_probe(project_id).path == "manage/clients"@,
        clients_probe(project_id).pairs.len() == 1,
        clients_probe(project_id).pairs[0] == ("projectId"@, project_id),
        referrer_probe(project_id, range).path == "insights/"@ + project_id + "/referrer_name"@,
        referrer_probe(project_id, range).pairs.len() == 1,
        referrer_probe(project_id, range).pairs[0] == ("range"@, range),
{
}

/// A diagnosis explains itself, by the statuses of the three replies, and shows of each reply its name,
/// its status, whether it succeeded, and its body without the secrets.
pub proof fn law_diagnosis_shows_the_replies(
    base: Seq<char>,
    project_id: Seq<char>,
    projects: AuthProbeView,
    clients: AuthProbeView,
    referrer: AuthProbeView,
)
    ensures
        ({
            let report = doctor_tree(base, project_id, projects, clients, referrer);
            &&& json_path::value_at(report, seq!["explanation"@]) == Some(
                JsonView::Text(
                    if projects.success && clients.success {
                        "Root client: Manage and Insights probes succeeded. This should be org/account-wide."@
                    } else if referrer.success {
                        "Read client: Insights succeeded but Manage failed. Good for analytics, not org management."@
                    } else {
                        "Write-only or invalid client: official analytics reads failed. Frontend tracking clients usually land here."@
                    },
                ),
            )
            &&& json_path::value_at(report, seq!["probes"@]) matches Some(JsonView::Object(probes))
                && probes.contains_key("manageProjects"@) && probes.contains_key("manageClients"@)
                && probes.contains_key("insightsReferrerName"@) && probes["manageProjects"@]
                == probe_tree(projects) && probes["manageClients"@] == probe_tree(clients)
                && probes["insightsReferrerName"@] == probe_tree(referrer)
            &&& json_path::value_at(probe_tree(projects), seq!["name"@]) == Some(
                JsonView::Text(projects.name),
            )
            &&& json_path::value_at(probe_tree(projects), seq!["success"@]) == Some(
                JsonView::Bool(projects.success),
            )
            &&& json_path::value_at(probe_tree(projects), seq!["body"@]) == Some(
                redact::redacted(projects.body),
            )
        }),
{
    lemma_report_keys();
    reveal_with_fuel(json_path::value_at, 2);
    assert(seq!["explanation"@].drop_first() =~= Seq::<Seq<char>>::empty());
    assert(seq!["probes"@].drop_first() =~= Seq::<Seq<char>>::empty());
    assert(seq!["name"@].drop_first() =~= Seq::<Seq<char>>::empty());
    assert(seq!["success"@].drop_first() =~= Seq::<Seq<char>>::empty());
    assert(seq!["body"@].drop_first() =~= Seq::<Seq<char>>::empty());
}

/// What is read of the body of a reply: its JSON value, and nothing where it is no text or no JSON, which
/// is shown as null.
pub proof fn law_bodies_of_replies_are_read(name: Seq<char>, status: u16, text: Seq<char>)
    ensures
        match json_text::json_value(text) {
            Ok(value) => probe_of(name, status, body_read(Some(text))).body == value,
            Err(_) => probe_of(name, status, body_read(Some(text))).body == JsonView::Null,
        },
        probe_of(name, status, body_read(None)).body == JsonView::Null,
        probe_of(name, status, body_read(Some(text))).name == name,
        probe_of(name, status, body_read(Some(text))).status == status,
        probe_of(name, status, body_read(Some(text))).success <==> 200 <= status <= 299,
{
}

} // verus!
