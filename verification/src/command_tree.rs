//! The command tree: the resources of the service, their operations and the arguments of each.

use crate::error::CliError;
use crate::json::{self, Json, JsonView, Members};
use crate::json_path;
use crate::json_text::{self, write_json};
use crate::text::{self, push_text, same};
use vstd::prelude::*;
use vstd::string::StringExecFns;

verus! {

broadcast use crate::json::lemma_view;

/// The whole command tree.
#[derive(Debug, PartialEq, Eq)]
pub struct CommandTree {
    pub version: u32,
    pub base_url: String,
    pub resources: Vec<Resource>,
}

/// A resource, with its operations or with groups of them.
#[derive(Debug, PartialEq, Eq)]
pub struct Resource {
    pub name: String,
    pub ops: Vec<Operation>,
    pub groups: Vec<Group>,
}

/// A group of operations.
#[derive(Debug, PartialEq, Eq)]
pub struct Group {
    pub name: String,
    pub ops: Vec<Operation>,
}

/// An operation of the service.
#[derive(Debug, PartialEq, Eq)]
pub struct Operation {
    pub name: String,
    pub method: String,
    pub path: String,
    pub description: Option<String>,
    pub body_defaults: Option<Json>,
    pub args: Vec<ArgDef>,
}

/// An argument of an operation, and where it goes in the request.
#[derive(Debug, PartialEq, Eq)]
pub struct ArgDef {
    pub name: String,
    pub flag: String,
    pub location: String,
    pub required: bool,
    pub list: bool,
    pub value_type: String,
    pub path: Option<String>,
    pub header_name: Option<String>,
    pub nullable: bool,
}

/// What a command tree holds.
#[verifier::ext_equal]
pub struct TreeView {
    pub version: u32,
    pub base_url: Seq<char>,
    pub resources: Seq<ResourceView>,
}

/// What a resource holds.
#[verifier::ext_equal]
pub struct ResourceView {
    pub name: Seq<char>,
    pub ops: Seq<OperationView>,
    pub groups: Seq<GroupView>,
}

/// What a group holds.
#[verifier::ext_equal]
pub struct GroupView {
    pub name: Seq<char>,
    pub ops: Seq<OperationView>,
}

/// What an operation is.
#[verifier::ext_equal]
pub struct OperationView {
    pub name: Seq<char>,
    pub method: Seq<char>,
    pub path: Seq<char>,
    pub description: Option<Seq<char>>,
    pub body_defaults: Option<JsonView>,
    pub args: Seq<ArgView>,
}

/// What an argument is.
#[verifier::ext_equal]
pub struct ArgView {
    pub name: Seq<char>,
    pub flag: Seq<char>,
    pub location: Seq<char>,
    pub required: bool,
    pub list: bool,
    pub value_type: Seq<char>,
    pub path: Option<Seq<char>>,
    pub header_name: Option<Seq<char>>,
    pub nullable: bool,
}

impl View for ArgDef {
    type V = ArgView;

    open spec fn view(&self) -> ArgView {
        ArgView {
            name: self.name@,
            flag: self.flag@,
            location: self.location@,
            required: self.required,
            list: self.list,
            value_type: self.value_type@,
            path: text::owned_text(self.path),
            header_name: text::owned_text(self.header_name),
            nullable: self.nullable,
        }
    }
}

/// The arguments of a list.
pub open spec fn arg_views(args: Seq<ArgDef>) -> Seq<ArgView> {
    Seq::new(args.len(), |i: int| args[i]@)
}

impl View for Operation {
    type V = OperationView;

    open spec fn view(&self) -> OperationView {
        OperationView {
            name: self.name@,
            method: self.method@,
            path: self.path@,
            description: text::owned_text(self.description),
            body_defaults: match self.body_defaults {
                Some(defaults) => Some(defaults@),
                None => None,
            },
            args: arg_views(self.args@),
        }
    }
}

/// The operations of a list.
pub open spec fn op_views(ops: Seq<Operation>) -> Seq<OperationView> {
    Seq::new(ops.len(), |i: int| ops[i]@)
}

impl View for Group {
    type V = GroupView;

    open spec fn view(&self) -> GroupView {
        GroupView { name: self.name@, ops: op_views(self.ops@) }
    }
}

/// The groups of a list.
pub open spec fn group_views(groups: Seq<Group>) -> Seq<GroupView> {
    Seq::new(groups.len(), |i: int| groups[i]@)
}

impl View for Resource {
    type V = ResourceView;

    open spec fn view(&self) -> ResourceView {
        ResourceView {
            name: self.name@,
            ops: op_views(self.ops@),
            groups: group_views(self.groups@),
        }
    }
}

/// The resources of a list.
pub open spec fn resource_views(resources: Seq<Resource>) -> Seq<ResourceView> {
    Seq::new(resources.len(), |i: int| resources[i]@)
}

impl View for CommandTree {
    type V = TreeView;

    open spec fn view(&self) -> TreeView {
        TreeView {
            version: self.version,
            base_url: self.base_url@,
            resources: resource_views(self.resources@),
        }
    }
}

/// The first operation with a name.
pub open spec fn op_named(ops: Seq<OperationView>, name: Seq<char>) -> Option<OperationView>
    decreases ops.len(),
{
    if ops.len() == 0 {
        None
    } else if ops[0].name == name {
        Some(ops[0])
    } else {
        op_named(ops.skip(1), name)
    }
}

/// The first group with a name.
pub open spec fn group_named(groups: Seq<GroupView>, name: Seq<char>) -> Option<GroupView>
    decreases groups.len(),
{
    if groups.len() == 0 {
        None
    } else if groups[0].name == name {
        Some(groups[0])
    } else {
        group_named(groups.skip(1), name)
    }
}

/// The first resource with a name.
pub open spec fn resource_named(resources: Seq<ResourceView>, name: Seq<char>) -> Option<ResourceView>
    decreases resources.len(),
{
    if resources.len() == 0 {
        None
    } else if resources[0].name == name {
        Some(resources[0])
    } else {
        resource_named(resources.skip(1), name)
    }
}

/// The operation of a resource with a name: in the named group, or, where the resource has no groups,
/// among its own, whatever the group.
pub open spec fn operation_of(
    resource: ResourceView,
    group: Option<Seq<char>>,
    name: Seq<char>,
) -> Option<OperationView> {
    if resource.groups.len() == 0 {
        op_named(resource.ops, name)
    } else {
        match group {
            None => None,
            Some(group) => match group_named(resource.groups, group) {
                None => None,
                Some(group) => op_named(group.ops, name),
            },
        }
    }
}

/// What an optional operation is.
pub open spec fn op_view_of(op: Option<&Operation>) -> Option<OperationView> {
    match op {
        Some(op) => Some(op@),
        None => None,
    }
}

/// Finds the first operation with a name.
fn find_named<'a>(ops: &'a Vec<Operation>, name: &str) -> (r: Option<&'a Operation>)
    ensures
        op_view_of(r) == op_named(op_views(ops@), name@),
{
    let ghost all = op_views(ops@);
    let mut i: usize = 0;
    proof {
        assert(all.skip(0) =~= all);
    }
    while i < ops.len()
        invariant
            i <= ops@.len(),
            all == op_views(ops@),
            op_named(all, name@) == op_named(all.skip(i as int), name@),
        decreases ops@.len() - i,
    {
        proof {
            assert(all.skip(i as int)[0] == ops@[i as int]@);
            assert(all.skip(i as int).skip(1) =~= all.skip(i + 1));
        }
        if same(ops[i].name.as_str(), name) {
            return Some(&ops[i]);
        }
        i = i + 1;
    }
    None
}

/// Finds an operation of a resource.
pub fn find_op<'a>(resource: &'a Resource, group: Option<&str>, op: &str) -> (r: Option<
    &'a Operation,
>)
    ensures
        op_view_of(r) == operation_of(resource@, text::text_of(group), op@),
{
    if resource.groups.len() == 0 {
        return find_named(&resource.ops, op);
    }
    let wanted = match group {
        Some(wanted) => wanted,
        None => return None,
    };
    let ghost all = group_views(resource.groups@);
    let mut i: usize = 0;
    proof {
        assert(all.skip(0) =~= all);
    }
    while i < resource.groups.len()
        invariant
            i <= resource.groups@.len(),
            all == group_views(resource.groups@),
            group == Some(wanted),
            resource.groups@.len() > 0,
            group_named(all, wanted@) == group_named(all.skip(i as int), wanted@),
        decreases resource.groups@.len() - i,
    {
        proof {
            assert(all.skip(i as int)[0] == resource.groups@[i as int]@);
            assert(all.skip(i as int).skip(1) =~= all.skip(i + 1));
        }
        if same(resource.groups[i].name.as_str(), wanted) {
            return find_named(&resource.groups[i].ops, op);
        }
        i = i + 1;
    }
    None
}

/// Finds the first resource with a name.
pub fn find_resource<'a>(tree: &'a CommandTree, name: &str) -> (r: Option<&'a Resource>)
    ensures
        match r {
            Some(resource) => resource_named(tree@.resources, name@) == Some(resource@),
            None => resource_named(tree@.resources, name@) is None,
        },
{
    let ghost all = tree@.resources;
    let mut i: usize = 0;
    proof {
        assert(all.skip(0) =~= all);
    }
    while i < tree.resources.len()
        invariant
            i <= tree.resources@.len(),
            all == resource_views(tree.resources@),
            resource_named(all, name@) == resource_named(all.skip(i as int), name@),
        decreases tree.resources@.len() - i,
    {
        proof {
            assert(all.skip(i as int)[0] == tree.resources@[i as int]@);
            assert(all.skip(i as int).skip(1) =~= all.skip(i + 1));
        }
        if same(tree.resources[i].name.as_str(), name) {
            return Some(&tree.resources[i]);
        }
        i = i + 1;
    }
    None
}

/// A group in the name of a command: with a blank behind it.
pub open spec fn group_label(group: Option<Seq<char>>) -> Seq<char> {
    match group {
        Some(group) => group + " "@,
        None => ""@,
    }
}

/// The operation that a command names, or the message that there is none.
pub open spec fn command_op(
    tree: TreeView,
    resource: Seq<char>,
    group: Option<Seq<char>>,
    op: Seq<char>,
) -> Result<OperationView, Seq<char>> {
    match resource_named(tree.resources, resource) {
        None => Err("unknown resource "@ + resource),
        Some(found) => match operation_of(found, group, op) {
            Some(operation) => Ok(operation),
            None => Err("unknown command "@ + resource + " "@ + group_label(group) + op),
        },
    }
}

/// Says that there is no resource with a name.
pub fn unknown_resource(name: &str) -> (r: CliError)
    ensures
        r@ == "unknown resource "@ + name@,
{
    let mut message = "unknown resource ".to_string();
    message.append(name);
    CliError::of(message)
}

/// Finds the operation that a command names.
pub fn find_command<'a>(tree: &'a CommandTree, resource: &str, group: Option<&str>, op: &str) -> (r:
    Result<&'a Operation, CliError>)
    ensures
        match r {
            Ok(operation) => command_op(tree@, resource@, text::text_of(group), op@) == Ok::<
                OperationView,
                Seq<char>,
            >(operation@),
            Err(e) => command_op(tree@, resource@, text::text_of(group), op@) == Err::<
                OperationView,
                Seq<char>,
            >(e@),
        },
{
    let found = match find_resource(tree, resource) {
        Some(found) => found,
        None => return Err(unknown_resource(resource)),
    };
    match find_op(found, group, op) {
        Some(operation) => Ok(operation),
        None => {
            let mut message = "unknown command ".to_string();
            message.append(resource);
            message.append(" ");
            let ghost start = message@;
            if let Some(group) = group {
                message.append(group);
                message.append(" ");
            }
            proof {
                reveal_strlit("");
                assert(message@ =~= start + group_label(text::text_of(group)));
            }
            message.append(op);
            Err(CliError::of(message))
        },
    }
}

/// The operation that is asked to be described, or the message of the fault.
pub open spec fn described_op(
    tree: TreeView,
    resource: Option<Seq<char>>,
    group: Option<Seq<char>>,
    op: Option<Seq<char>>,
) -> Result<OperationView, Seq<char>> {
    match resource {
        None => Err("resource required"@),
        Some(resource) => match op {
            None => Err("operation required"@),
            Some(op) => command_op(tree, resource, group, op),
        },
    }
}

/// Finds the operation that is asked to be described.
pub fn find_described<'a>(
    tree: &'a CommandTree,
    resource: Option<&str>,
    group: Option<&str>,
    op: Option<&str>,
) -> (r: Result<&'a Operation, CliError>)
    ensures
        ({
            let want = described_op(
                tree@,
                text::text_of(resource),
                text::text_of(group),
                text::text_of(op),
            );
            match r {
                Ok(found) => want == Ok::<OperationView, Seq<char>>(found@),
                Err(e) => want == Err::<OperationView, Seq<char>>(e@),
            }
        }),
{
    match resource {
        None => Err(CliError::new("resource required")),
        Some(resource) => match op {
            None => Err(CliError::new("operation required")),
            Some(op) => find_command(tree, resource, group, op),
        },
    }
}

/// What is said of an operation: its description, or its method and path.
pub open spec fn hint(op: OperationView) -> Seq<char> {
    match op.description {
        Some(description) => description,
        None => op.method + " "@ + op.path,
    }
}

/// Says in a line what an operation does.
pub fn op_hint(op: &Operation) -> (r: String)
    ensures
        r@ == hint(op@),
{
    match &op.description {
        Some(description) => description.clone(),
        None => {
            let mut out = op.method.clone();
            out.append(" ");
            out.append(op.path.as_str());
            out
        },
    }
}

/// The names of operations, each on a line with a margin.
pub open spec fn op_lines(ops: Seq<OperationView>, margin: Seq<char>) -> Seq<Seq<char>> {
    Seq::new(ops.len(), |i: int| margin + ops[i].name)
}

/// The lines of the groups of a resource.
pub open spec fn group_lines(groups: Seq<GroupView>) -> Seq<Seq<char>>
    decreases groups.len(),
{
    if groups.len() == 0 {
        seq![]
    } else {
        group_lines(groups.drop_last()) + seq!["  "@ + groups.last().name] + op_lines(
            groups.last().ops,
            "    "@,
        )
    }
}

/// The lines of a resource.
pub open spec fn resource_lines(resource: ResourceView) -> Seq<Seq<char>> {
    seq![resource.name] + if resource.groups.len() == 0 {
        op_lines(resource.ops, "  "@)
    } else {
        group_lines(resource.groups)
    }
}

/// The lines that list resources and their operations.
pub open spec fn list_lines(resources: Seq<ResourceView>) -> Seq<Seq<char>>
    decreases resources.len(),
{
    if resources.len() == 0 {
        seq![]
    } else {
        list_lines(resources.drop_last()) + resource_lines(resources.last())
    }
}

/// A text with a margin before it.
fn with_margin(margin: &str, name: &str) -> (r: String)
    ensures
        r@ == margin@ + name@,
{
    let mut out = margin.to_string();
    out.append(name);
    out
}

/// Appends the names of operations, each on a line with a margin.
fn push_op_lines(out: &mut Vec<String>, ops: &Vec<Operation>, margin: &str)
    ensures
        text::texts(final(out)@) == text::texts(old(out)@) + op_lines(op_views(ops@), margin@),
{
    let ghost start = text::texts(out@);
    let ghost all = op_lines(op_views(ops@), margin@);
    let mut i: usize = 0;
    proof {
        assert(start + all.take(0) =~= start);
    }
    while i < ops.len()
        invariant
            i <= ops@.len(),
            all == op_lines(op_views(ops@), margin@),
            text::texts(out@) == start + all.take(i as int),
        decreases ops@.len() - i,
    {
        push_text(out, with_margin(margin, ops[i].name.as_str()));
        proof {
            assert(start + all.take(i + 1) =~= (start + all.take(i as int)).push(all[i as int]));
        }
        i = i + 1;
    }
    proof {
        assert(all.take(i as int) =~= all);
    }
}

/// Lists resources and their operations, line by line.
pub fn list_text(tree: &CommandTree) -> (r: Vec<String>)
    ensures
        text::texts(r@) == list_lines(tree@.resources),
{
    let mut out: Vec<String> = Vec::new();
    let ghost all = tree@.resources;
    let mut i: usize = 0;
    proof {
        assert(all.take(0) =~= seq![]);
        assert(text::texts(out@) =~= seq![]);
    }
    while i < tree.resources.len()
        invariant
            i <= tree.resources@.len(),
            all == resource_views(tree.resources@),
            text::texts(out@) == list_lines(all.take(i as int)),
        decreases tree.resources@.len() - i,
    {
        let resource = &tree.resources[i];
        let ghost before = text::texts(out@);
        proof {
            assert(all.take(i + 1).drop_last() =~= all.take(i as int));
            assert(all.take(i + 1).last() == resource@);
        }
        push_text(&mut out, resource.name.clone());
        if resource.groups.len() == 0 {
            push_op_lines(&mut out, &resource.ops, "  ");
        } else {
            let ghost start = text::texts(out@);
            let ghost groups = group_views(resource.groups@);
            let mut k: usize = 0;
            proof {
                assert(groups.take(0) =~= seq![]);
                assert(start + group_lines(groups.take(0)) =~= start);
            }
            while k < resource.groups.len()
                invariant
                    k <= resource.groups@.len(),
                    groups == group_views(resource.groups@),
                    text::texts(out@) == start + group_lines(groups.take(k as int)),
                decreases resource.groups@.len() - k,
            {
                let group = &resource.groups[k];
                proof {
                    assert(groups.take(k + 1).drop_last() =~= groups.take(k as int));
                    assert(groups.take(k + 1).last() == group@);
                }
                push_text(&mut out, with_margin("  ", group.name.as_str()));
                push_op_lines(&mut out, &group.ops, "    ");
                proof {
                    assert(text::texts(out@) =~= start + group_lines(groups.take(k + 1)));
                }
                k = k + 1;
            }
            proof {
                assert(groups.take(k as int) =~= groups);
            }
        }
        proof {
            assert(text::texts(out@) =~= before + resource_lines(resource@));
        }
        i = i + 1;
    }
    proof {
        assert(all.take(i as int) =~= all);
    }
    out
}

/// The names of operations as a JSON value.
pub open spec fn op_name_trees(ops: Seq<OperationView>) -> JsonView {
    JsonView::Array(Seq::new(ops.len(), |i: int| JsonView::Text(ops[i].name)))
}

/// A group as a JSON value.
pub open spec fn group_entry(group: GroupView) -> JsonView {
    JsonView::Object(
        map!["group"@ => JsonView::Text(group.name), "ops"@ => op_name_trees(group.ops)],
    )
}

/// A resource as a JSON value.
pub open spec fn resource_entry(resource: ResourceView) -> JsonView {
    if resource.groups.len() == 0 {
        JsonView::Object(
            map![
                "resource"@ => JsonView::Text(resource.name),
                "ops"@ => op_name_trees(resource.ops),
            ],
        )
    } else {
        JsonView::Object(
            map![
                "resource"@ => JsonView::Text(resource.name),
                "groups"@ => JsonView::Array(
                    Seq::new(resource.groups.len(), |i: int| group_entry(resource.groups[i])),
                ),
            ],
        )
    }
}

/// Resources and their operations as a JSON value.
pub open spec fn list_tree(resources: Seq<ResourceView>) -> JsonView {
    JsonView::Array(Seq::new(resources.len(), |i: int| resource_entry(resources[i])))
}

/// Collects the names of operations as a JSON value.
fn op_names(ops: &Vec<Operation>) -> (r: Json)
    ensures
        r@ == op_name_trees(op_views(ops@)),
{
    let mut out: Vec<Json> = Vec::new();
    let ghost want = Seq::new(ops@.len(), |i: int| JsonView::Text(op_views(ops@)[i].name));
    let mut i: usize = 0;
    proof {
        json::lemma_trees(out@);
        assert(json::trees(out@) =~= want.take(0));
    }
    while i < ops.len()
        invariant
            i <= ops@.len(),
            want == Seq::new(ops@.len(), |i: int| JsonView::Text(op_views(ops@)[i].name)),
            json::trees(out@) == want.take(i as int),
        decreases ops@.len() - i,
    {
        let name = Json::Text(ops[i].name.clone());
        proof {
            json::lemma_trees_push(out@, name);
            assert(want.take(i + 1) =~= want.take(i as int).push(name@));
        }
        out.push(name);
        i = i + 1;
    }
    proof {
        assert(want.take(i as int) =~= want);
        assert(want =~= op_name_trees(op_views(ops@))->Array_0);
    }
    Json::Array(out)
}

/// Lists a resource as a JSON value.
fn list_resource(resource: &Resource) -> (r: Json)
    ensures
        r@ == resource_entry(resource@),
{
    let entry = Members::new().insert("resource".to_string(), Json::Text(resource.name.clone()));
    if resource.groups.len() == 0 {
        return Json::Object(entry.insert("ops".to_string(), op_names(&resource.ops)));
    }
    let mut out: Vec<Json> = Vec::new();
    let ghost all = group_views(resource.groups@);
    let ghost want = Seq::new(all.len(), |i: int| group_entry(all[i]));
    let mut i: usize = 0;
    proof {
        json::lemma_trees(out@);
        assert(json::trees(out@) =~= want.take(0));
    }
    while i < resource.groups.len()
        invariant
            i <= resource.groups@.len(),
            all == group_views(resource.groups@),
            want == Seq::new(all.len(), |i: int| group_entry(all[i])),
            json::trees(out@) == want.take(i as int),
        decreases resource.groups@.len() - i,
    {
        let group = &resource.groups[i];
        let item = Json::Object(
            Members::new().insert("group".to_string(), Json::Text(group.name.clone())).insert(
                "ops".to_string(),
                op_names(&group.ops),
            ),
        );
        proof {
            json::lemma_trees_push(out@, item);
            assert(all[i as int] == group@);
            assert(item@ == want[i as int]);
            assert(want.take(i + 1) =~= want.take(i as int).push(item@));
        }
        out.push(item);
        i = i + 1;
    }
    proof {
        assert(want.take(i as int) =~= want);
    }
    Json::Object(entry.insert("groups".to_string(), Json::Array(out)))
}

/// Lists resources and their operations as a JSON value.
pub fn list_json(tree: &CommandTree) -> (r: Json)
    ensures
        r@ == list_tree(tree@.resources),
{
    let mut out: Vec<Json> = Vec::new();
    let ghost all = tree@.resources;
    let ghost want = Seq::new(all.len(), |i: int| resource_entry(all[i]));
    let mut i: usize = 0;
    proof {
        json::lemma_trees(out@);
        assert(json::trees(out@) =~= want.take(0));
    }
    while i < tree.resources.len()
        invariant
            i <= tree.resources@.len(),
            all == resource_views(tree.resources@),
            want == Seq::new(all.len(), |i: int| resource_entry(all[i])),
            json::trees(out@) == want.take(i as int),
        decreases tree.resources@.len() - i,
    {
        let item = list_resource(&tree.resources[i]);
        proof {
            json::lemma_trees_push(out@, item);
            assert(all[i as int] == tree.resources@[i as int]@);
            assert(want.take(i + 1) =~= want.take(i as int).push(item@));
        }
        out.push(item);
        i = i + 1;
    }
    proof {
        assert(want.take(i as int) =~= want);
    }
    Json::Array(out)
}

/// The line of an argument.
pub open spec fn arg_line(arg: ArgView) -> Seq<char> {
    "    --"@ + arg.flag + "  ["@ + arg.value_type + (if arg.required {
        " (required)"@
    } else {
        ""@
    }) + "]"@
}

/// The lines of the arguments of an operation, under a heading where there are any.
pub open spec fn arg_lines(args: Seq<ArgView>) -> Seq<Seq<char>> {
    if args.len() == 0 {
        seq![]
    } else {
        seq!["  args:"@] + Seq::new(args.len(), |i: int| arg_line(args[i]))
    }
}

/// The first lines about an operation: what it is called, its method, its path and its description.
pub open spec fn head_lines(
    resource: Seq<char>,
    group: Option<Seq<char>>,
    op: OperationView,
) -> Seq<Seq<char>> {
    let label = match group {
        Some(group) => resource + " "@ + group + " "@ + op.name,
        None => resource + " "@ + op.name,
    };
    seq![label, "  method: "@ + op.method, "  path: "@ + op.path] + match op.description {
        Some(description) => seq!["  description: "@ + description],
        None => seq![],
    }
}

/// The lines that describe an operation, given the text of its body defaults (none where it has none,
/// or only a null).
pub open spec fn described_with(
    resource: Seq<char>,
    group: Option<Seq<char>>,
    op: OperationView,
    defaults: Option<Seq<char>>,
) -> Seq<Seq<char>> {
    head_lines(resource, group, op) + (match defaults {
        Some(text) => seq!["  body defaults: "@ + text],
        None => seq![],
    }) + arg_lines(op.args)
}

/// The lines that describe an operation, or the message of the fault.
pub open spec fn described(
    resource: Seq<char>,
    group: Option<Seq<char>>,
    op: OperationView,
) -> Result<Seq<Seq<char>>, Seq<char>> {
    match op.body_defaults {
        Some(defaults) => if defaults == JsonView::Null {
            Ok(described_with(resource, group, op, None))
        } else {
            match json_text::json_text(defaults) {
                Ok(text) => Ok(described_with(resource, group, op, Some(text))),
                Err(e) => Err(e),
            }
        },
        None => Ok(described_with(resource, group, op, None)),
    }
}

/// Appends the lines of the arguments of an operation.
fn push_arg_lines(out: &mut Vec<String>, args: &Vec<ArgDef>)
    ensures
        text::texts(final(out)@) == text::texts(old(out)@) + arg_lines(arg_views(args@)),
{
    let ghost start = text::texts(out@);
    let ghost all = arg_views(args@);
    let ghost want = arg_lines(all);
    if args.len() == 0 {
        proof {
            assert(start + want =~= start);
        }
        return;
    }
    push_text(out, "  args:".to_string());
    let mut i: usize = 0;
    proof {
        assert(start + want.take(1) =~= start.push("  args:"@));
    }
    while i < args.len()
        invariant
            i <= args@.len(),
            args@.len() > 0,
            all == arg_views(args@),
            want == arg_lines(all),
            text::texts(out@) == start + want.take(i + 1),
        decreases args@.len() - i,
    {
        let arg = &args[i];
        let mut line = "    --".to_string();
        line.append(arg.flag.as_str());
        line.append("  [");
        line.append(arg.value_type.as_str());
        line.append(if arg.required {
            " (required)"
        } else {
            ""
        });
        line.append("]");
        proof {
            assert(all[i as int] == arg@);
            assert(want[i + 1] == line@);
            assert(start + want.take(i + 2) =~= (start + want.take(i + 1)).push(line@));
        }
        push_text(out, line);
        i = i + 1;
    }
    proof {
        assert(want.take(i + 1) =~= want);
    }
}

/// Describes an operation, line by line, given the text of its body defaults.
pub fn describe_with(resource: &str, group: Option<&str>, op: &Operation, defaults: Option<String>)
    -> (r: Vec<String>)
    ensures
        text::texts(r@) == described_with(
            resource@,
            text::text_of(group),
            op@,
            text::owned_text(defaults),
        ),
{
    let mut out: Vec<String> = Vec::new();
    let mut label = resource.to_string();
    if let Some(group) = group {
        label.append(" ");
        label.append(group);
    }
    label.append(" ");
    label.append(op.name.as_str());
    let ghost said = label@;
    push_text(&mut out, label);
    push_text(&mut out, with_margin("  method: ", op.method.as_str()));
    push_text(&mut out, with_margin("  path: ", op.path.as_str()));
    if let Some(description) = &op.description {
        push_text(&mut out, with_margin("  description: ", description.as_str()));
    }
    proof {
        assert(text::texts(out@) =~= head_lines(resource@, text::text_of(group), op@));
    }
    if let Some(text) = &defaults {
        push_text(&mut out, with_margin("  body defaults: ", text.as_str()));
    }
    push_arg_lines(&mut out, &op.args);
    proof {
        assert(text::texts(out@) =~= described_with(
            resource@,
            text::text_of(group),
            op@,
            text::owned_text(defaults),
        ));
    }
    out
}

/// Describes an operation, line by line.
pub fn describe(resource: &str, group: Option<&str>, op: &Operation) -> (r: Result<
    Vec<String>,
    CliError,
>)
    ensures
        match r {
            Ok(lines) => described(resource@, text::text_of(group), op@) == Ok::<
                Seq<Seq<char>>,
                Seq<char>,
            >(text::texts(lines@)),
            Err(e) => described(resource@, text::text_of(group), op@) == Err::<
                Seq<Seq<char>>,
                Seq<char>,
            >(e@),
        },
{
    match &op.body_defaults {
        Some(Json::Null) => Ok(describe_with(resource, group, op, None)),
        Some(defaults) => match write_json(defaults) {
            Ok(text) => Ok(describe_with(resource, group, op, Some(text))),
            Err(e) => Err(CliError::of(e)),
        },
        None => Ok(describe_with(resource, group, op, None)),
    }
}

/// What is said of the command tree where it is not asked for as JSON.
pub fn tree_text() -> (r: &'static str)
    ensures
        r@ == "Run with --json for machine-readable output."@,
{
    "Run with --json for machine-readable output."
}

/// A resource without groups has the same operation whatever the group.
pub proof fn law_ungrouped_commands_need_no_group(
    resource: ResourceView,
    group: Option<Seq<char>>,
    name: Seq<char>,
)
    requires
        resource.groups.len() == 0,
    ensures
        operation_of(resource, group, name) == operation_of(resource, None, name),
{
}

/// What is found by a name is the first that has it, and nothing is found exactly where none has it.
pub proof fn law_operations_are_found_by_name(ops: Seq<OperationView>, name: Seq<char>)
    ensures
        match op_named(ops, name) {
            Some(op) => op.name == name && exists|i: int|
                0 <= i < ops.len() && #[trigger] ops[i] == op && forall|j: int|
                    0 <= j < i ==> (#[trigger] ops[j]).name != name,
            None => forall|j: int| 0 <= j < ops.len() ==> (#[trigger] ops[j]).name != name,
        },
    decreases ops.len(),
{
    if ops.len() > 0 && ops[0].name != name {
        let rest = ops.skip(1);
        law_operations_are_found_by_name(rest, name);
        assert forall|j: int| 0 < j < ops.len() implies #[trigger] ops[j] == rest[j - 1] by {}
        if let Some(op) = op_named(ops, name) {
            let i = choose|i: int|
                0 <= i < rest.len() && #[trigger] rest[i] == op && forall|j: int|
                    0 <= j < i ==> (#[trigger] rest[j]).name != name;
            assert(ops[i + 1] == op);
            assert forall|j: int| 0 <= j < i + 1 implies (#[trigger] ops[j]).name != name by {
                if j > 0 {
                    assert(rest[j - 1].name != name);
                }
            }
        }
    }
}

/// A resource is found by its name, the first that has it.
pub proof fn law_resources_are_found_by_name(resources: Seq<ResourceView>, name: Seq<char>)
    ensures
        match resource_named(resources, name) {
            Some(resource) => resource.name == name && exists|i: int|
                0 <= i < resources.len() && #[trigger] resources[i] == resource && forall|j: int|
                    0 <= j < i ==> (#[trigger] resources[j]).name != name,
            None => forall|j: int| 0 <= j < resources.len() ==> (#[trigger] resources[j]).name
                != name,
        },
    decreases resources.len(),
{
    if resources.len() > 0 && resources[0].name != name {
        let rest = resources.skip(1);
        law_resources_are_found_by_name(rest, name);
        assert forall|j: int| 0 < j < resources.len() implies #[trigger] resources[j] == rest[j
            - 1] by {}
        if let Some(resource) = resource_named(resources, name) {
            let i = choose|i: int|
                0 <= i < rest.len() && #[trigger] rest[i] == resource && forall|j: int|
                    0 <= j < i ==> (#[trigger] rest[j]).name != name;
            assert(resources[i + 1] == resource);
            assert forall|j: int| 0 <= j < i + 1 implies (#[trigger] resources[j]).name != name by {
                if j > 0 {
                    assert(rest[j - 1].name != name);
                }
            }
        }
    }
}

/// A group is found by its name, the first that has it.
pub proof fn law_groups_are_found_by_name(groups: Seq<GroupView>, name: Seq<char>)
    ensures
        match group_named(groups, name) {
            Some(group) => group.name == name && exists|i: int|
                0 <= i < groups.len() && #[trigger] groups[i] == group && forall|j: int|
                    0 <= j < i ==> (#[trigger] groups[j]).name != name,
            None => forall|j: int| 0 <= j < groups.len() ==> (#[trigger] groups[j]).name != name,
        },
    decreases groups.len(),
{
    if groups.len() > 0 && groups[0].name != name {
        let rest = groups.skip(1);
        law_groups_are_found_by_name(rest, name);
        assert forall|j: int| 0 < j < groups.len() implies #[trigger] groups[j] == rest[j - 1] by {}
        if let Some(group) = group_named(groups, name) {
            let i = choose|i: int|
                0 <= i < rest.len() && #[trigger] rest[i] == group && forall|j: int|
                    0 <= j < i ==> (#[trigger] rest[j]).name != name;
            assert(groups[i + 1] == group);
            assert forall|j: int| 0 <= j < i + 1 implies (#[trigger] groups[j]).name != name by {
                if j > 0 {
                    assert(rest[j - 1].name != name);
                }
            }
        }
    }
}

/// Where operations are looked for: in a resource with groups in the group that is named alone, so that
/// nothing is found without one or in another, and in a resource without groups among its own.
pub proof fn law_operations_are_found_in_their_group(
    resource: ResourceView,
    group: Option<Seq<char>>,
    name: Seq<char>,
)
    ensures
        operation_of(resource, group, name) matches Some(op) ==> op.name == name && if resource.groups.len()
            == 0 {
            resource.ops.contains(op)
        } else {
            group matches Some(wanted) && exists|i: int|
                0 <= i < resource.groups.len() && (#[trigger] resource.groups[i]).name == wanted
                    && resource.groups[i].ops.contains(op)
        },
        resource.groups.len() == 0 ==> (operation_of(resource, group, name) is None <==> forall|
            j: int,
        |
            0 <= j < resource.ops.len() ==> (#[trigger] resource.ops[j]).name != name),
        resource.groups.len() > 0 && group is None ==> operation_of(resource, group, name) is None,
{
    if resource.groups.len() == 0 {
        law_operations_are_found_by_name(resource.ops, name);
    } else if let Some(wanted) = group {
        law_groups_are_found_by_name(resource.groups, wanted);
        if let Some(found) = group_named(resource.groups, wanted) {
            law_operations_are_found_by_name(found.ops, name);
        }
    }
}

/// The listing goes resource by resource, in their order, and shows each operation on a line of its own,
/// under its resource, or under its group within it.
pub proof fn law_listings_show_every_operation(
    some: Seq<ResourceView>,
    more: Seq<ResourceView>,
    resource: ResourceView,
)
    ensures
        list_lines(some + more) == list_lines(some) + list_lines(more),
        list_lines(seq![resource]).len() > 0,
        list_lines(seq![resource])[0] == resource.name,
        resource.groups.len() == 0 ==> list_lines(seq![resource]).len() == resource.ops.len() + 1
            && forall|i: int|
            0 <= i < resource.ops.len() ==> list_lines(seq![resource])[i + 1] == "  "@
                + (#[trigger] resource.ops[i]).name,
        forall|g: int|
            0 <= g < resource.groups.len() ==> list_lines(seq![resource]).contains(
                "  "@ + (#[trigger] resource.groups[g]).name,
            ),
        forall|g: int, i: int|
            0 <= g < resource.groups.len() && 0 <= i < resource.groups[g].ops.len() ==> list_lines(
                seq![resource],
            ).contains("    "@ + (#[trigger] resource.groups[g].ops[i]).name),
    decreases more.len(),
{
    if more.len() == 0 {
        assert(some + more =~= some);
        assert(list_lines(some) + list_lines(more) =~= list_lines(some));
    } else {
        law_listings_show_every_operation(some, more.drop_last(), resource);
        assert((some + more).drop_last() =~= some + more.drop_last());
        assert(list_lines(some + more) =~= list_lines(some) + list_lines(more));
    }
    let one = seq![resource];
    assert(one.drop_last() =~= Seq::<ResourceView>::empty());
    reveal_with_fuel(list_lines, 2);
    assert(list_lines(one) =~= resource_lines(resource));
    if resource.groups.len() > 0 {
        let shown = group_lines(resource.groups);
        assert forall|g: int| 0 <= g < resource.groups.len() implies list_lines(one).contains(
            "  "@ + (#[trigger] resource.groups[g]).name,
        ) by {
            let k = lemma_group_shown(resource.groups, g, -1);
            assert(list_lines(one)[k + 1] == shown[k]);
        }
        assert forall|g: int, i: int|
            0 <= g < resource.groups.len() && 0 <= i < resource.groups[g].ops.len() implies list_lines(
            one,
        ).contains("    "@ + (#[trigger] resource.groups[g].ops[i]).name) by {
            let k = lemma_group_shown(resource.groups, g, i);
            assert(list_lines(one)[k + 1] == shown[k]);
        }
    }
}

/// The line of a group, or of one of its operations.
proof fn lemma_group_shown(groups: Seq<GroupView>, g: int, i: int) -> (k: int)
    requires
        0 <= g < groups.len(),
        -1 <= i < groups[g].ops.len(),
    ensures
        0 <= k < group_lines(groups).len(),
        group_lines(groups)[k] == if i < 0 {
            "  "@ + groups[g].name
        } else {
            "    "@ + groups[g].ops[i].name
        },
    decreases groups.len(),
{
    let before = group_lines(groups.drop_last());
    if g == groups.len() - 1 {
        let k = before.len() + 1 + i;
        if i >= 0 {
            assert(op_lines(groups[g].ops, "    "@)[i] == "    "@ + groups[g].ops[i].name);
        }
        k
    } else {
        lemma_group_shown(groups.drop_last(), g, i)
    }
}

/// The listing as JSON has an entry for each resource, in their order, with its name and either the names
/// of its operations or its groups, each with its name and the names of its operations.
pub proof fn law_json_listings_show_every_operation(resources: Seq<ResourceView>, r: int, g: int, i: int)
    requires
        0 <= r < resources.len(),
    ensures
        list_tree(resources) matches JsonView::Array(list) && list.len() == resources.len() && {
            let resource = resources[r];
            &&& json_path::value_at(list[r], seq!["resource"@]) == Some(
                JsonView::Text(resource.name),
            )
            &&& resource.groups.len() == 0 ==> (json_path::value_at(list[r], seq!["ops"@]) matches Some(
                JsonView::Array(names),
            ) && names.len() == resource.ops.len() && (0 <= i < names.len() ==> names[i]
                == JsonView::Text(resource.ops[i].name)))
            &&& 0 <= g < resource.groups.len() ==> (json_path::value_at(
                list[r],
                seq!["groups"@],
            ) matches Some(JsonView::Array(groups)) && groups.len() == resource.groups.len()
                && json_path::value_at(groups[g], seq!["group"@]) == Some(
                JsonView::Text(resource.groups[g].name),
            ) && (json_path::value_at(groups[g], seq!["ops"@]) matches Some(JsonView::Array(names))
                && names.len() == resource.groups[g].ops.len() && (0 <= i < names.len() ==> names[i]
                == JsonView::Text(resource.groups[g].ops[i].name))))
        },
{
    reveal_strlit("resource");
    reveal_strlit("ops");
    reveal_strlit("groups");
    reveal_strlit("group");
    assert("resource"@.len() == 8 && "ops"@.len() == 3 && "groups"@.len() == 6 && "group"@.len() == 5);
    reveal_with_fuel(json_path::value_at, 2);
    assert(seq!["resource"@].drop_first() =~= Seq::<Seq<char>>::empty());
    assert(seq!["ops"@].drop_first() =~= Seq::<Seq<char>>::empty());
    assert(seq!["groups"@].drop_first() =~= Seq::<Seq<char>>::empty());
    assert(seq!["group"@].drop_first() =~= Seq::<Seq<char>>::empty());
}

/// A description names the command, the method and the path of an operation, and ends with a line for
/// each argument, in their order: its flag, its type, and whether it must be given.
pub proof fn law_descriptions_show_every_argument(
    resource: Seq<char>,
    group: Option<Seq<char>>,
    op: OperationView,
    i: int,
)
    requires
        described(resource, group, op) is Ok,
        0 <= i < op.args.len(),
    ensures
        described(resource, group, op) matches Ok(lines) && {
            let arg = op.args[i];
            &&& lines.len() > op.args.len() + 3
            &&& lines[0] == match group {
                Some(group) => resource + " "@ + group + " "@ + op.name,
                None => resource + " "@ + op.name,
            }
            &&& lines[1] == "  method: "@ + op.method
            &&& lines[2] == "  path: "@ + op.path
            &&& lines[lines.len() - op.args.len() + i] == "    --"@ + arg.flag + "  ["@
                + arg.value_type + (if arg.required {
                " (required)"@
            } else {
                ""@
            }) + "]"@
        },
{
    let shown = arg_lines(op.args);
    assert(shown[i + 1] == arg_line(op.args[i]));
    let lines = described(resource, group, op)->Ok_0;
    let start = lines.len() - shown.len();
    assert(lines[start + i + 1] == shown[i + 1]);
}

/// An operation is explained by its description, where it has one, else by its method and its path.
pub proof fn law_operations_are_explained(op: OperationView)
    ensures
        op.description matches Some(description) ==> hint(op) == description,
        op.description is None ==> hint(op) == op.method + seq![' '] + op.path,
{
    reveal_strlit(" ");
    assert(" "@ =~= seq![' ']);
}

/// What a command names is an operation of its resource, or is refused.
pub proof fn law_commands_name_operations(
    tree: TreeView,
    resource: Seq<char>,
    group: Option<Seq<char>>,
    name: Seq<char>,
)
    ensures
        command_op(tree, resource, group, name) matches Ok(op) ==> op.name == name && exists|r: int|
            0 <= r < tree.resources.len() && (#[trigger] tree.resources[r]).name == resource
                && operation_of(tree.resources[r], group, name) == Some(op),
        command_op(tree, resource, group, name) is Err <==> (forall|r: int|
            0 <= r < tree.resources.len() ==> (#[trigger] tree.resources[r]).name != resource) || (
        resource_named(tree.resources, resource) matches Some(found) && operation_of(
            found,
            group,
            name,
        ) is None),
{
    law_resources_are_found_by_name(tree.resources, resource);
    if let Some(found) = resource_named(tree.resources, resource) {
        law_operations_are_found_in_their_group(found, group, name);
    }
}

/// A description shows what an operation is said to do, and what it sets in its body, where it says or
/// sets anything.
pub proof fn law_descriptions_show_what_there_is(
    resource: Seq<char>,
    group: Option<Seq<char>>,
    op: OperationView,
)
    requires
        described(resource, group, op) is Ok,
    ensures
        described(resource, group, op) matches Ok(lines) && {
            &&& op.description matches Some(description) ==> lines[3] == "  description: "@ + description
            &&& op.body_defaults matches Some(defaults) ==> (defaults != JsonView::Null ==> (
            json_text::json_text(defaults) matches Ok(text) && lines[if op.description is Some {
                4int
            } else {
                3int
            }] == "  body defaults: "@ + text))
            &&& lines.len() == 3 + (if op.description is Some {
                1int
            } else {
                0int
            }) + (if op.body_defaults is Some && op.body_defaults != Some(JsonView::Null) {
                1int
            } else {
                0int
            }) + (if op.args.len() > 0 {
                op.args.len() + 1
            } else {
                0nat
            })
        },
{
}

} // verus!
