//! Requests: from an operation and its arguments to an address, headers and a body.

use crate::address::{self, is_short_address, request_url, ws_base_url};
use crate::args::{self, Matches};
use crate::command_tree::{self, ArgDef, ArgView, Operation, OperationView};
use crate::error::CliError;
use crate::json::{Json, JsonView, Members};
use crate::json_path::{self, set_json_path, validate_json, value_or};
use crate::json_text::{self, read_json};
use crate::pattern::{self, replace, split_once};
use crate::query;
use crate::text::{self, chars_of, same, text_between, trim};
use crate::values::{self, looks_like_json_list, parse_list_value, parse_query_value, parse_scalar_value};
use vstd::prelude::*;
use vstd::string::StringExecFns;

verus! {

broadcast use crate::json::lemma_view;

/// A list of names with their values.
pub type PairViews = Seq<(Seq<char>, Seq<char>)>;

/// The arguments that a command was given.
pub type Given = Map<Seq<char>, Seq<Seq<char>>>;

/// One more pair at the end is one more view at the end.
proof fn lemma_pairs_push(pairs: Seq<(String, String)>, pair: (String, String))
    ensures
        query::pair_views(pairs.push(pair)) == query::pair_views(pairs).push((pair.0@, pair.1@)),
{
    assert(query::pair_views(pairs.push(pair)) =~= query::pair_views(pairs).push(
        (pair.0@, pair.1@),
    ));
}

/// Appends a name with its value to a list.
fn push_pair(pairs: &mut Vec<(String, String)>, name: &str, value: String)
    ensures
        query::pair_views(final(pairs)@) == query::pair_views(old(pairs)@).push((name@, value@)),
{
    let pair = (name.to_string(), value);
    proof {
        lemma_pairs_push(pairs@, pair);
    }
    pairs.push(pair);
}

/// The name and the value of a header, split at the first equals sign, else at the first colon, or the
/// message that there is neither.
pub open spec fn header_pair(raw: Seq<char>) -> Result<(Seq<char>, Seq<char>), Seq<char>> {
    match pattern::sides(raw, "="@) {
        Some(p) => Ok((text::trimmed(p.0), text::trimmed(p.1))),
        None => match pattern::sides(raw, ":"@) {
            Some(p) => Ok((text::trimmed(p.0), text::trimmed(p.1))),
            None => Err("invalid header format, expected KEY=VALUE or KEY:VALUE"@),
        },
    }
}

/// Reads a header.
pub fn parse_header(raw: &str) -> (r: Result<(String, String), CliError>)
    ensures
        match r {
            Ok(p) => header_pair(raw@) == Ok::<(Seq<char>, Seq<char>), Seq<char>>((p.0@, p.1@)),
            Err(e) => header_pair(raw@) == Err::<(Seq<char>, Seq<char>), Seq<char>>(e@),
        },
{
    if let Some((key, value)) = split_once(raw, "=") {
        return Ok((trim(key.as_str()), trim(value.as_str())));
    }
    if let Some((key, value)) = split_once(raw, ":") {
        return Ok((trim(key.as_str()), trim(value.as_str())));
    }
    Err(CliError::new("invalid header format, expected KEY=VALUE or KEY:VALUE"))
}

/// A header that is written with an equals sign is read as it was, where its name holds none and
/// nothing has white space at its ends.
pub proof fn law_headers_read_back(name: Seq<char>, value: Seq<char>)
    requires
        !name.contains('='),
        text::trimmed(name) == name,
        text::trimmed(value) == value,
    ensures
        header_pair(name + "="@ + value) == Ok::<(Seq<char>, Seq<char>), Seq<char>>((name, value)),
{
    reveal_strlit("=");
    pattern::lemma_sides(name, "="@, value);
}

/// The headers in a list of texts, or the message of the first fault.
pub open spec fn header_pairs(raws: Seq<Seq<char>>) -> Result<PairViews, Seq<char>>
    decreases raws.len(),
{
    if raws.len() == 0 {
        Ok(seq![])
    } else {
        match header_pairs(raws.drop_last()) {
            Err(e) => Err(e),
            Ok(pairs) => match header_pair(raws.last()) {
                Ok(pair) => Ok(pairs.push(pair)),
                Err(e) => Err(e),
            },
        }
    }
}

/// A fault in the first headers is the fault of all of them.
proof fn lemma_first_bad_header(raws: Seq<Seq<char>>, n: int)
    requires
        0 <= n <= raws.len(),
        header_pairs(raws.take(n)) is Err,
    ensures
        header_pairs(raws) == header_pairs(raws.take(n)),
    decreases raws.len(),
{
    if n < raws.len() {
        assert(raws.drop_last().take(n) =~= raws.take(n));
        lemma_first_bad_header(raws.drop_last(), n);
    } else {
        assert(raws.take(n) =~= raws);
    }
}

/// The headers that every command takes, or the message of the first fault.
pub open spec fn global_headers(given: Given) -> Result<PairViews, Seq<char>> {
    match args::all_values(given, "header"@) {
        Some(raws) => header_pairs(raws),
        None => Ok(seq![]),
    }
}

/// Reads the headers that every command takes.
pub fn parse_global_headers(matches: &Matches) -> (r: Result<Vec<(String, String)>, CliError>)
    ensures
        match r {
            Ok(h) => global_headers(matches@) == Ok::<PairViews, Seq<char>>(
                query::pair_views(h@),
            ),
            Err(e) => global_headers(matches@) == Err::<PairViews, Seq<char>>(e@),
        },
{
    let mut headers: Vec<(String, String)> = Vec::new();
    proof {
        assert(query::pair_views(headers@) =~= seq![]);
    }
    let raws = match matches.get_many("header") {
        Some(raws) => raws,
        None => return Ok(headers),
    };
    let ghost all = text::texts(raws@);
    let mut i: usize = 0;
    proof {
        assert(all.take(0) =~= seq![]);
    }
    while i < raws.len()
        invariant
            i <= raws@.len(),
            all == text::texts(raws@),
            global_headers(matches@) == header_pairs(all),
            header_pairs(all.take(i as int)) == Ok::<PairViews, Seq<char>>(
                query::pair_views(headers@),
            ),
        decreases raws@.len() - i,
    {
        proof {
            assert(all.take(i + 1).drop_last() =~= all.take(i as int));
            assert(all.take(i + 1).last() == raws@[i as int]@);
        }
        match parse_header(raws[i].as_str()) {
            Ok((key, value)) => {
                push_pair(&mut headers, key.as_str(), value);
            },
            Err(e) => {
                proof {
                    lemma_first_bad_header(all, i + 1);
                }
                return Err(e);
            },
        }
        i = i + 1;
    }
    proof {
        assert(all.take(i as int) =~= all);
    }
    Ok(headers)
}

/// The message that asks for an argument.
pub open spec fn missing(arg: ArgView) -> Seq<char> {
    "missing required argument --"@ + arg.flag
}

/// Asks for an argument.
fn missing_argument(arg: &ArgDef) -> (r: CliError)
    ensures
        r@ == missing(arg@),
{
    let mut message = "missing required argument --".to_string();
    message.append(arg.flag.as_str());
    CliError::of(message)
}

/// The token that stands in a path for an argument.
pub open spec fn token(name: Seq<char>) -> Seq<char> {
    "{"@ + name + "}"@
}

/// A path with the values of its arguments in the place of their tokens, or the message that asks for
/// one of them.
pub open spec fn filled_path(path: Seq<char>, list: Seq<ArgView>, given: Given) -> Result<
    Seq<char>,
    Seq<char>,
>
    decreases list.len(),
{
    if list.len() == 0 {
        Ok(path)
    } else {
        match filled_path(path, list.drop_last(), given) {
            Err(e) => Err(e),
            Ok(before) => {
                let arg = list.last();
                if arg.location != "path"@ {
                    Ok(before)
                } else {
                    match args::one_value(given, arg.name) {
                        Some(value) => Ok(pattern::replaced(before, token(arg.name), value)),
                        None => Err(missing(arg)),
                    }
                }
            },
        }
    }
}

/// A fault at the first arguments is the fault of all of them.
proof fn lemma_first_bad_path(path: Seq<char>, list: Seq<ArgView>, given: Given, n: int)
    requires
        0 <= n <= list.len(),
        filled_path(path, list.take(n), given) is Err,
    ensures
        filled_path(path, list, given) == filled_path(path, list.take(n), given),
    decreases list.len(),
{
    if n < list.len() {
        assert(list.drop_last().take(n) =~= list.take(n));
        lemma_first_bad_path(path, list.drop_last(), given, n);
    } else {
        assert(list.take(n) =~= list);
    }
}

/// Puts the values of the path arguments in the place of their tokens.
pub fn fill_path(op: &Operation, matches: &Matches) -> (r: Result<String, CliError>)
    ensures
        match r {
            Ok(t) => filled_path(op@.path, op@.args, matches@) == Ok::<Seq<char>, Seq<char>>(t@),
            Err(e) => filled_path(op@.path, op@.args, matches@) == Err::<Seq<char>, Seq<char>>(e@),
        },
{
    let mut path = op.path.clone();
    let ghost all = op@.args;
    let mut i: usize = 0;
    proof {
        assert(all.take(0) =~= seq![]);
    }
    while i < op.args.len()
        invariant
            i <= op.args@.len(),
            all == command_tree::arg_views(op.args@),
            filled_path(op.path@, all.take(i as int), matches@) == Ok::<Seq<char>, Seq<char>>(
                path@,
            ),
        decreases op.args@.len() - i,
    {
        let arg = &op.args[i];
        proof {
            assert(all.take(i + 1).drop_last() =~= all.take(i as int));
            assert(all.take(i + 1).last() == arg@);
        }
        if same(arg.location.as_str(), "path") {
            match matches.get_one(arg.name.as_str()) {
                Some(value) => {
                    let mut place = "{".to_string();
                    place.append(arg.name.as_str());
                    place.append("}");
                    proof {
                        reveal_strlit("{");
                    }
                    path = replace(path.as_str(), place.as_str(), value);
                },
                None => {
                    proof {
                        lemma_first_bad_path(op.path@, all, matches@, i + 1);
                    }
                    return Err(missing_argument(arg));
                },
            }
        }
        i = i + 1;
    }
    proof {
        assert(all.take(i as int) =~= all);
    }
    Ok(path)
}

/// A path without the slashes that it begins with.
pub open spec fn without_slashes(path: Seq<char>) -> Seq<char>
    decreases path.len(),
{
    if path.len() > 0 && path[0] == '/' {
        without_slashes(path.skip(1))
    } else {
        path
    }
}

/// Removes the slashes that a path begins with.
pub fn trim_slashes(path: &str) -> (r: String)
    ensures
        r@ == without_slashes(path@),
{
    let chars = chars_of(path);
    let mut i: usize = 0;
    proof {
        assert(path@.skip(0) =~= path@);
    }
    while i < chars.len() && chars[i] == '/'
        invariant
            i <= chars@.len(),
            chars@ == path@,
            without_slashes(path@) == without_slashes(path@.skip(i as int)),
        decreases chars@.len() - i,
    {
        proof {
            assert(path@.skip(i as int).skip(1) =~= path@.skip(i + 1));
        }
        i = i + 1;
    }
    let rest = text_between(&chars, i, chars.len());
    proof {
        assert(rest@ =~= path@.skip(i as int));
    }
    rest
}

/// The base and the path of an address.
#[derive(Debug, PartialEq, Eq)]
pub struct Target {
    pub base: String,
    pub path: String,
}

/// What the base and the path of an address are.
#[verifier::ext_equal]
pub struct TargetView {
    pub base: Seq<char>,
    pub path: Seq<char>,
}

impl View for Target {
    type V = TargetView;

    open spec fn view(&self) -> TargetView {
        TargetView { base: self.base@, path: self.path@ }
    }
}

/// The base and the path of the address of an operation, or the message of the fault: the base is one
/// of web sockets where the operation is.
pub open spec fn target(op: OperationView, base: Seq<char>, given: Given) -> Result<
    TargetView,
    Seq<char>,
> {
    match filled_path(op.path, op.args, given) {
        Err(e) => Err(e),
        Ok(path) => {
            let start = if op.method == "WS"@ {
                address::socket_base(base)
            } else {
                Ok(base)
            };
            match start {
                Err(e) => Err(e),
                Ok(start) => Ok(TargetView { base: start, path: without_slashes(path) }),
            }
        },
    }
}

/// Finds the base and the path of the address of an operation.
pub fn request_target(op: &Operation, base_url: &str, matches: &Matches) -> (r: Result<
    Target,
    CliError,
>)
    requires
        op@.method == "WS"@ ==> address::is_short(base_url@, "wss"@, seq![]),
    ensures
        match r {
            Ok(t) => target(op@, base_url@, matches@) == Ok::<TargetView, Seq<char>>(t@),
            Err(e) => target(op@, base_url@, matches@) == Err::<TargetView, Seq<char>>(e@),
        },
{
    let path = match fill_path(op, matches) {
        Ok(path) => path,
        Err(e) => return Err(e),
    };
    let base = if same(op.method.as_str(), "WS") {
        match ws_base_url(base_url) {
            Ok(base) => base,
            Err(e) => return Err(e),
        }
    } else {
        base_url.to_string()
    };
    Ok(Target { base, path: trim_slashes(path.as_str()) })
}

/// Nothing for an argument that was not given, or the message that asks for it.
pub open spec fn absent(arg: ArgView) -> Result<PairViews, Seq<char>> {
    if arg.required {
        Err(missing(arg))
    } else {
        Ok(seq![])
    }
}

/// The query parameters for the values of an argument, or the message of the first fault.
pub open spec fn rendered_pairs(arg: ArgView, list: Seq<Seq<char>>) -> Result<PairViews, Seq<char>>
    decreases list.len(),
{
    if list.len() == 0 {
        Ok(seq![])
    } else {
        match rendered_pairs(arg, list.drop_last()) {
            Err(e) => Err(e),
            Ok(pairs) => match values::query_value(arg.value_type, list.last()) {
                Ok(rendered) => Ok(pairs.push((arg.name, rendered))),
                Err(e) => Err(e),
            },
        }
    }
}

/// A fault in the first values is the fault of all of them.
proof fn lemma_first_bad_value(arg: ArgView, list: Seq<Seq<char>>, n: int)
    requires
        0 <= n <= list.len(),
        rendered_pairs(arg, list.take(n)) is Err,
    ensures
        rendered_pairs(arg, list) == rendered_pairs(arg, list.take(n)),
    decreases list.len(),
{
    if n < list.len() {
        assert(list.drop_last().take(n) =~= list.take(n));
        lemma_first_bad_value(arg, list.drop_last(), n);
    } else {
        assert(list.take(n) =~= list);
    }
}

/// The query parameters of an argument, or the message of the fault: a JSON list as it is, other values
/// one by one.
pub open spec fn arg_pairs(arg: ArgView, given: Given) -> Result<PairViews, Seq<char>> {
    if arg.location != "query"@ {
        Ok(seq![])
    } else if arg.list {
        match args::all_values(given, arg.name) {
            Some(list) => if values::is_json_list(list) {
                match json_text::json_value(list[0]) {
                    Ok(_) => Ok(seq![(arg.name, list[0])]),
                    Err(_) => Err("invalid JSON"@),
                }
            } else {
                rendered_pairs(arg, list)
            },
            None => absent(arg),
        }
    } else {
        match args::one_value(given, arg.name) {
            Some(value) => match values::query_value(arg.value_type, value) {
                Ok(rendered) => Ok(seq![(arg.name, rendered)]),
                Err(e) => Err(e),
            },
            None => absent(arg),
        }
    }
}

/// Lists the query parameters of an argument.
fn list_arg_pairs(arg: &ArgDef, matches: &Matches) -> (r: Result<Vec<(String, String)>, CliError>)
    ensures
        match r {
            Ok(pairs) => arg_pairs(arg@, matches@) == Ok::<PairViews, Seq<char>>(
                query::pair_views(pairs@),
            ),
            Err(e) => arg_pairs(arg@, matches@) == Err::<PairViews, Seq<char>>(e@),
        },
{
    let mut pairs: Vec<(String, String)> = Vec::new();
    proof {
        assert(query::pair_views(pairs@) =~= seq![]);
    }
    if !same(arg.location.as_str(), "query") {
        return Ok(pairs);
    }
    if arg.list {
        if let Some(list) = matches.get_many(arg.name.as_str()) {
            if looks_like_json_list(list) {
                match validate_json(list[0].as_str()) {
                    Ok(_) => {
                        push_pair(&mut pairs, arg.name.as_str(), list[0].clone());
                        proof {
                            assert(query::pair_views(pairs@) =~= seq![(arg.name@, list@[0]@)]);
                        }
                        return Ok(pairs);
                    },
                    Err(e) => return Err(e),
                }
            }
            let ghost all = text::texts(list@);
            let mut i: usize = 0;
            proof {
                assert(all.take(0) =~= seq![]);
            }
            while i < list.len()
                invariant
                    i <= list@.len(),
                    all == text::texts(list@),
                    arg_pairs(arg@, matches@) == rendered_pairs(arg@, all),
                    rendered_pairs(arg@, all.take(i as int)) == Ok::<PairViews, Seq<char>>(
                        query::pair_views(pairs@),
                    ),
                decreases list@.len() - i,
            {
                proof {
                    assert(all.take(i + 1).drop_last() =~= all.take(i as int));
                    assert(all.take(i + 1).last() == list@[i as int]@);
                }
                match parse_query_value(arg, list[i].as_str()) {
                    Ok(rendered) => {
                        push_pair(&mut pairs, arg.name.as_str(), rendered);
                    },
                    Err(e) => {
                        proof {
                            lemma_first_bad_value(arg@, all, i + 1);
                        }
                        return Err(e);
                    },
                }
                i = i + 1;
            }
            proof {
                assert(all.take(i as int) =~= all);
            }
            return Ok(pairs);
        }
    } else if let Some(value) = matches.get_one(arg.name.as_str()) {
        match parse_query_value(arg, value) {
            Ok(rendered) => {
                let ghost shown = rendered@;
                push_pair(&mut pairs, arg.name.as_str(), rendered);
                proof {
                    assert(query::pair_views(pairs@) =~= seq![(arg.name@, shown)]);
                }
                return Ok(pairs);
            },
            Err(e) => return Err(e),
        }
    }
    if arg.required {
        return Err(missing_argument(arg));
    }
    Ok(pairs)
}

/// The query parameters of a request, in the order of the arguments, or the message of the first fault.
pub open spec fn query_pairs(list: Seq<ArgView>, given: Given) -> Result<PairViews, Seq<char>>
    decreases list.len(),
{
    if list.len() == 0 {
        Ok(seq![])
    } else {
        match query_pairs(list.drop_last(), given) {
            Err(e) => Err(e),
            Ok(pairs) => match arg_pairs(list.last(), given) {
                Ok(more) => Ok(pairs + more),
                Err(e) => Err(e),
            },
        }
    }
}

/// A fault at the first arguments is the fault of all of them.
proof fn lemma_first_bad_query(list: Seq<ArgView>, given: Given, n: int)
    requires
        0 <= n <= list.len(),
        query_pairs(list.take(n), given) is Err,
    ensures
        query_pairs(list, given) == query_pairs(list.take(n), given),
    decreases list.len(),
{
    if n < list.len() {
        assert(list.drop_last().take(n) =~= list.take(n));
        lemma_first_bad_query(list.drop_last(), given, n);
    } else {
        assert(list.take(n) =~= list);
    }
}

/// Lists the query parameters of a request.
pub fn add_query_params(op: &Operation, matches: &Matches) -> (r: Result<
    Vec<(String, String)>,
    CliError,
>)
    ensures
        match r {
            Ok(pairs) => query_pairs(op@.args, matches@) == Ok::<PairViews, Seq<char>>(
                query::pair_views(pairs@),
            ),
            Err(e) => query_pairs(op@.args, matches@) == Err::<PairViews, Seq<char>>(e@),
        },
{
    let mut pairs: Vec<(String, String)> = Vec::new();
    let ghost all = op@.args;
    let mut i: usize = 0;
    proof {
        assert(all.take(0) =~= seq![]);
        assert(query::pair_views(pairs@) =~= seq![]);
    }
    while i < op.args.len()
        invariant
            i <= op.args@.len(),
            all == command_tree::arg_views(op.args@),
            query_pairs(all.take(i as int), matches@) == Ok::<PairViews, Seq<char>>(
                query::pair_views(pairs@),
            ),
        decreases op.args@.len() - i,
    {
        let arg = &op.args[i];
        proof {
            assert(all.take(i + 1).drop_last() =~= all.take(i as int));
            assert(all.take(i + 1).last() == arg@);
        }
        match list_arg_pairs(arg, matches) {
            Ok(more) => {
                let mut more = more;
                proof {
                    assert(query::pair_views(pairs@ + more@) =~= query::pair_views(pairs@)
                        + query::pair_views(more@));
                }
                pairs.append(&mut more);
            },
            Err(e) => {
                proof {
                    lemma_first_bad_query(all, matches@, i + 1);
                }
                return Err(e);
            },
        }
        i = i + 1;
    }
    proof {
        assert(all.take(i as int) =~= all);
    }
    Ok(pairs)
}

/// The name of the header that an argument goes to.
pub open spec fn header_of(arg: ArgView) -> Seq<char> {
    match arg.header_name {
        Some(name) => name,
        None => arg.flag,
    }
}

/// Headers with those of the arguments behind them, or the message of the first fault.
pub open spec fn with_headers(headers: PairViews, list: Seq<ArgView>, given: Given) -> Result<
    PairViews,
    Seq<char>,
>
    decreases list.len(),
{
    if list.len() == 0 {
        Ok(headers)
    } else {
        match with_headers(headers, list.drop_last(), given) {
            Err(e) => Err(e),
            Ok(before) => {
                let arg = list.last();
                if arg.location != "header"@ {
                    Ok(before)
                } else {
                    match args::one_value(given, arg.name) {
                        Some(value) => Ok(before.push((header_of(arg), value))),
                        None => if arg.required {
                            Err(missing(arg))
                        } else {
                            Ok(before)
                        },
                    }
                }
            },
        }
    }
}

/// A fault at the first arguments is the fault of all of them.
proof fn lemma_first_bad_argument(headers: PairViews, list: Seq<ArgView>, given: Given, n: int)
    requires
        0 <= n <= list.len(),
        with_headers(headers, list.take(n), given) is Err,
    ensures
        with_headers(headers, list, given) == with_headers(headers, list.take(n), given),
    decreases list.len(),
{
    if n < list.len() {
        assert(list.drop_last().take(n) =~= list.take(n));
        lemma_first_bad_argument(headers, list.drop_last(), given, n);
    } else {
        assert(list.take(n) =~= list);
    }
}

/// Appends the headers of the arguments; after a fault the headers before it are there.
pub fn add_headers(headers: &mut Vec<(String, String)>, op: &Operation, matches: &Matches) -> (r:
    Result<(), CliError>)
    ensures
        match r {
            Ok(_) => with_headers(query::pair_views(old(headers)@), op@.args, matches@) == Ok::<
                PairViews,
                Seq<char>,
            >(query::pair_views(final(headers)@)),
            Err(e) => with_headers(query::pair_views(old(headers)@), op@.args, matches@) == Err::<
                PairViews,
                Seq<char>,
            >(e@) && exists|n: int|
                0 <= n < op@.args.len() && #[trigger] with_headers(
                    query::pair_views(old(headers)@),
                    op@.args.take(n),
                    matches@,
                ) == Ok::<PairViews, Seq<char>>(query::pair_views(final(headers)@)),
        },
{
    let ghost start = query::pair_views(headers@);
    let ghost all = op@.args;
    let mut i: usize = 0;
    proof {
        assert(all.take(0) =~= seq![]);
    }
    while i < op.args.len()
        invariant
            i <= op.args@.len(),
            start == query::pair_views(old(headers)@),
            op@.args == all,
            all == command_tree::arg_views(op.args@),
            with_headers(start, all.take(i as int), matches@) == Ok::<PairViews, Seq<char>>(
                query::pair_views(headers@),
            ),
        decreases op.args@.len() - i,
    {
        let arg = &op.args[i];
        proof {
            assert(all.take(i + 1).drop_last() =~= all.take(i as int));
            assert(all.take(i + 1).last() == arg@);
        }
        if same(arg.location.as_str(), "header") {
            match matches.get_one(arg.name.as_str()) {
                Some(value) => {
                    let name = match &arg.header_name {
                        Some(name) => name.as_str(),
                        None => arg.flag.as_str(),
                    };
                    push_pair(headers, name, value.to_string());
                },
                None => if arg.required {
                    proof {
                        lemma_first_bad_argument(start, all, matches@, i + 1);
                    }
                    return Err(missing_argument(arg));
                },
            }
        }
        i = i + 1;
    }
    proof {
        assert(all.take(i as int) =~= all);
    }
    Ok(())
}

/// Whether a method has a body.
pub open spec fn allows_body(method: Seq<char>) -> bool {
    method == "POST"@ || method == "PATCH"@ || method == "PUT"@
}

/// Tells whether a method has a body.
fn has_body_method(method: &str) -> (r: bool)
    ensures
        r == allows_body(method@),
{
    same(method, "POST") || same(method, "PATCH") || same(method, "PUT")
}

/// A body that was begun, and whether there is anything in it.
#[verifier::ext_equal]
pub struct BodyView {
    pub value: JsonView,
    pub present: bool,
}

/// The body that an operation begins with.
pub open spec fn first_body(op: OperationView) -> BodyView {
    match op.body_defaults {
        Some(value) => BodyView {
            value,
            present: !(value matches JsonView::Object(members) && members == Map::<
                Seq<char>,
                JsonView,
            >::empty()),
        },
        None => BodyView { value: JsonView::Object(Map::empty()), present: false },
    }
}

/// The path in the body that an argument goes to.
pub open spec fn body_path(arg: ArgView) -> Seq<char> {
    match arg.path {
        Some(path) => path,
        None => arg.name,
    }
}

/// The JSON value that was given for an argument (none where it was not given), or the message of the
/// fault.
pub open spec fn given_value(arg: ArgView, given: Given) -> Result<Option<JsonView>, Seq<char>> {
    if arg.list {
        match args::all_values(given, arg.name) {
            Some(list) => match values::list_value(arg, list) {
                Ok(value) => Ok(Some(value)),
                Err(e) => Err(e),
            },
            None => Ok(None),
        }
    } else {
        match args::one_value(given, arg.name) {
            Some(value) => match values::scalar_value(arg, value) {
                Ok(value) => Ok(Some(value)),
                Err(e) => Err(e),
            },
            None => Ok(None),
        }
    }
}

/// Reads the JSON value that was given for an argument.
fn read_given_value(arg: &ArgDef, matches: &Matches) -> (r: Result<Option<Json>, CliError>)
    ensures
        match r {
            Ok(Some(v)) => given_value(arg@, matches@) == Ok::<Option<JsonView>, Seq<char>>(Some(v@)),
            Ok(None) => given_value(arg@, matches@) == Ok::<Option<JsonView>, Seq<char>>(None),
            Err(e) => given_value(arg@, matches@) == Err::<Option<JsonView>, Seq<char>>(e@),
        },
        r matches Ok(Some(v)) ==> (arg@.list ==> v@ is Array),
{
    if arg.list {
        match matches.get_many(arg.name.as_str()) {
            Some(list) => match parse_list_value(arg, list) {
                Ok(value) => Ok(Some(value)),
                Err(e) => Err(e),
            },
            None => Ok(None),
        }
    } else {
        match matches.get_one(arg.name.as_str()) {
            Some(value) => match parse_scalar_value(arg, value) {
                Ok(value) => Ok(Some(value)),
                Err(e) => Err(e),
            },
            None => Ok(None),
        }
    }
}

/// A body with the values of the arguments in their places, or the message of the first fault.
pub open spec fn with_arguments(start: BodyView, list: Seq<ArgView>, given: Given) -> Result<
    BodyView,
    Seq<char>,
>
    decreases list.len(),
{
    if list.len() == 0 {
        Ok(start)
    } else {
        match with_arguments(start, list.drop_last(), given) {
            Err(e) => Err(e),
            Ok(body) => {
                let arg = list.last();
                if arg.location != "body"@ {
                    Ok(body)
                } else {
                    match given_value(arg, given) {
                        Err(e) => Err(e),
                        Ok(Some(value)) => Ok(
                            BodyView {
                                value: json_path::with_path_value(
                                    body.value,
                                    body_path(arg),
                                    value,
                                ),
                                present: true,
                            },
                        ),
                        Ok(None) => if arg.required {
                            Err(missing(arg))
                        } else {
                            Ok(body)
                        },
                    }
                }
            },
        }
    }
}

/// A fault at the first arguments is the fault of all of them.
proof fn lemma_first_bad_body(start: BodyView, list: Seq<ArgView>, given: Given, n: int)
    requires
        0 <= n <= list.len(),
        with_arguments(start, list.take(n), given) is Err,
    ensures
        with_arguments(start, list, given) == with_arguments(start, list.take(n), given),
    decreases list.len(),
{
    if n < list.len() {
        assert(list.drop_last().take(n) =~= list.take(n));
        lemma_first_bad_body(start, list.drop_last(), given, n);
    } else {
        assert(list.take(n) =~= list);
    }
}

/// A body that was given whole, from what was read of its text, or the message of the fault.
pub open spec fn whole_body(method: Seq<char>, decoded: Result<JsonView, Seq<char>>) -> Result<
    Option<JsonView>,
    Seq<char>,
> {
    if !allows_body(method) {
        Err("--body is only supported for POST/PATCH/PUT"@)
    } else {
        match decoded {
            Ok(value) => Ok(Some(value)),
            Err(_) => Err("invalid JSON for --body"@),
        }
    }
}

/// The body of a request (none where there is nothing in it), or the message of the fault: the one that
/// was given whole, or the defaults of the operation with the values of the arguments in them.
pub open spec fn request_body(op: OperationView, given: Given, whole: Option<Seq<char>>) -> Result<
    Option<JsonView>,
    Seq<char>,
> {
    match whole {
        Some(raw) => whole_body(op.method, json_text::json_value(raw)),
        None => match with_arguments(first_body(op), op.args, given) {
            Err(e) => Err(e),
            Ok(body) => if !body.present {
                Ok(None)
            } else if allows_body(op.method) {
                Ok(Some(body.value))
            } else {
                Err("body parameters are only supported for POST/PATCH/PUT"@)
            },
        },
    }
}

/// Takes a body that was given whole, from what was read of its text.
pub fn take_whole_body(method: &str, decoded: Result<Json, String>) -> (r: Result<
    Option<Json>,
    CliError,
>)
    ensures
        ({
            let read = match decoded {
                Ok(v) => Ok::<JsonView, Seq<char>>(v@),
                Err(e) => Err::<JsonView, Seq<char>>(e@),
            };
            match r {
                Ok(body) => whole_body(method@, read) == Ok::<Option<JsonView>, Seq<char>>(
                    body_view(body),
                ),
                Err(e) => whole_body(method@, read) == Err::<Option<JsonView>, Seq<char>>(e@),
            }
        }),
{
    if !has_body_method(method) {
        return Err(CliError::new("--body is only supported for POST/PATCH/PUT"));
    }
    match value_or(decoded, "invalid JSON for --body") {
        Ok(value) => Ok(Some(value)),
        Err(e) => Err(e),
    }
}

/// What an optional JSON value is.
pub open spec fn body_view(body: Option<Json>) -> Option<JsonView> {
    match body {
        Some(body) => Some(body@),
        None => None,
    }
}

/// Builds the body of a request.
pub fn build_body(op: &Operation, matches: &Matches, body_override: Option<&str>) -> (r: Result<
    Option<Json>,
    CliError,
>)
    ensures
        match r {
            Ok(body) => request_body(op@, matches@, text::text_of(body_override)) == Ok::<
                Option<JsonView>,
                Seq<char>,
            >(body_view(body)),
            Err(e) => request_body(op@, matches@, text::text_of(body_override)) == Err::<
                Option<JsonView>,
                Seq<char>,
            >(e@),
        },
        body_override is None ==> (r matches Ok(Some(body)) ==> forall|i: int|
            0 <= i < op@.args.len() && (#[trigger] op@.args[i]).location == "body"@
                && op@.args[i].list && matches@.contains_key(op@.args[i].name) && stays(
                op@.args,
                matches@,
                i,
            ) ==> (json_path::path_value(body@, body_path(op@.args[i])) matches Some(
                JsonView::Array(_),
            ))),
{
    if let Some(raw) = body_override {
        return take_whole_body(op.method.as_str(), read_json(raw));
    }
    let mut body = match &op.body_defaults {
        Some(defaults) => defaults.clone(),
        None => Json::Object(Members::new()),
    };
    let mut has_body = match &body {
        Json::Object(members) => members.len() > 0,
        _ => true,
    };
    let ghost start = first_body(op@);
    let ghost all = op@.args;
    let mut i: usize = 0;
    proof {
        assert(all.take(0) =~= seq![]);
    }
    while i < op.args.len()
        invariant
            i <= op.args@.len(),
            body_override is None,
            start == first_body(op@),
            op@.args == all,
            all == command_tree::arg_views(op.args@),
            with_arguments(start, all.take(i as int), matches@) == Ok::<BodyView, Seq<char>>(
                (BodyView { value: body@, present: has_body }),
            ),
            forall|k: int|
                0 <= k < i && (#[trigger] all[k]).location == "body"@ && all[k].list ==> (
                given_value(all[k], matches@) matches Ok(Some(v)) ==> v is Array),
        decreases op.args@.len() - i,
    {
        let arg = &op.args[i];
        proof {
            assert(all.take(i + 1).drop_last() =~= all.take(i as int));
            assert(all.take(i + 1).last() == arg@);
        }
        if same(arg.location.as_str(), "body") {
            match read_given_value(arg, matches) {
                Ok(Some(value)) => {
                    let path = match &arg.path {
                        Some(path) => path.as_str(),
                        None => arg.name.as_str(),
                    };
                    let _ = set_json_path(&mut body, path, value);
                    has_body = true;
                },
                Ok(None) => if arg.required {
                    proof {
                        lemma_first_bad_body(start, all, matches@, i + 1);
                    }
                    return Err(missing_argument(arg));
                },
                Err(e) => {
                    proof {
                        lemma_first_bad_body(start, all, matches@, i + 1);
                    }
                    return Err(e);
                },
            }
        }
        i = i + 1;
    }
    proof {
        assert(all.take(i as int) =~= all);
        assert forall|k: int|
            0 <= k < all.len() && (#[trigger] all[k]).location == "body"@ && all[k].list
                && matches@.contains_key(all[k].name) && stays(all, matches@, k) implies (
        json_path::path_value(body@, body_path(all[k])) matches Some(JsonView::Array(_))) by {
            lemma_lands(start, all, matches@, k);
        }
    }
    if !has_body {
        Ok(None)
    } else if has_body_method(op.method.as_str()) {
        Ok(Some(body))
    } else {
        Err(CliError::new("body parameters are only supported for POST/PATCH/PUT"))
    }
}

/// A request: its address, its headers and its body.
#[derive(Debug, PartialEq, Eq)]
pub struct RequestParts {
    pub url: String,
    pub headers: Vec<(String, String)>,
    pub body: Option<Json>,
}

/// What a request is.
#[verifier::ext_equal]
pub struct RequestView {
    pub url: Seq<char>,
    pub headers: PairViews,
    pub body: Option<JsonView>,
}

impl View for RequestParts {
    type V = RequestView;

    open spec fn view(&self) -> RequestView {
        RequestView {
            url: self.url@,
            headers: query::pair_views(self.headers@),
            body: body_view(self.body),
        }
    }
}

/// The headers and the body of a request and its query parameters, or the message of the first fault.
pub open spec fn request_rest(
    op: OperationView,
    headers: PairViews,
    given: Given,
    whole: Option<Seq<char>>,
) -> Result<(PairViews, PairViews, Option<JsonView>), Seq<char>> {
    match query_pairs(op.args, given) {
        Err(e) => Err(e),
        Ok(pairs) => match with_headers(headers, op.args, given) {
            Err(e) => Err(e),
            Ok(headers) => match request_body(op, given, whole) {
                Err(e) => Err(e),
                Ok(body) => Ok((pairs, headers, body)),
            },
        },
    }
}

/// The request of an operation, or the message of the first fault: in a header of the command line, in
/// the path, in the base, in the address, in the query, in a header of the operation, in the body.
pub open spec fn request(
    op: OperationView,
    base: Seq<char>,
    given: Given,
    whole: Option<Seq<char>>,
) -> Result<RequestView, Seq<char>> {
    match global_headers(given) {
        Err(e) => Err(e),
        Ok(headers) => match target(op, base, given) {
            Err(e) => Err(e),
            Ok(to) => match address::request_address(to.base, to.path, seq![]) {
                Err(e) => Err(e),
                Ok(_) => match request_rest(op, headers, given, whole) {
                    Err(e) => Err(e),
                    Ok((pairs, headers, body)) => match address::request_address(
                        to.base,
                        to.path,
                        pairs,
                    ) {
                        Err(e) => Err(e),
                        Ok(url) => Ok(RequestView { url, headers, body }),
                    },
                },
            },
        },
    }
}

/// Whether the address of an operation is short enough to be built: the base of a web socket is, and so
/// is the address, without its query parameters and with them.
pub open spec fn fits(op: OperationView, base: Seq<char>, given: Given) -> bool {
    &&& op.method == "WS"@ ==> address::is_short(base, "wss"@, seq![])
    &&& target(op, base, given) matches Ok(to) ==> {
        &&& address::is_short(to.base, to.path, seq![])
        &&& query_pairs(op.args, given) matches Ok(pairs) ==> address::is_short(
            to.base,
            to.path,
            pairs,
        )
    }
}

/// Collects what a request holds beside its address, and the query parameters.
fn build_rest(
    op: &Operation,
    headers: Vec<(String, String)>,
    matches: &Matches,
    body_override: Option<&str>,
) -> (r: Result<(Vec<(String, String)>, Vec<(String, String)>, Option<Json>), CliError>)
    ensures
        ({
            let want = request_rest(
                op@,
                query::pair_views(headers@),
                matches@,
                text::text_of(body_override),
            );
            match r {
                Ok((pairs, all, body)) => want == Ok::<
                    (PairViews, PairViews, Option<JsonView>),
                    Seq<char>,
                >((query::pair_views(pairs@), query::pair_views(all@), body_view(body))),
                Err(e) => want == Err::<(PairViews, PairViews, Option<JsonView>), Seq<char>>(e@),
            }
        }),
{
    let pairs = match add_query_params(op, matches) {
        Ok(pairs) => pairs,
        Err(e) => return Err(e),
    };
    let mut all = headers;
    match add_headers(&mut all, op, matches) {
        Ok(_) => {},
        Err(e) => return Err(e),
    }
    match build_body(op, matches, body_override) {
        Ok(body) => Ok((pairs, all, body)),
        Err(e) => Err(e),
    }
}

/// Builds the request of an operation.
pub fn build_request(
    op: &Operation,
    base_url: &str,
    matches: &Matches,
    body_override: Option<&str>,
) -> (r: Result<RequestParts, CliError>)
    requires
        fits(op@, base_url@, matches@),
    ensures
        match r {
            Ok(parts) => request(op@, base_url@, matches@, text::text_of(body_override)) == Ok::<
                RequestView,
                Seq<char>,
            >(parts@),
            Err(e) => request(op@, base_url@, matches@, text::text_of(body_override)) == Err::<
                RequestView,
                Seq<char>,
            >(e@),
        },
{
    let headers = match parse_global_headers(matches) {
        Ok(headers) => headers,
        Err(e) => return Err(e),
    };
    let to = match request_target(op, base_url, matches) {
        Ok(to) => to,
        Err(e) => return Err(e),
    };
    let no_pairs: Vec<(String, String)> = Vec::new();
    proof {
        assert(query::pair_views(no_pairs@) =~= seq![]);
    }
    if let Err(e) = request_url(to.base.as_str(), to.path.as_str(), &no_pairs) {
        return Err(CliError::of(e));
    }
    let (pairs, headers, body) = match build_rest(op, headers, matches, body_override) {
        Ok(rest) => rest,
        Err(e) => return Err(e),
    };
    match request_url(to.base.as_str(), to.path.as_str(), &pairs) {
        Ok(url) => Ok(RequestParts { url, headers, body }),
        Err(e) => Err(CliError::of(e)),
    }
}

/// Builds the request of an operation where its address is short enough to be built.
pub fn try_build_request(
    op: &Operation,
    base_url: &str,
    matches: &Matches,
    body_override: Option<&str>,
) -> (r: Option<Result<RequestParts, CliError>>)
    ensures
        match r {
            Some(Ok(parts)) => fits(op@, base_url@, matches@) && request(
                op@,
                base_url@,
                matches@,
                text::text_of(body_override),
            ) == Ok::<RequestView, Seq<char>>(parts@),
            Some(Err(e)) => fits(op@, base_url@, matches@) && request(
                op@,
                base_url@,
                matches@,
                text::text_of(body_override),
            ) == Err::<RequestView, Seq<char>>(e@),
            None => !fits(op@, base_url@, matches@),
        },
{
    let no_pairs: Vec<(String, String)> = Vec::new();
    proof {
        assert(query::pair_views(no_pairs@) =~= seq![]);
    }
    if same(op.method.as_str(), "WS") && !is_short_address(base_url, "wss", &no_pairs) {
        return None;
    }
    if let Ok(to) = request_target(op, base_url, matches) {
        if !is_short_address(to.base.as_str(), to.path.as_str(), &no_pairs) {
            return None;
        }
        if let Ok(pairs) = add_query_params(op, matches) {
            if !is_short_address(to.base.as_str(), to.path.as_str(), &pairs) {
                return None;
            }
        }
    }
    Some(build_request(op, base_url, matches, body_override))
}

/// Only requests of the methods POST, PATCH and PUT have a body.
pub proof fn law_bodies_need_a_method(
    op: OperationView,
    base: Seq<char>,
    given: Given,
    whole: Option<Seq<char>>,
)
    requires
        request(op, base, given, whole) matches Ok(parts) && parts.body is Some,
    ensures
        allows_body(op.method),
{
}

/// The headers of the arguments stand behind the others.
proof fn lemma_headers_behind(headers: PairViews, list: Seq<ArgView>, given: Given)
    ensures
        with_headers(headers, list, given) matches Ok(all) ==> headers.is_prefix_of(all),
    decreases list.len(),
{
    if list.len() > 0 {
        lemma_headers_behind(headers, list.drop_last(), given);
    }
}

/// The headers of the command line stand first among the headers of a request, in their order.
pub proof fn law_command_line_headers_come_first(
    op: OperationView,
    base: Seq<char>,
    given: Given,
    whole: Option<Seq<char>>,
)
    requires
        request(op, base, given, whole) is Ok,
    ensures
        global_headers(given) matches Ok(headers) && request(op, base, given, whole) matches Ok(
            parts,
        ) && headers.is_prefix_of(parts.headers),
{
    lemma_headers_behind(global_headers(given)->Ok_0, op.args, given);
}

/// Whether an argument was given.
pub open spec fn was_given(arg: ArgView, given: Given) -> bool {
    if arg.list && (arg.location == "query"@ || arg.location == "body"@) {
        args::all_values(given, arg.name) is Some
    } else {
        args::one_value(given, arg.name) is Some
    }
}

/// A path that was filled has the values of all its arguments.
proof fn lemma_path_given(path: Seq<char>, list: Seq<ArgView>, given: Given, i: int)
    requires
        filled_path(path, list, given) is Ok,
        0 <= i < list.len(),
        list[i].location == "path"@,
    ensures
        args::one_value(given, list[i].name) is Some,
    decreases list.len(),
{
    if i < list.len() - 1 {
        lemma_path_given(path, list.drop_last(), given, i);
    }
}

/// A query that was built has the values of all required arguments.
proof fn lemma_query_given(list: Seq<ArgView>, given: Given, i: int)
    requires
        query_pairs(list, given) is Ok,
        0 <= i < list.len(),
        list[i].location == "query"@,
        list[i].required,
    ensures
        was_given(list[i], given),
    decreases list.len(),
{
    if i < list.len() - 1 {
        lemma_query_given(list.drop_last(), given, i);
    } else {
        assert(arg_pairs(list[i], given) is Ok);
    }
}

/// Headers that were built have the values of all required arguments.
proof fn lemma_headers_given(headers: PairViews, list: Seq<ArgView>, given: Given, i: int)
    requires
        with_headers(headers, list, given) is Ok,
        0 <= i < list.len(),
        list[i].location == "header"@,
        list[i].required,
    ensures
        args::one_value(given, list[i].name) is Some,
    decreases list.len(),
{
    if i < list.len() - 1 {
        lemma_headers_given(headers, list.drop_last(), given, i);
    }
}

/// A body that was built has the values of all required arguments.
proof fn lemma_body_given(start: BodyView, list: Seq<ArgView>, given: Given, i: int)
    requires
        with_arguments(start, list, given) is Ok,
        0 <= i < list.len(),
        list[i].location == "body"@,
        list[i].required,
    ensures
        was_given(list[i], given),
    decreases list.len(),
{
    if i < list.len() - 1 {
        lemma_body_given(start, list.drop_last(), given, i);
    } else {
        assert(given_value(list[i], given) matches Ok(Some(_)));
    }
}

/// No request is built without a required argument, nor without an argument of its path. A body that
/// was given whole stands for the arguments of the body.
pub proof fn law_required_arguments_are_given(
    op: OperationView,
    base: Seq<char>,
    given: Given,
    whole: Option<Seq<char>>,
    i: int,
)
    requires
        request(op, base, given, whole) is Ok,
        0 <= i < op.args.len(),
        op.args[i].location == "path"@ || op.args[i].required && (op.args[i].location == "query"@
            || op.args[i].location == "header"@ || op.args[i].location == "body"@ && whole is None),
    ensures
        was_given(op.args[i], given),
{
    reveal_strlit("path");
    reveal_strlit("query");
    reveal_strlit("header");
    reveal_strlit("body");
    assert("path"@.len() == 4 && "path"@[0] == 'p');
    assert("body"@.len() == 4 && "body"@[0] == 'b');
    assert("query"@.len() == 5 && "header"@.len() == 6);
    let arg = op.args[i];
    if arg.location == "path"@ {
        lemma_path_given(op.path, op.args, given, i);
    } else if arg.location == "query"@ {
        lemma_query_given(op.args, given, i);
    } else if arg.location == "header"@ {
        lemma_headers_given(global_headers(given)->Ok_0, op.args, given, i);
    } else {
        lemma_body_given(first_body(op), op.args, given, i);
    }
}

/// Whether what an argument puts into a body stays there: its path is not the whole body, and no later
/// argument of the body that was given leads to the same place, into it, through it, or to the whole
/// body.
pub open spec fn stays(list: Seq<ArgView>, given: Given, i: int) -> bool {
    &&& body_path(list[i]) != "$"@
    &&& forall|j: int|
        i < j < list.len() && (#[trigger] list[j]).location == "body"@ && given.contains_key(
            list[j].name,
        ) ==> body_path(list[j]) != "$"@ && json_path::part_ways(
            pattern::pieces(body_path(list[j]), "."@),
            pattern::pieces(body_path(list[i]), "."@),
        )
}

/// What was given for an argument stands in the body at its path, where it stays.
proof fn lemma_lands(start: BodyView, list: Seq<ArgView>, given: Given, i: int)
    requires
        with_arguments(start, list, given) is Ok,
        0 <= i < list.len(),
        list[i].location == "body"@,
        stays(list, given, i),
    ensures
        with_arguments(start, list, given) matches Ok(body) && (given_value(
            list[i],
            given,
        ) matches Ok(v) && (v matches Some(v) ==> body.present && json_path::path_value(
            body.value,
            body_path(list[i]),
        ) == Some(v))),
        list[i].list && given.contains_key(list[i].name) ==> given_value(list[i], given) matches Ok(
            Some(_),
        ),
    decreases list.len(),
{
    let front = list.drop_last();
    let last = list.last();
    let before = with_arguments(start, front, given)->Ok_0;
    if i == list.len() - 1 {
        if let Ok(Some(v)) = given_value(last, given) {
            json_path::law_set_then_get(before.value, body_path(last), v);
        }
    } else {
        assert forall|j: int|
            i < j < front.len() && (#[trigger] front[j]).location == "body"@ && given.contains_key(
                front[j].name,
            ) implies body_path(front[j]) != "$"@ && json_path::part_ways(
            pattern::pieces(body_path(front[j]), "."@),
            pattern::pieces(body_path(front[i]), "."@),
        ) by {
            assert(front[j] == list[j]);
        }
        assert(front[i] == list[i]);
        lemma_lands(start, front, given, i);
        if last.location == "body"@ {
            if let Ok(Some(v)) = given_value(last, given) {
                let at = list.len() - 1;
                assert(list[at] == last);
                assert(given.contains_key(last.name));
                json_path::law_set_elsewhere(
                    before.value,
                    body_path(last),
                    v,
                    body_path(list[i]),
                );
            }
        }
    }
}

/// A list argument becomes a list in the body: at its path, where no later argument overwrites it, stands
/// a list with one item for each value that was given, in their order, one value included. Values that
/// are taken as they are become texts. A single value that is a JSON list becomes what it reads as.
pub proof fn law_list_arguments_become_lists(
    op: OperationView,
    given: Given,
    body: JsonView,
    i: int,
)
    requires
        request_body(op, given, None) == Ok::<Option<JsonView>, Seq<char>>(Some(body)),
        0 <= i < op.args.len(),
        op.args[i].location == "body"@,
        op.args[i].list,
        given.contains_key(op.args[i].name),
        stays(op.args, given, i),
    ensures
        ({
            let arg = op.args[i];
            let values = given[arg.name];
            let found = json_path::path_value(body, body_path(arg));
            if values::is_json_list(values) {
                json_text::json_value(values[0]) matches Ok(v) && found == Some(v)
            } else {
                found matches Some(JsonView::Array(items)) && items.len() == values.len() && forall|
                    k: int,
                |
                    0 <= k < values.len() ==> values::scalar_value(arg, #[trigger] values[k])
                        == Ok::<JsonView, Seq<char>>(items[k]) && (values::is_plain(arg)
                        && !arg.nullable ==> items[k] == JsonView::Text(values[k]))
            }
        }),
{
    lemma_lands(first_body(op), op.args, given, i);
    let arg = op.args[i];
    if !values::is_json_list(given[arg.name]) {
        values::law_list_values_are_lists(arg, given[arg.name]);
    }
}

/// An argument of the body with one value stands there at its path, where no later argument overwrites
/// it: the first value that was given, as a text, a number, a truth value or what it reads as.
pub proof fn law_single_arguments_land_in_the_body(
    op: OperationView,
    given: Given,
    body: JsonView,
    i: int,
)
    requires
        request_body(op, given, None) == Ok::<Option<JsonView>, Seq<char>>(Some(body)),
        0 <= i < op.args.len(),
        op.args[i].location == "body"@,
        !op.args[i].list,
        given.contains_key(op.args[i].name),
        given[op.args[i].name].len() > 0,
        stays(op.args, given, i),
    ensures
        ({
            let arg = op.args[i];
            let value = given[arg.name][0];
            values::scalar_value(arg, value) matches Ok(v) && json_path::path_value(
                body,
                body_path(arg),
            ) == Some(v) && (values::is_plain(arg) && !arg.nullable ==> v == JsonView::Text(value))
        }),
{
    lemma_lands(first_body(op), op.args, given, i);
}

/// What an operation sets in its body by default stays there at every path that the paths of the
/// arguments that were given part from.
pub proof fn law_defaults_stay(op: OperationView, given: Given, body: JsonView, path: Seq<char>)
    requires
        request_body(op, given, None) == Ok::<Option<JsonView>, Seq<char>>(Some(body)),
        forall|j: int|
            0 <= j < op.args.len() && (#[trigger] op.args[j]).location == "body"@
                && given.contains_key(op.args[j].name) ==> body_path(op.args[j]) != "$"@
                && json_path::part_ways(
                pattern::pieces(body_path(op.args[j]), "."@),
                pattern::pieces(path, "."@),
            ),
    ensures
        json_path::path_value(body, path) == match op.body_defaults {
            Some(defaults) => json_path::path_value(defaults, path),
            None => None,
        },
{
    lemma_defaults_stay(first_body(op), op.args, given, path);
    reveal_strlit(".");
    pattern::lemma_split_then_join(path, "."@);
}

/// What a body begins with stays at a path that all arguments part from.
proof fn lemma_defaults_stay(start: BodyView, list: Seq<ArgView>, given: Given, path: Seq<char>)
    requires
        with_arguments(start, list, given) is Ok,
        forall|j: int|
            0 <= j < list.len() && (#[trigger] list[j]).location == "body"@ && given.contains_key(
                list[j].name,
            ) ==> body_path(list[j]) != "$"@ && json_path::part_ways(
                pattern::pieces(body_path(list[j]), "."@),
                pattern::pieces(path, "."@),
            ),
    ensures
        with_arguments(start, list, given) matches Ok(body) && json_path::path_value(body.value, path)
            == json_path::path_value(start.value, path),
    decreases list.len(),
{
    if list.len() > 0 {
        let front = list.drop_last();
        let last = list.last();
        assert forall|j: int|
            0 <= j < front.len() && (#[trigger] front[j]).location == "body"@ && given.contains_key(
                front[j].name,
            ) implies body_path(front[j]) != "$"@ && json_path::part_ways(
            pattern::pieces(body_path(front[j]), "."@),
            pattern::pieces(path, "."@),
        ) by {
            assert(front[j] == list[j]);
        }
        lemma_defaults_stay(start, front, given, path);
        assert(list[list.len() - 1] == last);
        if last.location == "body"@ {
            if let Ok(Some(v)) = given_value(last, given) {
                let before = with_arguments(start, front, given)->Ok_0;
                json_path::law_set_elsewhere(before.value, body_path(last), v, path);
            }
        }
    }
}

/// There is a body exactly where the operation sets anything by default or an argument of the body was
/// given.
pub proof fn law_bodies_hold_something(op: OperationView, given: Given)
    ensures
        request_body(op, given, None) matches Ok(body) ==> (body is Some <==> {
            ||| op.body_defaults matches Some(defaults) && !(defaults matches JsonView::Object(m)
                && m == Map::<Seq<char>, JsonView>::empty())
            ||| exists|i: int|
                0 <= i < op.args.len() && (#[trigger] op.args[i]).location == "body"@
                    && given.contains_key(op.args[i].name) && (op.args[i].list
                    || given[op.args[i].name].len() > 0)
        }),
{
    if request_body(op, given, None) is Ok {
        lemma_present(first_body(op), op.args, given);
    }
}

/// A body has something in it where it began so or an argument was given.
proof fn lemma_present(start: BodyView, list: Seq<ArgView>, given: Given)
    ensures
        with_arguments(start, list, given) matches Ok(body) ==> (body.present <==> {
            ||| start.present
            ||| exists|i: int|
                0 <= i < list.len() && (#[trigger] list[i]).location == "body"@
                    && given.contains_key(list[i].name) && (list[i].list || given[list[i].name].len()
                    > 0)
        }),
    decreases list.len(),
{
    if list.len() > 0 && with_arguments(start, list, given) is Ok {
        let front = list.drop_last();
        let at = list.len() - 1;
        lemma_present(start, front, given);
        assert(list[at] == list.last());
        assert forall|i: int| 0 <= i < front.len() implies #[trigger] front[i] == list[i] by {}
        if exists|i: int|
            0 <= i < front.len() && (#[trigger] front[i]).location == "body"@ && given.contains_key(
                front[i].name,
            ) && (front[i].list || given[front[i].name].len() > 0) {
            let i = choose|i: int|
                0 <= i < front.len() && (#[trigger] front[i]).location == "body"@
                    && given.contains_key(front[i].name) && (front[i].list
                    || given[front[i].name].len() > 0);
            assert(list[i] == front[i]);
        }
        assert forall|i: int|
            0 <= i < list.len() && (#[trigger] list[i]).location == "body"@ && given.contains_key(
                list[i].name,
            ) && (list[i].list || given[list[i].name].len() > 0) && i != at implies front[i]
            == list[i] by {}
    }
}

/// A body that was given whole is the body, whatever arguments were given beside it.
pub proof fn law_whole_bodies_replace_arguments(
    op: OperationView,
    base: Seq<char>,
    given: Given,
    raw: Seq<char>,
)
    requires
        request(op, base, given, Some(raw)) is Ok,
    ensures
        json_text::json_value(raw) matches Ok(value) && request(op, base, given, Some(raw)) matches Ok(
            parts,
        ) && parts.body == Some(value),
        op.method == "POST"@ || op.method == "PATCH"@ || op.method == "PUT"@,
{
}

/// The query goes argument by argument, in their order.
pub proof fn law_queries_go_argument_by_argument(
    list: Seq<ArgView>,
    more: Seq<ArgView>,
    given: Given,
)
    ensures
        match (query_pairs(list, given), query_pairs(more, given)) {
            (Ok(a), Ok(b)) => query_pairs(list + more, given) == Ok::<PairViews, Seq<char>>(a + b),
            (Err(e), _) => query_pairs(list + more, given) == Err::<PairViews, Seq<char>>(e),
            (_, Err(e)) => query_pairs(list + more, given) == Err::<PairViews, Seq<char>>(e),
        },
    decreases more.len(),
{
    if more.len() == 0 {
        assert(list + more =~= list);
        if let Ok(a) = query_pairs(list, given) {
            assert(a + Seq::<(Seq<char>, Seq<char>)>::empty() =~= a);
        }
    } else {
        law_queries_go_argument_by_argument(list, more.drop_last(), given);
        assert((list + more).drop_last() =~= list + more.drop_last());
        assert((list + more).last() == more.last());
        if let (Ok(a), Ok(b)) = (query_pairs(list, given), query_pairs(more.drop_last(), given)) {
            if let Ok(c) = arg_pairs(more.last(), given) {
                assert(a + b + c =~= a + (b + c));
            }
        }
    }
}

/// What one argument adds to the query. One of another place adds nothing, and so does one that was not
/// given and need not be; one that must be given is asked for. A list argument adds a parameter with its
/// name for each of its values, in their order, a JSON list as it is; any other adds one for its first
/// value. Values that are taken as they are stand there unchanged.
pub proof fn law_query_of_an_argument(arg: ArgView, given: Given)
    ensures
        ({
            let added = query_pairs(seq![arg], given);
            let asked_for = Err::<PairViews, Seq<char>>("missing required argument --"@ + arg.flag);
            if arg.location != "query"@ {
                added == Ok::<PairViews, Seq<char>>(seq![])
            } else if !given.contains_key(arg.name) || !arg.list && given[arg.name].len() == 0 {
                added == if arg.required {
                    asked_for
                } else {
                    Ok::<PairViews, Seq<char>>(seq![])
                }
            } else if arg.list && values::is_json_list(given[arg.name]) {
                added == if json_text::json_value(given[arg.name][0]) is Ok {
                    Ok::<PairViews, Seq<char>>(seq![(arg.name, given[arg.name][0])])
                } else {
                    Err::<PairViews, Seq<char>>("invalid JSON"@)
                }
            } else if arg.list {
                &&& added is Ok <==> forall|i: int|
                    0 <= i < given[arg.name].len() ==> values::query_value(
                        arg.value_type,
                        #[trigger] given[arg.name][i],
                    ) is Ok
                &&& added matches Ok(pairs) ==> pairs.len() == given[arg.name].len() && forall|i: int|
                    0 <= i < pairs.len() ==> (#[trigger] pairs[i]).0 == arg.name
                        && values::query_value(arg.value_type, given[arg.name][i]) == Ok::<
                        Seq<char>,
                        Seq<char>,
                    >(pairs[i].1)
                &&& values::is_plain(arg) ==> added == Ok::<PairViews, Seq<char>>(
                    Seq::new(given[arg.name].len(), |i: int| (arg.name, given[arg.name][i])),
                )
            } else {
                &&& added is Ok <==> values::query_value(arg.value_type, given[arg.name][0]) is Ok
                &&& added matches Ok(pairs) ==> pairs.len() == 1 && pairs[0].0 == arg.name
                    && values::query_value(arg.value_type, given[arg.name][0]) == Ok::<
                    Seq<char>,
                    Seq<char>,
                >(pairs[0].1)
                &&& values::is_plain(arg) ==> added == Ok::<PairViews, Seq<char>>(
                    seq![(arg.name, given[arg.name][0])],
                )
            }
        }),
{
    let one = seq![arg];
    assert(one.drop_last() =~= Seq::<ArgView>::empty());
    reveal_with_fuel(query_pairs, 2);
    let empty: PairViews = seq![];
    if let Ok(more) = arg_pairs(arg, given) {
        assert(empty + more =~= more);
    }
    if given.contains_key(arg.name) {
        lemma_rendered(arg, given[arg.name]);
    }
}

/// The query parameters for the values of an argument.
proof fn lemma_rendered(arg: ArgView, list: Seq<Seq<char>>)
    ensures
        rendered_pairs(arg, list) is Ok <==> forall|i: int|
            0 <= i < list.len() ==> values::query_value(arg.value_type, #[trigger] list[i]) is Ok,
        rendered_pairs(arg, list) matches Ok(pairs) ==> pairs.len() == list.len() && forall|i: int|
            0 <= i < pairs.len() ==> (#[trigger] pairs[i]).0 == arg.name && values::query_value(
                arg.value_type,
                list[i],
            ) == Ok::<Seq<char>, Seq<char>>(pairs[i].1),
        values::is_plain(arg) ==> rendered_pairs(arg, list) == Ok::<PairViews, Seq<char>>(
            Seq::new(list.len(), |i: int| (arg.name, list[i])),
        ),
    decreases list.len(),
{
    let want = Seq::new(list.len(), |i: int| (arg.name, list[i]));
    if list.len() > 0 {
        let front = list.drop_last();
        lemma_rendered(arg, front);
        let less = Seq::new(front.len(), |i: int| (arg.name, front[i]));
        assert(less.push((arg.name, list.last())) =~= want);
        assert(list[list.len() - 1] == list.last());
        assert forall|i: int| 0 <= i < front.len() implies #[trigger] front[i] == list[i] by {}
        if rendered_pairs(arg, front) is Err {
            let i = choose|i: int|
                0 <= i < front.len() && !(values::query_value(
                    arg.value_type,
                    #[trigger] front[i],
                ) is Ok);
            assert(!(values::query_value(arg.value_type, list[i]) is Ok));
        } else {
            assert forall|i: int| 0 <= i < front.len() implies values::query_value(
                arg.value_type,
                #[trigger] list[i],
            ) is Ok by {
                assert(values::query_value(arg.value_type, front[i]) is Ok);
            }
        }
        if let Ok(pairs) = rendered_pairs(arg, list) {
            let before = rendered_pairs(arg, front)->Ok_0;
            assert forall|i: int| 0 <= i < pairs.len() implies (#[trigger] pairs[i]).0 == arg.name
                && values::query_value(arg.value_type, list[i]) == Ok::<Seq<char>, Seq<char>>(
                pairs[i].1,
            ) by {
                if i < front.len() {
                    assert(pairs[i] == before[i]);
                    assert(list[i] == front[i]);
                }
            }
        }
    } else {
        assert(want =~= seq![]);
    }
}

/// Headers go argument by argument, in their order.
pub proof fn law_headers_go_argument_by_argument(
    headers: PairViews,
    list: Seq<ArgView>,
    more: Seq<ArgView>,
    given: Given,
)
    ensures
        with_headers(headers, list + more, given) == match with_headers(headers, list, given) {
            Ok(before) => with_headers(before, more, given),
            Err(e) => Err(e),
        },
    decreases more.len(),
{
    if more.len() == 0 {
        assert(list + more =~= list);
    } else {
        law_headers_go_argument_by_argument(headers, list, more.drop_last(), given);
        assert((list + more).drop_last() =~= list + more.drop_last());
        assert((list + more).last() == more.last());
    }
}

/// What one argument adds to the headers: behind the others, under the name of its header, else under
/// its flag, the first value that was given; nothing where it has another place or was not given, unless
/// it must be.
pub proof fn law_header_of_an_argument(headers: PairViews, arg: ArgView, given: Given)
    ensures
        with_headers(headers, seq![arg], given) == if arg.location != "header"@ {
            Ok::<PairViews, Seq<char>>(headers)
        } else if given.contains_key(arg.name) && given[arg.name].len() > 0 {
            let name = match arg.header_name {
                Some(name) => name,
                None => arg.flag,
            };
            Ok::<PairViews, Seq<char>>(headers + seq![(name, given[arg.name][0])])
        } else if arg.required {
            Err::<PairViews, Seq<char>>("missing required argument --"@ + arg.flag)
        } else {
            Ok::<PairViews, Seq<char>>(headers)
        },
{
    let one = seq![arg];
    assert(one.drop_last() =~= Seq::<ArgView>::empty());
    reveal_with_fuel(with_headers, 2);
    let pair = (header_of(arg), given[arg.name][0]);
    assert(headers.push(pair) =~= headers + seq![pair]);
}

/// A path is filled argument by argument, in their order.
pub proof fn law_paths_go_argument_by_argument(
    path: Seq<char>,
    list: Seq<ArgView>,
    more: Seq<ArgView>,
    given: Given,
)
    ensures
        filled_path(path, list + more, given) == match filled_path(path, list, given) {
            Ok(before) => filled_path(before, more, given),
            Err(e) => Err(e),
        },
    decreases more.len(),
{
    if more.len() == 0 {
        assert(list + more =~= list);
    } else {
        law_paths_go_argument_by_argument(path, list, more.drop_last(), given);
        assert((list + more).drop_last() =~= list + more.drop_last());
        assert((list + more).last() == more.last());
    }
}

/// What one argument does to a path: its name in braces gives way to the first value that was given, and
/// the rest of the path stays. One of another place leaves the path as it is; one that was not given is
/// asked for.
pub proof fn law_path_of_an_argument(
    front: Seq<char>,
    back: Seq<char>,
    arg: ArgView,
    given: Given,
)
    requires
        !front.contains('{'),
        !back.contains('{'),
    ensures
        ({
            let path = front + ("{"@ + arg.name + "}"@) + back;
            filled_path(path, seq![arg], given) == if arg.location != "path"@ {
                Ok::<Seq<char>, Seq<char>>(path)
            } else if given.contains_key(arg.name) && given[arg.name].len() > 0 {
                Ok::<Seq<char>, Seq<char>>(front + given[arg.name][0] + back)
            } else {
                Err::<Seq<char>, Seq<char>>("missing required argument --"@ + arg.flag)
            }
        }),
{
    let one = seq![arg];
    assert(one.drop_last() =~= Seq::<ArgView>::empty());
    reveal_with_fuel(filled_path, 2);
    reveal_strlit("{");
    let place = "{"@ + arg.name + "}"@;
    assert(place[0] == '{');
    let value = given[arg.name][0];
    pattern::law_replacing(front, place, back, value);
    pattern::law_replacing(back, place, back, value);
}

/// The path of an address has lost the slashes that it began with, and nothing else.
pub proof fn law_paths_lose_their_slashes(path: Seq<char>)
    ensures
        ({
            let rest = without_slashes(path);
            &&& rest.len() <= path.len()
            &&& rest == path.skip(path.len() - rest.len())
            &&& forall|i: int| 0 <= i < path.len() - rest.len() ==> #[trigger] path[i] == '/'
            &&& rest.len() > 0 ==> rest[0] != '/'
        }),
    decreases path.len(),
{
    if path.len() > 0 && path[0] == '/' {
        let less = path.skip(1);
        law_paths_lose_their_slashes(less);
        let rest = without_slashes(less);
        assert(less.skip(less.len() - rest.len()) =~= path.skip(path.len() - rest.len()));
        assert forall|i: int| 0 <= i < path.len() - rest.len() implies #[trigger] path[i] == '/' by {
            if i > 0 {
                assert(path[i] == less[i - 1]);
            }
        }
    } else {
        assert(path.skip(0) =~= path);
    }
}

/// A request is sent to the base that was asked for, or for web sockets to the one that stands for it,
/// with the path and the query of the operation behind it.
pub proof fn law_requests_have_their_address(
    op: OperationView,
    base: Seq<char>,
    given: Given,
    whole: Option<Seq<char>>,
)
    requires
        request(op, base, given, whole) is Ok,
    ensures
        filled_path(op.path, op.args, given) matches Ok(path) && query_pairs(op.args, given) matches Ok(
            pairs,
        ) && request(op, base, given, whole) matches Ok(parts) && exists|start: Seq<char>|
            (if op.method == "WS"@ {
                address::socket_base(base) == Ok::<Seq<char>, Seq<char>>(start)
            } else {
                start == base
            }) && #[trigger] address::request_address(start, without_slashes(path), pairs) == Ok::<
                Seq<char>,
                Seq<char>,
            >(parts.url),
{
    let path = filled_path(op.path, op.args, given)->Ok_0;
    let pairs = query_pairs(op.args, given)->Ok_0;
    let start = target(op, base, given)->Ok_0.base;
    let parts = request(op, base, given, whole)->Ok_0;
    assert(address::request_address(start, without_slashes(path), pairs) == Ok::<
        Seq<char>,
        Seq<char>,
    >(parts.url));
}

/// The headers of the command line are those that were given, one for each, in their order.
pub proof fn law_given_headers_are_read(given: Given)
    ensures
        !given.contains_key("header"@) ==> global_headers(given) == Ok::<PairViews, Seq<char>>(seq![]),
        given.contains_key("header"@) ==> (global_headers(given) matches Ok(pairs) ==> pairs.len()
            == given["header"@].len() && forall|i: int|
            0 <= i < pairs.len() ==> header_pair(given["header"@][i]) == Ok::<
                (Seq<char>, Seq<char>),
                Seq<char>,
            >(#[trigger] pairs[i])),
{
    if given.contains_key("header"@) {
        lemma_headers_read(given["header"@]);
    }
}

/// Headers are read one by one.
proof fn lemma_headers_read(raws: Seq<Seq<char>>)
    ensures
        header_pairs(raws) matches Ok(pairs) ==> pairs.len() == raws.len() && forall|i: int|
            0 <= i < pairs.len() ==> header_pair(raws[i]) == Ok::<
                (Seq<char>, Seq<char>),
                Seq<char>,
            >(#[trigger] pairs[i]),
    decreases raws.len(),
{
    if raws.len() > 0 {
        let front = raws.drop_last();
        lemma_headers_read(front);
        if let Ok(pairs) = header_pairs(raws) {
            let before = header_pairs(front)->Ok_0;
            assert forall|i: int| 0 <= i < pairs.len() implies header_pair(raws[i]) == Ok::<
                (Seq<char>, Seq<char>),
                Seq<char>,
            >(#[trigger] pairs[i]) by {
                if i < front.len() {
                    assert(pairs[i] == before[i]);
                    assert(raws[i] == front[i]);
                }
            }
        }
    }
}

/// A header without an equals sign is written with a colon, and read as it was.
pub proof fn law_headers_with_a_colon_read_back(name: Seq<char>, value: Seq<char>)
    requires
        !name.contains('='),
        !name.contains(':'),
        !value.contains('='),
        text::trimmed(name) == name,
        text::trimmed(value) == value,
    ensures
        header_pair(name + ":"@ + value) == Ok::<(Seq<char>, Seq<char>), Seq<char>>((name, value)),
{
    reveal_strlit("=");
    reveal_strlit(":");
    pattern::lemma_sides(name, ":"@, value);
    let whole = name + ":"@ + value;
    assert(!whole.contains('=')) by {
        if whole.contains('=') {
            let i = choose|i: int| 0 <= i < whole.len() && whole[i] == '=';
            if i < name.len() {
                assert(name[i] == '=');
            } else if i > name.len() {
                assert(value[i - name.len() - 1] == '=');
            }
        }
    }
    pattern::lemma_no_sides(whole, "="@);
}

/// A method that has no body refuses one: what is in it by default or by arguments, and one that was
/// given whole.
pub proof fn law_bodies_are_refused(op: OperationView, given: Given, raw: Seq<char>)
    requires
        op.method != "POST"@ && op.method != "PATCH"@ && op.method != "PUT"@,
    ensures
        request_body(op, given, Some(raw)) == Err::<Option<JsonView>, Seq<char>>(
            "--body is only supported for POST/PATCH/PUT"@,
        ),
        !(request_body(op, given, None) matches Ok(Some(_))),
        with_arguments(first_body(op), op.args, given) matches Ok(body) ==> (body.present
            ==> request_body(op, given, None) == Err::<Option<JsonView>, Seq<char>>(
            "body parameters are only supported for POST/PATCH/PUT"@,
        )),
{
}

/// A body goes to the path that its argument names, else to its name.
pub proof fn law_arguments_have_their_places(arg: ArgView)
    ensures
        arg.path matches Some(path) ==> body_path(arg) == path,
        arg.path is None ==> body_path(arg) == arg.name,
        arg.header_name matches Some(name) ==> header_of(arg) == name,
        arg.header_name is None ==> header_of(arg) == arg.flag,
{
}

} // verus!
