//! Reading and writing inside JSON values, by dotted paths.

use crate::error::CliError;
use crate::json::{self, Json, JsonView, Members, Numeral, NumeralView};
use crate::json_text::{self, read_json, write_json, write_pretty_json};
use crate::numeral::{self, write_decimal, write_signed};
use crate::pattern::{self, split};
use crate::text::{self, same};
use vstd::prelude::*;

verus! {

broadcast use crate::json::lemma_view;

/// The value that a row of member names leads to.
pub open spec fn value_at(value: JsonView, names: Seq<Seq<char>>) -> Option<JsonView>
    decreases names.len(),
{
    if names.len() == 0 {
        Some(value)
    } else {
        match value {
            JsonView::Object(members) => if members.contains_key(names[0]) {
                value_at(members[names[0]], names.drop_first())
            } else {
                None
            },
            _ => None,
        }
    }
}

/// The value that a dotted path leads to.
pub open spec fn path_value(value: JsonView, path: Seq<char>) -> Option<JsonView> {
    value_at(value, pattern::pieces(path, "."@))
}

/// The value of an optional JSON value.
pub open spec fn view_of(value: Option<&Json>) -> Option<JsonView> {
    match value {
        Some(v) => Some(v@),
        None => None,
    }
}

/// The member of an object.
pub fn get_member<'a>(value: &'a Json, name: &str) -> (r: Option<&'a Json>)
    ensures
        view_of(r) == value_at(value@, seq![name@]),
{
    proof {
        reveal_with_fuel(value_at, 2);
        assert(seq![name@].drop_first() == Seq::<Seq<char>>::empty());
    }
    match value {
        Json::Object(members) => members.get(name),
        _ => None,
    }
}

/// Follows a dotted path into a value.
pub fn get_path<'a>(value: &'a Json, path: &str) -> (r: Option<&'a Json>)
    ensures
        view_of(r) == path_value(value@, path@),
{
    proof {
        reveal_strlit(".");
    }
    let names = split(path, ".");
    let mut current = value;
    let mut i: usize = 0;
    proof {
        assert(text::texts(names@).skip(0) == text::texts(names@));
    }
    while i < names.len()
        invariant
            i <= names@.len(),
            text::texts(names@) == pattern::pieces(path@, "."@),
            value_at(current@, text::texts(names@).skip(i as int)) == path_value(value@, path@),
        decreases names@.len() - i,
    {
        proof {
            let rest = text::texts(names@).skip(i as int);
            assert(rest[0] == names@[i as int]@);
            assert(rest.drop_first() == text::texts(names@).skip(i + 1));
        }
        match current {
            Json::Object(members) => match members.get(names[i].as_str()) {
                Some(v) => {
                    current = v;
                },
                None => {
                    return None;
                },
            },
            _ => {
                return None;
            },
        }
        i = i + 1;
    }
    Some(current)
}

/// The members of a value, none where it is no object.
pub open spec fn members_of(value: JsonView) -> Map<Seq<char>, JsonView> {
    match value {
        JsonView::Object(members) => members,
        _ => Map::empty(),
    }
}

/// A value with `new` at the end of a row of member names. What stands in the way and is no object
/// gives way to one.
pub open spec fn with_value_at(value: JsonView, names: Seq<Seq<char>>, new: JsonView) -> JsonView
    decreases names.len(),
{
    if names.len() == 0 {
        new
    } else {
        let members = members_of(value);
        let child = if members.contains_key(names[0]) {
            members[names[0]]
        } else {
            JsonView::Object(Map::empty())
        };
        JsonView::Object(
            members.insert(names[0], with_value_at(child, names.drop_first(), new)),
        )
    }
}

/// A value with `new` at a dotted path; the path `$` is the whole value.
pub open spec fn with_path_value(value: JsonView, path: Seq<char>, new: JsonView) -> JsonView {
    if path == "$"@ {
        new
    } else {
        with_value_at(value, pattern::pieces(path, "."@), new)
    }
}

/// Puts a value at the end of the row of member names from index `i` on.
fn put(root: Json, names: &Vec<String>, i: usize, new: Json) -> (r: Json)
    requires
        i <= names@.len(),
    ensures
        r@ == with_value_at(root@, text::texts(names@).skip(i as int), new@),
    decreases names@.len() - i,
{
    let ghost rest = text::texts(names@).skip(i as int);
    if i == names.len() {
        return new;
    }
    proof {
        assert(rest[0] == names@[i as int]@);
        assert(rest.drop_first() == text::texts(names@).skip(i + 1));
    }
    let members = match root {
        Json::Object(members) => members,
        _ => Members::new(),
    };
    let ghost map = members@;
    let (others, child) = members.take(names[i].as_str());
    let inner = match child {
        Some(v) => v,
        None => Json::Object(Members::new()),
    };
    let changed = put(inner, names, i + 1, new);
    proof {
        assert(map.remove(rest[0]).insert(rest[0], changed@) =~= map.insert(rest[0], changed@));
    }
    Json::Object(others.insert(names[i].clone(), changed))
}

/// Sets the value at a dotted path; the path `$` is the whole value.
pub fn set_json_path(root: &mut Json, path: &str, value: Json) -> (r: Result<(), CliError>)
    ensures
        r is Ok,
        final(root)@ == with_path_value(old(root)@, path@, value@),
{
    if same(path, "$") {
        *root = value;
        return Ok(());
    }
    proof {
        reveal_strlit(".");
    }
    let names = split(path, ".");
    let mut whole = Json::Null;
    std::mem::swap(&mut whole, root);
    proof {
        assert(text::texts(names@).skip(0) == text::texts(names@));
    }
    *root = put(whole, &names, 0, value);
    Ok(())
}

/// The decimal text of a JSON number.
pub open spec fn numeral_text(n: NumeralView) -> Seq<char> {
    match n {
        NumeralView::Unsigned(n) => numeral::decimal(n as nat),
        NumeralView::Negative(n) => numeral::signed_decimal(n as int),
        NumeralView::Float(text) => text,
    }
}

/// The words for truth and falsehood.
pub open spec fn bool_text(b: bool) -> Seq<char> {
    if b {
        "true"@
    } else {
        "false"@
    }
}

/// The text of a value in a cell: plain for text, numbers and truth values, empty for nothing, JSON
/// for the rest.
pub open spec fn cell_text(value: Option<JsonView>) -> Seq<char> {
    match value {
        None => seq![],
        Some(JsonView::Null) => seq![],
        Some(JsonView::Text(s)) => s,
        Some(JsonView::Number(n)) => numeral_text(n),
        Some(JsonView::Bool(b)) => bool_text(b),
        Some(v) => match json_text::json_text(v) {
            Ok(text) => text,
            Err(_) => seq![],
        },
    }
}

/// Writes a truth value.
pub fn write_bool(b: bool) -> (r: String)
    ensures
        r@ == bool_text(b),
{
    if b {
        "true".to_string()
    } else {
        "false".to_string()
    }
}

/// The text of a value in a cell.
pub fn value_to_cell(value: Option<&Json>) -> (r: String)
    ensures
        r@ == cell_text(view_of(value)),
{
    match value {
        None => String::new(),
        Some(Json::Null) => String::new(),
        Some(Json::Text(s)) => s.clone(),
        Some(Json::Number(Numeral::Unsigned(n))) => write_decimal(*n),
        Some(Json::Number(Numeral::Negative(n))) => write_signed(*n),
        Some(Json::Number(Numeral::Float(f))) => f.text().to_string(),
        Some(Json::Bool(b)) => write_bool(*b),
        Some(v) => match write_json(v) {
            Ok(text) => text,
            Err(_) => String::new(),
        },
    }
}

/// What is set at a row of member names is read back there.
pub proof fn lemma_set_then_get(value: JsonView, names: Seq<Seq<char>>, new: JsonView)
    ensures
        value_at(with_value_at(value, names, new), names) == Some(new),
    decreases names.len(),
{
    if names.len() > 0 {
        let members = members_of(value);
        let child = if members.contains_key(names[0]) {
            members[names[0]]
        } else {
            JsonView::Object(Map::empty())
        };
        lemma_set_then_get(child, names.drop_first(), new);
    }
}

/// What is set at a dotted path is read back there; the path `$`, which stands for the whole value,
/// is the one exception.
pub proof fn law_set_then_get(value: JsonView, path: Seq<char>, new: JsonView)
    requires
        path != "$"@,
    ensures
        path_value(with_path_value(value, path, new), path) == Some(new),
{
    lemma_set_then_get(value, pattern::pieces(path, "."@), new);
}

/// Whether two rows of names part: at some index they have different names.
pub open spec fn part_ways(a: Seq<Seq<char>>, b: Seq<Seq<char>>) -> bool {
    exists|k: int| 0 <= k < a.len() && k < b.len() && a[k] != b[k]
}

/// What is set at one row of names changes nothing at a row that parts from it.
pub proof fn lemma_set_elsewhere(
    value: JsonView,
    names: Seq<Seq<char>>,
    new: JsonView,
    other: Seq<Seq<char>>,
)
    requires
        part_ways(names, other),
    ensures
        value_at(with_value_at(value, names, new), other) == value_at(value, other),
    decreases names.len(),
{
    let k = choose|k: int| 0 <= k < names.len() && k < other.len() && names[k] != other[k];
    if names[0] == other[0] {
        let members = members_of(value);
        let child = if members.contains_key(names[0]) {
            members[names[0]]
        } else {
            JsonView::Object(Map::empty())
        };
        assert(names.drop_first()[k - 1] != other.drop_first()[k - 1]);
        lemma_set_elsewhere(child, names.drop_first(), new, other.drop_first());
        if !members.contains_key(names[0]) {
            assert(value_at(value, other) is None);
            assert(other.drop_first().len() > 0);
            assert(value_at(child, other.drop_first()) is None);
        }
    }
}

/// What is set at one dotted path changes nothing at a path that parts from it.
pub proof fn law_set_elsewhere(value: JsonView, path: Seq<char>, new: JsonView, other: Seq<char>)
    requires
        path != "$"@,
        part_ways(pattern::pieces(path, "."@), pattern::pieces(other, "."@)),
    ensures
        path_value(with_path_value(value, path, new), other) == path_value(value, other),
{
    lemma_set_elsewhere(value, pattern::pieces(path, "."@), new, pattern::pieces(other, "."@));
}

/// The text in which a value is shown: over several lines, or on one.
pub open spec fn shown(value: JsonView, pretty: bool) -> Result<Seq<char>, Seq<char>> {
    if pretty {
        json_text::pretty_json_text(value)
    } else {
        json_text::json_text(value)
    }
}

/// Writes a value for output, over several lines or on one.
pub fn render_output(value: &Json, pretty: bool) -> (r: Result<String, CliError>)
    ensures
        match r {
            Ok(t) => shown(value@, pretty) == Ok::<Seq<char>, Seq<char>>(t@),
            Err(e) => shown(value@, pretty) == Err::<Seq<char>, Seq<char>>(e@),
        },
{
    let written = if pretty {
        write_pretty_json(value)
    } else {
        write_json(value)
    };
    match written {
        Ok(t) => Ok(t),
        Err(e) => Err(CliError::of(e)),
    }
}

/// The JSON value that was read from a text; where none was, an error with the message handed in.
pub fn value_or(decoded: Result<Json, String>, message: &str) -> (r: Result<Json, CliError>)
    ensures
        match r {
            Ok(v) => decoded == Ok::<Json, String>(v),
            Err(e) => decoded is Err && e@ == message@,
        },
{
    match decoded {
        Ok(v) => Ok(v),
        Err(_) => Err(CliError::new(message)),
    }
}

/// Reads a JSON value from a text; a text that holds none gives the message handed in.
pub fn parse_json(text: &str, message: &str) -> (r: Result<Json, CliError>)
    ensures
        match r {
            Ok(v) => json_text::json_value(text@) == Ok::<JsonView, Seq<char>>(v@),
            Err(e) => json_text::json_value(text@) is Err && e@ == message@,
        },
        r matches Ok(v) ==> pattern::begins(text::trimmed_start(text@), "["@) ==> v@ is Array,
{
    value_or(read_json(text), message)
}

/// Checks that a text holds a JSON value.
pub fn validate_json(value: &str) -> (r: Result<(), CliError>)
    ensures
        match r {
            Ok(_) => json_text::json_value(value@) is Ok,
            Err(e) => json_text::json_value(value@) is Err && e@ == "invalid JSON"@,
        },
{
    match parse_json(value, "invalid JSON") {
        Ok(_) => Ok(()),
        Err(e) => Err(e),
    }
}

/// A dotted path leads from object to object: its first name to the member of that name, and what
/// follows the dot on from there. It leads nowhere from a value that is no object or has no such member.
pub proof fn law_paths_go_name_by_name(value: JsonView, name: Seq<char>, rest: Seq<char>)
    requires
        !name.contains('.'),
    ensures
        path_value(value, name) == match value {
            JsonView::Object(members) => if members.contains_key(name) {
                Some(members[name])
            } else {
                None
            },
            _ => None,
        },
        path_value(value, name + "."@ + rest) == match value {
            JsonView::Object(members) => if members.contains_key(name) {
                path_value(members[name], rest)
            } else {
                None
            },
            _ => None,
        },
{
    reveal_strlit(".");
    let one = seq![name];
    assert forall|i: int| 0 <= i < one.len() implies !(#[trigger] one[i]).contains('.') by {}
    pattern::lemma_join_then_split(one, "."@);
    assert(pattern::joined(one, "."@) == name);
    assert(one.drop_first() =~= Seq::<Seq<char>>::empty());
    pattern::lemma_pieces_front(name, "."@, rest);
    let all = seq![name] + pattern::pieces(rest, "."@);
    assert(all.drop_first() =~= pattern::pieces(rest, "."@));
    reveal_with_fuel(value_at, 2);
}

/// What is set at the path `$` is the whole value.
pub proof fn law_whole_value_is_set(value: JsonView, new: JsonView)
    ensures
        with_path_value(value, "$"@, new) == new,
{
}

/// What a cell shows: a text as it is, a whole number in decimal, the words for truth and falsehood, and
/// nothing for null and for what is missing.
pub proof fn law_cells_show_values(value: JsonView)
    ensures
        cell_text(None) == Seq::<char>::empty(),
        match value {
            JsonView::Null => cell_text(Some(value)).len() == 0,
            JsonView::Text(s) => cell_text(Some(value)) == s,
            JsonView::Bool(b) => cell_text(Some(value)) == if b {
                seq!['t', 'r', 'u', 'e']
            } else {
                seq!['f', 'a', 'l', 's', 'e']
            },
            JsonView::Number(NumeralView::Unsigned(n)) => numeral::int_value(
                cell_text(Some(value)),
                0,
                u64::MAX as int,
            ) == Ok::<int, numeral::IntFault>(n as int),
            JsonView::Number(NumeralView::Negative(n)) => numeral::int_value(
                cell_text(Some(value)),
                i64::MIN as int,
                i64::MAX as int,
            ) == Ok::<int, numeral::IntFault>(n as int),
            JsonView::Number(NumeralView::Float(text)) => cell_text(Some(value)) == text,
            _ => match json_text::json_text(value) {
                Ok(text) => cell_text(Some(value)) == text,
                Err(_) => cell_text(Some(value)).len() == 0,
            },
        },
{
    reveal_strlit("true");
    reveal_strlit("false");
    assert("true"@ =~= seq!['t', 'r', 'u', 'e']);
    assert("false"@ =~= seq!['f', 'a', 'l', 's', 'e']);
    if let JsonView::Number(NumeralView::Unsigned(n)) = value {
        numeral::law_decimal_reads_back(n as int, 0, u64::MAX as int);
    }
    if let JsonView::Number(NumeralView::Negative(n)) = value {
        numeral::law_decimal_reads_back(n as int, i64::MIN as int, i64::MAX as int);
    }
}

} // verus!
