//! The values of arguments: from text to query parameters and JSON values.

use crate::command_tree::{ArgDef, ArgView};
use crate::error::CliError;
use crate::json::{self, Json, JsonView, Numeral, NumeralView};
use crate::json_path::{self, parse_json, validate_json, write_bool};
use crate::json_text::{self, read_float, write_json};
use crate::numeral::{self, parse_int, write_signed};
use crate::pattern::{self, starts_with};
use crate::text::{self, same, to_lower, trim_start};
use vstd::prelude::*;
use vstd::string::StringExecFns;

verus! {

broadcast use crate::json::lemma_view;

/// The truth value that a text spells, in any case of its letters, or the message that it spells none.
pub open spec fn bool_value(value: Seq<char>) -> Result<bool, Seq<char>> {
    let word = text::lowered(value);
    if word == "true"@ || word == "1"@ || word == "yes"@ {
        Ok(true)
    } else if word == "false"@ || word == "0"@ || word == "no"@ {
        Ok(false)
    } else {
        Err("invalid boolean: "@ + value)
    }
}

/// Reads a truth value.
pub fn parse_bool(value: &str) -> (r: Result<bool, CliError>)
    ensures
        match r {
            Ok(b) => bool_value(value@) == Ok::<bool, Seq<char>>(b),
            Err(e) => bool_value(value@) == Err::<bool, Seq<char>>(e@),
        },
{
    let word = to_lower(value);
    let word = word.as_str();
    if same(word, "true") || same(word, "1") || same(word, "yes") {
        Ok(true)
    } else if same(word, "false") || same(word, "0") || same(word, "no") {
        Ok(false)
    } else {
        let mut message = "invalid boolean: ".to_string();
        message.append(value);
        Err(CliError::of(message))
    }
}

/// A floating-point number that was read, as a query parameter: its own text, or the message that
/// there is none.
pub fn query_from_float(reading: Result<(Option<Numeral>, String), String>) -> (r: Result<
    String,
    CliError,
>)
    ensures
        match r {
            Ok(t) => reading matches Ok((_, own)) && t == own,
            Err(e) => reading is Err && e@ == "invalid float"@,
        },
{
    match reading {
        Ok((_, own)) => Ok(own),
        Err(_) => Err(CliError::new("invalid float")),
    }
}

/// A floating-point number that was read, as a JSON value: null where JSON has no such number, or the
/// message of its error.
pub fn scalar_from_float(reading: Result<(Option<Numeral>, String), String>) -> (r: Result<
    Json,
    CliError,
>)
    ensures
        match r {
            Ok(v) => reading matches Ok((number, _)) && v@ == match number {
                Some(n) => JsonView::Number(n@),
                None => JsonView::Null,
            },
            Err(e) => reading matches Err(message) && e@ == message@,
        },
{
    match reading {
        Ok((Some(n), _)) => Ok(Json::Number(n)),
        Ok((None, _)) => Ok(Json::Null),
        Err(message) => Err(CliError::of(message)),
    }
}

/// The text of an argument's value as a query parameter, or the message of the fault.
pub open spec fn query_value(value_type: Seq<char>, value: Seq<char>) -> Result<Seq<char>, Seq<char>> {
    if value_type == "bool"@ {
        match bool_value(value) {
            Ok(b) => Ok(json_path::bool_text(b)),
            Err(e) => Err(e),
        }
    } else if value_type == "int"@ {
        match numeral::int_value(value, i64::MIN as int, i64::MAX as int) {
            Ok(n) => Ok(numeral::signed_decimal(n)),
            Err(_) => Err("invalid integer"@),
        }
    } else if value_type == "float"@ {
        match json_text::float_reading(value) {
            Ok((_, own)) => Ok(own),
            Err(_) => Err("invalid float"@),
        }
    } else if value_type == "json"@ {
        match json_text::json_value(value) {
            Ok(_) => Ok(value),
            Err(_) => Err("invalid JSON"@),
        }
    } else {
        Ok(value)
    }
}

/// A query parameter is settled: read as a value again, it gives itself. A truth value is `true` or
/// `false`, a whole number is in decimal, a floating-point number is in the text that was written for
/// it, and anything else is as it was. A floating-point number is settled where that text is read as a
/// number with the same text.
pub proof fn law_query_values_are_settled(value_type: Seq<char>, value: Seq<char>)
    ensures
        query_value(value_type, value) matches Ok(r) ==> {
            &&& value_type == "float"@ ==> (json_text::float_reading(r) matches Ok(again)
                && again.1 == r) ==> query_value(value_type, r) == Ok::<Seq<char>, Seq<char>>(r)
            &&& value_type != "float"@ ==> query_value(value_type, r) == Ok::<Seq<char>, Seq<char>>(r)
            &&& value_type == "bool"@ ==> r == "true"@ || r == "false"@
            &&& value_type == "int"@ ==> exists|n: int|
                i64::MIN <= n <= i64::MAX && r == #[trigger] numeral::signed_decimal(n)
                    && numeral::int_value(value, i64::MIN as int, i64::MAX as int) == Ok::<
                    int,
                    numeral::IntFault,
                >(n)
            &&& value_type == "float"@ ==> (json_text::float_reading(value) matches Ok(reading)
                && r == reading.1)
            &&& value_type == "json"@ ==> r == value && json_text::json_value(value) is Ok
            &&& value_type != "bool"@ && value_type != "int"@ && value_type != "float"@ && value_type
                != "json"@ ==> r == value
        },
{
    reveal_strlit("bool");
    reveal_strlit("int");
    reveal_strlit("json");
    reveal_strlit("float");
    assert("bool"@[0] == 'b' && "int"@[0] == 'i' && "json"@[0] == 'j' && "float"@[0] == 'f');
    if value_type == "bool"@ {
        reveal_strlit("true");
        reveal_strlit("false");
        reveal_strlit("1");
        reveal_strlit("yes");
        assert(text::lowered("true"@) =~= "true"@);
        assert(text::lowered("false"@) =~= "false"@);
        assert("false"@.len() != "true"@.len() && "false"@.len() != "1"@.len() && "false"@.len()
            != "yes"@.len());
    } else if value_type == "int"@ {
        if let Ok(n) = numeral::int_value(value, i64::MIN as int, i64::MAX as int) {
            numeral::lemma_int_value_in_range(value, i64::MIN as int, i64::MAX as int);
            numeral::law_decimal_reads_back(n, i64::MIN as int, i64::MAX as int);
        }
    }
}

/// Reads the value of an argument as a query parameter.
pub fn parse_query_value(arg: &ArgDef, value: &str) -> (r: Result<String, CliError>)
    ensures
        match r {
            Ok(t) => query_value(arg.value_type@, value@) == Ok::<Seq<char>, Seq<char>>(t@),
            Err(e) => query_value(arg.value_type@, value@) == Err::<Seq<char>, Seq<char>>(e@),
        },
{
    let value_type = arg.value_type.as_str();
    if same(value_type, "bool") {
        match parse_bool(value) {
            Ok(b) => Ok(write_bool(b)),
            Err(e) => Err(e),
        }
    } else if same(value_type, "int") {
        match parse_int(value, i64::MIN, i64::MAX) {
            Ok(n) => Ok(write_signed(n)),
            Err(_) => Err(CliError::new("invalid integer")),
        }
    } else if same(value_type, "float") {
        query_from_float(read_float(value))
    } else if same(value_type, "json") {
        match validate_json(value) {
            Ok(_) => Ok(value.to_string()),
            Err(e) => Err(e),
        }
    } else {
        Ok(value.to_string())
    }
}

/// A whole number as a JSON value.
pub open spec fn int_tree(n: int) -> JsonView {
    if n >= 0 {
        JsonView::Number(NumeralView::Unsigned(n as u64))
    } else {
        JsonView::Number(NumeralView::Negative(n as i64))
    }
}

/// The JSON value of an argument's value, or the message of the fault.
pub open spec fn scalar_value(arg: ArgView, value: Seq<char>) -> Result<JsonView, Seq<char>> {
    if arg.nullable && value == "null"@ {
        Ok(JsonView::Null)
    } else if arg.value_type == "int"@ {
        match numeral::int_value(value, i64::MIN as int, i64::MAX as int) {
            Ok(n) => Ok(int_tree(n)),
            Err(fault) => Err(numeral::fault_text(fault)),
        }
    } else if arg.value_type == "float"@ {
        match json_text::float_reading(value) {
            Ok((Some(n), _)) => Ok(JsonView::Number(n)),
            Ok((None, _)) => Ok(JsonView::Null),
            Err(e) => Err(e),
        }
    } else if arg.value_type == "bool"@ {
        match bool_value(value) {
            Ok(b) => Ok(JsonView::Bool(b)),
            Err(e) => Err(e),
        }
    } else if arg.value_type == "json"@ {
        match json_text::json_value(value) {
            Ok(v) => Ok(v),
            Err(_) => Err("invalid JSON value"@),
        }
    } else {
        Ok(JsonView::Text(value))
    }
}

/// Reads the value of an argument as a JSON value.
pub fn parse_scalar_value(arg: &ArgDef, value: &str) -> (r: Result<Json, CliError>)
    ensures
        match r {
            Ok(v) => scalar_value(arg@, value@) == Ok::<JsonView, Seq<char>>(v@),
            Err(e) => scalar_value(arg@, value@) == Err::<JsonView, Seq<char>>(e@),
        },
{
    if arg.nullable && same(value, "null") {
        return Ok(Json::Null);
    }
    let value_type = arg.value_type.as_str();
    if same(value_type, "int") {
        match parse_int(value, i64::MIN, i64::MAX) {
            Ok(n) => if n >= 0 {
                Ok(Json::Number(Numeral::Unsigned(n as u64)))
            } else {
                Ok(Json::Number(Numeral::Negative(n)))
            },
            Err(fault) => Err(CliError::of(fault.message())),
        }
    } else if same(value_type, "float") {
        scalar_from_float(read_float(value))
    } else if same(value_type, "bool") {
        match parse_bool(value) {
            Ok(b) => Ok(Json::Bool(b)),
            Err(e) => Err(e),
        }
    } else if same(value_type, "json") {
        parse_json(value, "invalid JSON value")
    } else {
        Ok(Json::Text(value.to_string()))
    }
}

/// Whether the values of a list argument are one text that looks like a JSON list.
pub open spec fn is_json_list(values: Seq<Seq<char>>) -> bool {
    values.len() == 1 && pattern::begins(text::trimmed_start(values[0]), "["@)
}

/// Tells whether the values of a list argument are one text that looks like a JSON list.
pub fn looks_like_json_list(values: &Vec<String>) -> (r: bool)
    ensures
        r == is_json_list(text::texts(values@)),
{
    values.len() == 1 && starts_with(trim_start(values[0].as_str()).as_str(), "[")
}

/// The JSON values of the values of an argument, or the message of the first fault.
pub open spec fn scalar_values(arg: ArgView, values: Seq<Seq<char>>) -> Result<
    Seq<JsonView>,
    Seq<char>,
>
    decreases values.len(),
{
    if values.len() == 0 {
        Ok(seq![])
    } else {
        match scalar_values(arg, values.drop_last()) {
            Err(e) => Err(e),
            Ok(list) => match scalar_value(arg, values.last()) {
                Ok(v) => Ok(list.push(v)),
                Err(e) => Err(e),
            },
        }
    }
}

/// The JSON value of a list argument, or the message of the fault: what its one value holds where that
/// looks like a JSON list, else the list of its values.
pub open spec fn list_value(arg: ArgView, values: Seq<Seq<char>>) -> Result<JsonView, Seq<char>> {
    if is_json_list(values) {
        match json_text::json_value(values[0]) {
            Ok(v) => Ok(v),
            Err(_) => Err("invalid JSON list"@),
        }
    } else {
        match scalar_values(arg, values) {
            Ok(list) => Ok(JsonView::Array(list)),
            Err(e) => Err(e),
        }
    }
}

/// A fault in the first values is the fault of all of them.
proof fn lemma_first_fault(arg: ArgView, values: Seq<Seq<char>>, n: int)
    requires
        0 <= n <= values.len(),
        scalar_values(arg, values.take(n)) is Err,
    ensures
        scalar_values(arg, values) == scalar_values(arg, values.take(n)),
    decreases values.len(),
{
    if n < values.len() {
        assert(values.drop_last().take(n) =~= values.take(n));
        lemma_first_fault(arg, values.drop_last(), n);
    } else {
        assert(values.take(n) =~= values);
    }
}

/// Reads the values of a list argument as a JSON value.
pub fn parse_list_value(arg: &ArgDef, values: &Vec<String>) -> (r: Result<Json, CliError>)
    ensures
        match r {
            Ok(v) => list_value(arg@, text::texts(values@)) == Ok::<JsonView, Seq<char>>(v@),
            Err(e) => list_value(arg@, text::texts(values@)) == Err::<JsonView, Seq<char>>(e@),
        },
        r matches Ok(v) ==> v@ is Array,
{
    if looks_like_json_list(values) {
        return parse_json(values[0].as_str(), "invalid JSON list");
    }
    let ghost all = text::texts(values@);
    let mut out: Vec<Json> = Vec::new();
    let mut i: usize = 0;
    proof {
        json::lemma_trees(out@);
        assert(json::trees(out@) =~= seq![]);
        assert(all.take(0) =~= seq![]);
    }
    while i < values.len()
        invariant
            i <= values@.len(),
            all == text::texts(values@),
            !is_json_list(all),
            scalar_values(arg@, all.take(i as int)) == Ok::<Seq<JsonView>, Seq<char>>(
                json::trees(out@),
            ),
        decreases values@.len() - i,
    {
        proof {
            assert(all.take(i + 1).drop_last() =~= all.take(i as int));
            assert(all.take(i + 1).last() == values@[i as int]@);
        }
        match parse_scalar_value(arg, values[i].as_str()) {
            Ok(v) => {
                proof {
                    json::lemma_trees_push(out@, v);
                }
                out.push(v);
            },
            Err(e) => {
                proof {
                    lemma_first_fault(arg@, all, i + 1);
                }
                return Err(e);
            },
        }
        i = i + 1;
    }
    proof {
        assert(all.take(i as int) =~= all);
    }
    Ok(Json::Array(out))
}

/// A list can be given by repeating its flag or as one JSON list: a text in brackets that reads as the
/// list of some values gives what those values give one by one, unless they are themselves one text
/// that looks like a JSON list.
pub proof fn law_lists_have_two_forms(
    arg: ArgView,
    one: Seq<char>,
    values: Seq<Seq<char>>,
    list: Seq<JsonView>,
)
    requires
        pattern::begins(text::trimmed_start(one), "["@),
        json_text::json_value(one) == Ok::<JsonView, Seq<char>>(JsonView::Array(list)),
        scalar_values(arg, values) == Ok::<Seq<JsonView>, Seq<char>>(list),
        !is_json_list(values),
    ensures
        list_value(arg, seq![one]) == list_value(arg, values),
{
}

/// Texts as a JSON value.
pub open spec fn text_list(values: Seq<Seq<char>>) -> JsonView {
    JsonView::Array(Seq::new(values.len(), |i: int| JsonView::Text(values[i])))
}

/// Writes texts as one JSON list, the other form in which a list argument can be given: it is read as
/// the list of the texts, whatever the argument, and where the values of the argument are taken as they
/// are, that is what the texts give one by one.
pub fn write_list(values: &Vec<String>) -> (r: Result<String, CliError>)
    ensures
        ({
            let list = text::texts(values@);
            match r {
                Ok(t) => {
                    &&& json_text::json_text(text_list(list)) == Ok::<Seq<char>, Seq<char>>(t@)
                    &&& is_json_list(seq![t@])
                    &&& forall|arg: ArgView| #[trigger]
                        list_value(arg, seq![t@]) == Ok::<JsonView, Seq<char>>(text_list(list))
                    &&& forall|arg: ArgView|
                        is_plain(arg) && !is_json_list(list) && !(arg.nullable && list.contains(
                            "null"@,
                        )) ==> #[trigger] list_value(arg, list) == list_value(arg, seq![t@])
                },
                Err(e) => json_text::json_text(text_list(list)) == Err::<Seq<char>, Seq<char>>(e@),
            }
        }),
{
    let ghost list = text::texts(values@);
    let ghost want = text_list(list)->Array_0;
    let mut items: Vec<Json> = Vec::new();
    let mut i: usize = 0;
    proof {
        json::lemma_trees(items@);
        assert(json::trees(items@) =~= want.take(0));
    }
    while i < values.len()
        invariant
            i <= values@.len(),
            list == text::texts(values@),
            want == text_list(list)->Array_0,
            json::trees(items@) == want.take(i as int),
        decreases values@.len() - i,
    {
        let item = Json::Text(values[i].clone());
        proof {
            json::lemma_trees_push(items@, item);
            assert(want.take(i + 1) =~= want.take(i as int).push(item@));
        }
        items.push(item);
        i = i + 1;
    }
    proof {
        assert(want.take(i as int) =~= want);
    }
    match write_json(&Json::Array(items)) {
        Ok(t) => {
            proof {
                reveal_strlit("[");
                assert(text::trimmed_start(t@) == t@);
                assert(t@.take(1) =~= "["@);
                assert forall|arg: ArgView|
                    is_plain(arg) && !is_json_list(list) && !(arg.nullable && list.contains(
                        "null"@,
                    )) implies #[trigger] list_value(arg, list) == list_value(arg, seq![t@]) by {
                    law_plain_values_are_texts(arg, list);
                }
            }
            Ok(t)
        },
        Err(e) => Err(CliError::of(e)),
    }
}

/// Whether an argument's values are taken as they are.
pub open spec fn is_plain(arg: ArgView) -> bool {
    &&& arg.value_type != "int"@
    &&& arg.value_type != "float"@
    &&& arg.value_type != "bool"@
    &&& arg.value_type != "json"@
}

/// The values of an argument that are taken as they are give the list of their texts, unless one of
/// them stands for null.
pub proof fn law_plain_values_are_texts(arg: ArgView, values: Seq<Seq<char>>)
    requires
        is_plain(arg),
        arg.nullable ==> forall|i: int| 0 <= i < values.len() ==> #[trigger] values[i] != "null"@,
    ensures
        scalar_values(arg, values) == Ok::<Seq<JsonView>, Seq<char>>(
            Seq::new(values.len(), |i: int| JsonView::Text(values[i])),
        ),
    decreases values.len(),
{
    let want = Seq::new(values.len(), |i: int| JsonView::Text(values[i]));
    if values.len() == 0 {
        assert(want =~= seq![]);
    } else {
        let others = values.drop_last();
        assert forall|i: int| arg.nullable && 0 <= i < others.len() implies #[trigger] others[i]
            != "null"@ by {
            assert(values[i] != "null"@);
        }
        assert(arg.nullable ==> values[values.len() - 1] != "null"@);
        law_plain_values_are_texts(arg, others);
        let front = Seq::new(others.len(), |i: int| JsonView::Text(others[i]));
        assert(front.push(JsonView::Text(values.last())) =~= want);
    }
}

/// Whether the values of a list argument are one JSON list is told by the first character that is no
/// white space, of a single value: an opening bracket.
pub proof fn law_json_lists_begin_with_a_bracket(values: Seq<Seq<char>>)
    ensures
        is_json_list(values) <==> values.len() == 1 && exists|k: int|
            0 <= k < values[0].len() && #[trigger] values[0][k] == '[' && forall|i: int|
                0 <= i < k ==> text::is_white(#[trigger] values[0][i]),
{
    if values.len() == 1 {
        reveal_strlit("[");
        lemma_first_dark(values[0]);
        let rest = text::trimmed_start(values[0]);
        if rest.len() > 0 {
            assert(rest.take(1) =~= seq![rest[0]]);
            assert("["@ =~= seq!['[']);
            assert(pattern::begins(rest, "["@) <==> rest[0] == '[') by {
                if rest.take(1) == "["@ {
                    assert(rest.take(1)[0] == '[');
                }
            }
        }
        let k = values[0].len() - rest.len();
        if is_json_list(values) {
            assert(values[0][k] == '[');
        }
        assert forall|m: int|
            0 <= m < values[0].len() && #[trigger] values[0][m] == '[' && (forall|i: int|
                0 <= i < m ==> text::is_white(#[trigger] values[0][i])) implies m == k by {
            assert(!text::is_white('['));
            if m < k {
                assert(text::is_white(values[0][m]));
            }
            if m > k {
                assert(text::is_white(values[0][k]));
            }
        }
    }
}

/// What is left of a text without its first white space begins with its first other character.
proof fn lemma_first_dark(s: Seq<char>)
    ensures
        ({
            let rest = text::trimmed_start(s);
            let k = s.len() - rest.len();
            &&& 0 <= k <= s.len()
            &&& rest == s.skip(k)
            &&& forall|i: int| 0 <= i < k ==> text::is_white(#[trigger] s[i])
            &&& k < s.len() ==> !text::is_white(s[k])
        }),
    decreases s.len(),
{
    if s.len() > 0 && text::is_white(s[0]) {
        let t = s.drop_first();
        lemma_first_dark(t);
        let rest = text::trimmed_start(t);
        let k = t.len() - rest.len();
        assert(t.skip(k) =~= s.skip(k + 1));
        assert forall|i: int| 0 <= i < k + 1 implies text::is_white(#[trigger] s[i]) by {
            if i > 0 {
                assert(s[i] == t[i - 1]);
            }
        }
    } else {
        assert(s.skip(0) =~= s);
    }
}

/// A list argument gives a list: one item for each of its values, in their order, one value included,
/// unless they are one JSON list. The first value that is at fault decides the message.
pub proof fn law_list_values_are_lists(arg: ArgView, values: Seq<Seq<char>>)
    requires
        !is_json_list(values),
    ensures
        match list_value(arg, values) {
            Ok(v) => v matches JsonView::Array(items) && items.len() == values.len() && forall|i: int|
                0 <= i < values.len() ==> scalar_value(arg, #[trigger] values[i]) == Ok::<
                    JsonView,
                    Seq<char>,
                >(items[i]),
            Err(e) => exists|i: int|
                0 <= i < values.len() && scalar_value(arg, #[trigger] values[i]) == Err::<
                    JsonView,
                    Seq<char>,
                >(e) && forall|j: int|
                    0 <= j < i ==> scalar_value(arg, #[trigger] values[j]) is Ok,
        },
{
    lemma_scalar_values(arg, values);
}

/// The values of an argument, one by one.
proof fn lemma_scalar_values(arg: ArgView, values: Seq<Seq<char>>)
    ensures
        match scalar_values(arg, values) {
            Ok(items) => items.len() == values.len() && forall|i: int|
                0 <= i < values.len() ==> scalar_value(arg, #[trigger] values[i]) == Ok::<
                    JsonView,
                    Seq<char>,
                >(items[i]),
            Err(e) => exists|i: int|
                0 <= i < values.len() && scalar_value(arg, #[trigger] values[i]) == Err::<
                    JsonView,
                    Seq<char>,
                >(e) && forall|j: int|
                    0 <= j < i ==> scalar_value(arg, #[trigger] values[j]) is Ok,
        },
    decreases values.len(),
{
    if values.len() > 0 {
        let front = values.drop_last();
        let last = values.len() - 1;
        lemma_scalar_values(arg, front);
        match scalar_values(arg, front) {
            Ok(items) => {
                assert forall|j: int| 0 <= j < last implies scalar_value(
                    arg,
                    #[trigger] values[j],
                ) == Ok::<JsonView, Seq<char>>(items[j]) by {
                    assert(front[j] == values[j]);
                }
                assert(values[last] == values.last());
            },
            Err(e) => {
                let i = choose|i: int|
                    0 <= i < front.len() && scalar_value(arg, #[trigger] front[i]) == Err::<
                        JsonView,
                        Seq<char>,
                    >(e) && forall|j: int|
                        0 <= j < i ==> scalar_value(arg, #[trigger] front[j]) is Ok;
                assert(front[i] == values[i]);
                assert forall|j: int| 0 <= j < i implies scalar_value(
                    arg,
                    #[trigger] values[j],
                ) is Ok by {
                    assert(front[j] == values[j]);
                }
            },
        }
    }
}

/// A value says the same in a query and in a body: what a cell shows of the JSON value of a whole
/// number, a truth value or a text is the query parameter for it. Where there is a JSON value there is a
/// query parameter, and the other way round; `null` alone may stand for nothing in a body.
pub proof fn law_values_say_the_same(arg: ArgView, value: Seq<char>)
    requires
        arg.value_type != "float"@,
        arg.value_type != "json"@,
        !(arg.nullable && value == "null"@),
    ensures
        scalar_value(arg, value) is Ok <==> query_value(arg.value_type, value) is Ok,
        scalar_value(arg, value) matches Ok(v) ==> query_value(arg.value_type, value) == Ok::<
            Seq<char>,
            Seq<char>,
        >(json_path::cell_text(Some(v))),
        arg.value_type == "int"@ ==> (scalar_value(arg, value) matches Ok(v) ==> v is Number),
        arg.value_type == "bool"@ ==> (scalar_value(arg, value) matches Ok(v) ==> v is Bool),
        arg.value_type != "int"@ && arg.value_type != "bool"@ ==> scalar_value(arg, value) == Ok::<
            JsonView,
            Seq<char>,
        >(JsonView::Text(value)),
{
    reveal_strlit("bool");
    reveal_strlit("int");
    assert("bool"@.len() != "int"@.len());
    if arg.value_type == "int"@ {
        numeral::lemma_int_value_in_range(value, i64::MIN as int, i64::MAX as int);
    }
}

/// A value that may be null is, where it says so.
pub proof fn law_null_is_null(arg: ArgView)
    requires
        arg.nullable,
    ensures
        scalar_value(arg, "null"@) == Ok::<JsonView, Seq<char>>(JsonView::Null),
{
}

/// The words for truth and falsehood are read in any case of their letters, and no other text is read.
pub proof fn law_truth_values(value: Seq<char>, word: Seq<char>)
    requires
        value.len() == word.len(),
        forall|i: int|
            0 <= i < word.len() ==> 'a' <= #[trigger] word[i] <= 'z' || '0' <= word[i] <= '9',
        forall|i: int|
            0 <= i < word.len() ==> #[trigger] value[i] == word[i] || value[i] as int + 32
                == word[i] as int && 'A' <= value[i] <= 'Z',
    ensures
        bool_value(value) == Ok::<bool, Seq<char>>(true) <==> word == "true"@ || word == "yes"@
            || word == "1"@,
        bool_value(value) == Ok::<bool, Seq<char>>(false) <==> word == "false"@ || word == "no"@
            || word == "0"@,
{
    assert(text::lowered(value) =~= word) by {
        assert forall|i: int| 0 <= i < word.len() implies text::lower(value[i]) == word[i] by {
            assert(value[i] == word[i] || value[i] as int + 32 == word[i] as int);
            assert('a' <= word[i] <= 'z' || '0' <= word[i] <= '9');
        }
    }
    reveal_strlit("true");
    reveal_strlit("yes");
    reveal_strlit("1");
    reveal_strlit("false");
    reveal_strlit("no");
    reveal_strlit("0");
    assert("true"@[0] == 't' && "yes"@[0] == 'y' && "1"@[0] == '1' && "false"@[0] == 'f'
        && "no"@[0] == 'n' && "0"@[0] == '0');
}

/// A floating-point number is read once for both: its text goes into a query, and its number into a
/// body, or null where JSON has none. A JSON value goes into a body as what it reads as.
pub proof fn law_read_values(arg: ArgView, value: Seq<char>)
    requires
        !(arg.nullable && value == "null"@),
    ensures
        arg.value_type == "float"@ ==> match json_text::float_reading(value) {
            Ok((number, own)) => query_value(arg.value_type, value) == Ok::<Seq<char>, Seq<char>>(own)
                && scalar_value(arg, value) == Ok::<JsonView, Seq<char>>(
                match number {
                    Some(n) => JsonView::Number(n),
                    None => JsonView::Null,
                },
            ),
            Err(e) => query_value(arg.value_type, value) is Err && scalar_value(arg, value) == Err::<
                JsonView,
                Seq<char>,
            >(e),
        },
        arg.value_type == "json"@ ==> match json_text::json_value(value) {
            Ok(v) => query_value(arg.value_type, value) == Ok::<Seq<char>, Seq<char>>(value)
                && scalar_value(arg, value) == Ok::<JsonView, Seq<char>>(v),
            Err(_) => query_value(arg.value_type, value) is Err && scalar_value(arg, value) is Err,
        },
{
    reveal_strlit("bool");
    reveal_strlit("int");
    reveal_strlit("float");
    reveal_strlit("json");
    assert("bool"@[0] == 'b' && "int"@[0] == 'i' && "float"@[0] == 'f' && "json"@[0] == 'j');
}

/// A single value that is a JSON list is read as what it holds, or refused; whole numbers of 64 bits, with
/// a sign or none, are taken, and no others; the words for truth and falsehood alone are truth values.
pub proof fn law_what_is_taken(arg: ArgView, value: Seq<char>)
    ensures
        is_json_list(seq![value]) ==> list_value(arg, seq![value]) == match json_text::json_value(
            value,
        ) {
            Ok(v) => Ok::<JsonView, Seq<char>>(v),
            Err(_) => Err::<JsonView, Seq<char>>("invalid JSON list"@),
        },
        query_value("int"@, value) == match numeral::int_value(
            value,
            -0x8000_0000_0000_0000,
            0x7fff_ffff_ffff_ffff,
        ) {
            Ok(n) => Ok::<Seq<char>, Seq<char>>(numeral::signed_decimal(n)),
            Err(_) => Err::<Seq<char>, Seq<char>>("invalid integer"@),
        },
        query_value("bool"@, value) is Ok <==> text::lowered(value) == "true"@ || text::lowered(value)
            == "1"@ || text::lowered(value) == "yes"@ || text::lowered(value) == "false"@
            || text::lowered(value) == "0"@ || text::lowered(value) == "no"@,
{
    reveal_strlit("bool");
    reveal_strlit("int");
    assert("bool"@.len() != "int"@.len());
}

} // verus!
