//! Filters on event rows: the `--where` clauses, and the projection of rows to selected fields.

use crate::error::CliError;
use crate::fields::{self, unquote};
use crate::json::{Json, JsonView, Members};
use crate::json_path::{self, get_path, set_json_path, value_to_cell};
use crate::pattern::{self, split, split_once};
use crate::text::{self, same, trim};
use vstd::prelude::*;
use vstd::string::StringExecFns;

verus! {

broadcast use crate::json::lemma_view;

/// How a filter compares.
#[derive(Clone, Copy, Debug, PartialEq, Eq, Structural)]
pub enum FilterOp {
    Eq,
    Ne,
}

/// One condition on a row: the text at a path is, or is not, a value.
#[derive(Debug, PartialEq, Eq)]
pub struct Filter {
    pub path: String,
    pub op: FilterOp,
    pub value: String,
}

/// What a filter says.
#[verifier::ext_equal]
pub struct FilterView {
    pub path: Seq<char>,
    pub op: FilterOp,
    pub value: Seq<char>,
}

impl View for Filter {
    type V = FilterView;

    open spec fn view(&self) -> FilterView {
        FilterView { path: self.path@, op: self.op, value: self.value@ }
    }
}

/// What a list of filters says.
pub open spec fn filter_views(filters: Seq<Filter>) -> Seq<FilterView> {
    Seq::new(filters.len(), |i: int| filters[i]@)
}

/// The filter that a clause spells, or the message that refuses it.
pub open spec fn clause_filter(clause: Seq<char>) -> Result<FilterView, Seq<char>> {
    let clause = text::trimmed(clause);
    match pattern::sides(clause, "!="@) {
        Some(s) => Ok(
            FilterView {
                path: text::trimmed(s.0),
                op: FilterOp::Ne,
                value: fields::unquoted(text::trimmed(s.1)),
            },
        ),
        None => match pattern::sides(clause, "="@) {
            Some(s) => Ok(
                FilterView {
                    path: text::trimmed(s.0),
                    op: FilterOp::Eq,
                    value: fields::unquoted(text::trimmed(s.1)),
                },
            ),
            None => Err("invalid --where clause: "@ + clause),
        },
    }
}

/// The filters that clauses spell, or the message that refuses the first bad one.
pub open spec fn clause_filters(clauses: Seq<Seq<char>>) -> Result<Seq<FilterView>, Seq<char>>
    decreases clauses.len(),
{
    if clauses.len() == 0 {
        Ok(seq![])
    } else {
        match clause_filters(clauses.drop_last()) {
            Err(e) => Err(e),
            Ok(done) => match clause_filter(clauses.last()) {
                Err(e) => Err(e),
                Ok(f) => Ok(done.push(f)),
            },
        }
    }
}

/// The filters of a `--where` text: clauses with ` and ` between them.
pub open spec fn where_filters(raw: Option<Seq<char>>) -> Result<Seq<FilterView>, Seq<char>> {
    match raw {
        None => Ok(seq![]),
        Some(raw) => clause_filters(pattern::pieces(raw, " and "@)),
    }
}

/// Once a clause is bad, what follows it does not matter.
proof fn lemma_bad_clause(clauses: Seq<Seq<char>>, k: int)
    requires
        0 <= k <= clauses.len(),
        clause_filters(clauses.take(k)) is Err,
    ensures
        clause_filters(clauses) == clause_filters(clauses.take(k)),
    decreases clauses.len(),
{
    if k < clauses.len() {
        assert(clauses.drop_last().take(k) == clauses.take(k));
        lemma_bad_clause(clauses.drop_last(), k);
    } else {
        assert(clauses.take(k) == clauses);
    }
}

/// Reads one clause of a `--where` text.
fn parse_clause(clause: &str) -> (r: Result<Filter, CliError>)
    ensures
        match r {
            Ok(f) => clause_filter(clause@) == Ok::<FilterView, Seq<char>>(f@),
            Err(e) => clause_filter(clause@) == Err::<FilterView, Seq<char>>(e@),
        },
{
    let part = trim(clause);
    if let Some((path, value)) = split_once(part.as_str(), "!=") {
        return Ok(
            Filter {
                path: trim(path.as_str()),
                op: FilterOp::Ne,
                value: unquote(trim(value.as_str()).as_str()),
            },
        );
    }
    if let Some((path, value)) = split_once(part.as_str(), "=") {
        return Ok(
            Filter {
                path: trim(path.as_str()),
                op: FilterOp::Eq,
                value: unquote(trim(value.as_str()).as_str()),
            },
        );
    }
    let mut message = "invalid --where clause: ".to_string();
    message.append(part.as_str());
    Err(CliError::of(message))
}

/// Reads the filters of a `--where` text.
pub fn parse_where(raw: Option<&str>) -> (r: Result<Vec<Filter>, CliError>)
    ensures
        match r {
            Ok(filters) => where_filters(text::text_of(raw)) == Ok::<Seq<FilterView>, Seq<char>>(
                filter_views(filters@),
            ),
            Err(e) => where_filters(text::text_of(raw)) == Err::<Seq<FilterView>, Seq<char>>(e@),
        },
{
    let mut out: Vec<Filter> = Vec::new();
    proof {
        assert(filter_views(out@) =~= seq![]);
    }
    let given = match raw {
        Some(given) => given,
        None => return Ok(out),
    };
    proof {
        reveal_strlit(" and ");
    }
    let parts = split(given, " and ");
    let ghost clauses = text::texts(parts@);
    let mut i: usize = 0;
    while i < parts.len()
        invariant
            i <= parts@.len(),
            clauses == text::texts(parts@),
            clause_filters(clauses.take(i as int)) == Ok::<Seq<FilterView>, Seq<char>>(
                filter_views(out@),
            ),
            text::text_of(raw) == Some(given@),
            clauses == pattern::pieces(given@, " and "@),
        decreases parts@.len() - i,
    {
        proof {
            assert(clauses.take(i + 1).drop_last() == clauses.take(i as int));
            assert(clauses.take(i + 1).last() == parts@[i as int]@);
        }
        match parse_clause(parts[i].as_str()) {
            Ok(f) => {
                proof {
                    assert(filter_views(out@.push(f)) =~= filter_views(out@).push(f@));
                }
                out.push(f);
            },
            Err(e) => {
                proof {
                    lemma_bad_clause(clauses, i + 1);
                }
                return Err(e);
            },
        }
        i = i + 1;
    }
    proof {
        assert(clauses.take(i as int) == clauses);
    }
    Ok(out)
}

/// Whether a row meets a filter: the text in its cell is, or is not, the value.
pub open spec fn meets(row: JsonView, filter: FilterView) -> bool {
    let actual = json_path::cell_text(json_path::path_value(row, filter.path));
    match filter.op {
        FilterOp::Eq => actual == filter.value,
        FilterOp::Ne => actual != filter.value,
    }
}

/// Whether a row meets every filter.
pub open spec fn meets_all(row: JsonView, filters: Seq<FilterView>) -> bool {
    forall|i: int| 0 <= i < filters.len() ==> meets(row, #[trigger] filters[i])
}

/// Whether a row meets every filter.
pub fn matches_filters(row: &Json, filters: &Vec<Filter>) -> (r: bool)
    ensures
        r == meets_all(row@, filter_views(filters@)),
{
    let mut i: usize = 0;
    while i < filters.len()
        invariant
            i <= filters@.len(),
            forall|j: int| 0 <= j < i ==> meets(row@, #[trigger] filter_views(filters@)[j]),
        decreases filters@.len() - i,
    {
        let filter = &filters[i];
        let actual = value_to_cell(get_path(row, filter.path.as_str()));
        let equal = same(actual.as_str(), filter.value.as_str());
        let met = match filter.op {
            FilterOp::Eq => equal,
            FilterOp::Ne => !equal,
        };
        proof {
            assert(filter_views(filters@)[i as int] == filters@[i as int]@);
        }
        if !met {
            return false;
        }
        i = i + 1;
    }
    true
}

/// What a row has at a path, or nothing.
pub open spec fn selected(row: JsonView, field: Seq<char>) -> JsonView {
    match json_path::path_value(row, field) {
        Some(v) => v,
        None => JsonView::Null,
    }
}

/// An object with what a row has at each of the paths, set one after the other.
pub open spec fn picked(row: JsonView, select: Seq<Seq<char>>) -> JsonView
    decreases select.len(),
{
    if select.len() == 0 {
        JsonView::Object(Map::empty())
    } else {
        json_path::with_path_value(
            picked(row, select.drop_last()),
            select.last(),
            selected(row, select.last()),
        )
    }
}

/// A row with the selected paths alone; the whole row where none is selected.
pub open spec fn projection(row: JsonView, select: Seq<Seq<char>>) -> JsonView {
    if select.len() == 0 {
        row
    } else {
        picked(row, select)
    }
}

/// Projects a row to the selected paths.
pub fn project_row(row: &Json, select: &Vec<String>) -> (r: Result<Json, CliError>)
    ensures
        match r {
            Ok(v) => v@ == projection(row@, text::texts(select@)),
            Err(_) => false,
        },
{
    if select.is_empty() {
        return Ok(row.clone());
    }
    let mut out = Json::Object(Members::new());
    let mut i: usize = 0;
    let ghost all = text::texts(select@);
    while i < select.len()
        invariant
            i <= select@.len(),
            all == text::texts(select@),
            out@ == picked(row@, all.take(i as int)),
        decreases select@.len() - i,
    {
        let value = match get_path(row, select[i].as_str()) {
            Some(v) => v.clone(),
            None => Json::Null,
        };
        proof {
            assert(all.take(i + 1).drop_last() == all.take(i as int));
            assert(all.take(i + 1).last() == select@[i as int]@);
        }
        if let Err(e) = set_json_path(&mut out, select[i].as_str(), value) {
            return Err(e);
        }
        i = i + 1;
    }
    proof {
        assert(all.take(i as int) == all);
    }
    Ok(out)
}

/// The names on a dotted path.
pub open spec fn names_of(path: Seq<char>) -> Seq<Seq<char>> {
    pattern::pieces(path, "."@)
}

/// Whether a row of names leads through another: it goes on where the other ends.
pub open spec fn leads_through(a: Seq<Seq<char>>, b: Seq<Seq<char>>) -> bool {
    b.len() < a.len() && a.take(b.len() as int) == b
}

/// Two paths neither of which leads through the other part ways, unless they are the same path.
proof fn lemma_same_or_part(a: Seq<char>, b: Seq<char>)
    requires
        !leads_through(names_of(a), names_of(b)),
        !leads_through(names_of(b), names_of(a)),
    ensures
        a == b || json_path::part_ways(names_of(a), names_of(b)),
{
    reveal_strlit(".");
    pattern::lemma_split_then_join(a, "."@);
    pattern::lemma_split_then_join(b, "."@);
    let x = names_of(a);
    let y = names_of(b);
    if !json_path::part_ways(x, y) {
        assert forall|k: int| 0 <= k < x.len() && k < y.len() implies x[k] == y[k] by {}
        if x.len() < y.len() {
            assert(y.take(x.len() as int) =~= x);
        } else if y.len() < x.len() {
            assert(x.take(y.len() as int) =~= y);
        } else {
            assert(x =~= y);
        }
    }
}

/// A projected row has at every selected path what the row has there, and nothing where the row has
/// nothing, as long as no path selected after it leads through it or it through that, and none from it
/// on is the whole row `$`. The path may be selected more than once.
pub proof fn law_projection_has_the_selected(row: JsonView, select: Seq<Seq<char>>, i: int)
    requires
        0 <= i < select.len(),
        forall|j: int| i <= j < select.len() ==> #[trigger] select[j] != "$"@,
        forall|j: int|
            i < j < select.len() ==> !leads_through(
                names_of(#[trigger] select[j]),
                names_of(select[i]),
            ) && !leads_through(names_of(select[i]), names_of(select[j])),
    ensures
        json_path::path_value(projection(row, select), select[i]) == Some(selected(row, select[i])),
    decreases select.len(),
{
    let front = select.drop_last();
    let last = select[select.len() - 1];
    assert(last != "$"@);
    if last == select[i] {
        json_path::law_set_then_get(picked(row, front), last, selected(row, last));
    } else {
        assert forall|j: int| i <= j < front.len() implies #[trigger] front[j] != "$"@ by {
            assert(select[j] != "$"@);
        }
        assert forall|j: int| i < j < front.len() implies !leads_through(
            names_of(#[trigger] front[j]),
            names_of(front[i]),
        ) && !leads_through(names_of(front[i]), names_of(front[j])) by {
            assert(front[j] == select[j]);
        }
        law_projection_has_the_selected(row, front, i);
        lemma_same_or_part(last, select[i]);
        json_path::law_set_elsewhere(picked(row, front), last, selected(row, last), select[i]);
    }
}

/// What a value, where there is one, has at the end of a row of names; nothing where it has none.
spec fn chosen(row: Option<JsonView>, names: Seq<Seq<char>>) -> JsonView {
    match row {
        Some(v) => match json_path::value_at(v, names) {
            Some(x) => x,
            None => JsonView::Null,
        },
        None => JsonView::Null,
    }
}

/// A value, or an empty object where there is none.
spec fn or_empty(value: Option<JsonView>) -> JsonView {
    match value {
        Some(v) => v,
        None => JsonView::Object(Map::empty()),
    }
}

/// The member of a value, where it has one of the name.
spec fn member_of(value: Option<JsonView>, name: Seq<char>) -> Option<JsonView> {
    match value {
        Some(JsonView::Object(members)) => if members.contains_key(name) {
            Some(members[name])
        } else {
            None
        },
        _ => None,
    }
}

/// A value with what a row has at each of some rows of names, set one after the other.
spec fn laid(
    row: Option<JsonView>,
    list: Seq<Seq<Seq<char>>>,
    start: Option<JsonView>,
) -> Option<JsonView>
    decreases list.len(),
{
    if list.len() == 0 {
        start
    } else {
        Some(
            json_path::with_value_at(
                or_empty(laid(row, list.drop_last(), start)),
                list.last(),
                chosen(row, list.last()),
            ),
        )
    }
}

/// The rows of names that begin with a name, without it.
spec fn below(list: Seq<Seq<Seq<char>>>, name: Seq<char>) -> Seq<Seq<Seq<char>>>
    decreases list.len(),
{
    if list.len() == 0 {
        seq![]
    } else if list.last()[0] == name {
        below(list.drop_last(), name).push(list.last().drop_first())
    } else {
        below(list.drop_last(), name)
    }
}

/// Rows of names can be laid in two turns.
proof fn lemma_laid_in_turns(
    row: Option<JsonView>,
    a: Seq<Seq<Seq<char>>>,
    b: Seq<Seq<Seq<char>>>,
    start: Option<JsonView>,
)
    ensures
        laid(row, a + b, start) == laid(row, b, laid(row, a, start)),
    decreases b.len(),
{
    if b.len() == 0 {
        assert(a + b =~= a);
    } else {
        lemma_laid_in_turns(row, a, b.drop_last(), start);
        assert((a + b).drop_last() =~= a + b.drop_last());
        assert((a + b).last() == b.last());
    }
}

/// The rows of names below a name are shorter by that name.
proof fn lemma_below(list: Seq<Seq<Seq<char>>>, name: Seq<char>, most: nat)
    requires
        forall|i: int| 0 <= i < list.len() ==> 0 < (#[trigger] list[i]).len() <= most,
    ensures
        forall|i: int|
            0 <= i < below(list, name).len() ==> (#[trigger] below(list, name)[i]).len() < most,
    decreases list.len(),
{
    if list.len() > 0 {
        let front = list.drop_last();
        assert forall|i: int| 0 <= i < front.len() implies 0 < (#[trigger] front[i]).len()
            <= most by {
            assert(front[i] == list[i]);
        }
        lemma_below(front, name, most);
        assert(0 < list[list.len() - 1].len() <= most);
        let all = below(list, name);
        assert forall|i: int| 0 <= i < all.len() implies (#[trigger] all[i]).len() < most by {
            if i < below(front, name).len() {
                assert(all[i] == below(front, name)[i]);
            }
        }
    }
}

/// What is laid under a name comes from the member of that name alone.
proof fn lemma_laid_by_name(
    row: Option<JsonView>,
    list: Seq<Seq<Seq<char>>>,
    start: Option<JsonView>,
    name: Seq<char>,
)
    requires
        forall|i: int| 0 <= i < list.len() ==> 0 < (#[trigger] list[i]).len(),
    ensures
        list.len() > 0 ==> (laid(row, list, start) matches Some(JsonView::Object(_))),
        member_of(laid(row, list, start), name) == laid(
            member_of(row, name),
            below(list, name),
            member_of(start, name),
        ),
    decreases list.len(),
{
    if list.len() > 0 {
        let front = list.drop_last();
        let names = list.last();
        assert forall|i: int| 0 <= i < front.len() implies 0 < (#[trigger] front[i]).len() by {
            assert(front[i] == list[i]);
        }
        assert(0 < list[list.len() - 1].len());
        lemma_laid_by_name(row, front, start, name);
        let was = laid(row, front, start);
        let rest = names.drop_first();
        assert(chosen(row, names) == chosen(member_of(row, names[0]), rest));
        if names[0] == name {
            let lower = below(front, name).push(rest);
            assert(lower.drop_last() =~= below(front, name));
            assert(lower.last() == rest);
        }
    }
}

/// Laying a second time, from what was laid and over it or over the first start, changes nothing.
proof fn lemma_laid_again(
    row: Option<JsonView>,
    list: Seq<Seq<Seq<char>>>,
    start: Option<JsonView>,
    again: Option<JsonView>,
    most: nat,
)
    requires
        forall|i: int| 0 <= i < list.len() ==> (#[trigger] list[i]).len() <= most,
        again == start || again == laid(row, list, start),
    ensures
        laid(laid(row, list, start), list, again) == laid(row, list, start),
    decreases most, list.len(),
{
    let once = laid(row, list, start);
    let twice = laid(once, list, again);
    if list.len() > 0 {
        if exists|e: int| 0 <= e < list.len() && (#[trigger] list[e]).len() == 0 {
            let e = choose|e: int| 0 <= e < list.len() && (#[trigger] list[e]).len() == 0;
            let upto = list.take(e + 1);
            let after = list.skip(e + 1);
            let first = Some(chosen(row, list[e]));
            assert(list =~= upto + after);
            assert(upto.last() == list[e]);
            lemma_laid_in_turns(row, upto, after, start);
            lemma_laid_in_turns(once, upto, after, again);
            assert(laid(row, upto, start) == first);
            assert(laid(once, upto, again) == Some(chosen(once, list[e])));
            assert(Some(chosen(once, list[e])) == once);
            assert forall|i: int| 0 <= i < after.len() implies (#[trigger] after[i]).len()
                <= most by {
                assert(after[i] == list[i + e + 1]);
            }
            lemma_laid_again(row, after, first, once, most);
        } else {
            assert forall|i: int| 0 <= i < list.len() implies 0 < (#[trigger] list[i]).len()
                <= most by {}
            assert(0 < list[0].len() <= most);
            assert forall|name: Seq<char>| #[trigger]
                member_of(twice, name) == member_of(once, name) by {
                lemma_laid_by_name(row, list, start, name);
                lemma_laid_by_name(once, list, again, name);
                lemma_below(list, name, most);
                lemma_laid_again(
                    member_of(row, name),
                    below(list, name),
                    member_of(start, name),
                    member_of(again, name),
                    (most - 1) as nat,
                );
            }
            lemma_laid_by_name(row, list, start, seq![]);
            lemma_laid_by_name(once, list, again, seq![]);
            let a = json_path::members_of(or_empty(once));
            let b = json_path::members_of(or_empty(twice));
            assert forall|name: Seq<char>| #[trigger]
                a.contains_key(name) == b.contains_key(name) && (a.contains_key(name) ==> a[name]
                    == b[name]) by {
                assert(member_of(twice, name) == member_of(once, name));
            }
            assert(a =~= b);
        }
    }
}

/// The names on each of some paths.
spec fn names_of_all(select: Seq<Seq<char>>) -> Seq<Seq<Seq<char>>> {
    select.map_values(|path: Seq<char>| names_of(path))
}

/// What is picked is what is laid from the row on an empty object.
proof fn lemma_picked_is_laid(row: JsonView, select: Seq<Seq<char>>)
    requires
        forall|j: int| 0 <= j < select.len() ==> #[trigger] select[j] != "$"@,
    ensures
        Some(picked(row, select)) == laid(
            Some(row),
            names_of_all(select),
            Some(JsonView::Object(Map::empty())),
        ),
    decreases select.len(),
{
    if select.len() > 0 {
        let front = select.drop_last();
        assert forall|j: int| 0 <= j < front.len() implies #[trigger] front[j] != "$"@ by {
            assert(front[j] == select[j]);
        }
        assert(select[select.len() - 1] != "$"@);
        lemma_picked_is_laid(row, front);
        assert(names_of_all(select).drop_last() =~= names_of_all(front));
        assert(names_of_all(select).last() == names_of(select.last()));
    }
}

/// The most names on any of some paths.
spec fn longest(list: Seq<Seq<Seq<char>>>) -> nat
    decreases list.len(),
{
    if list.len() == 0 {
        0
    } else if list.last().len() > longest(list.drop_last()) {
        list.last().len()
    } else {
        longest(list.drop_last())
    }
}

/// No path has more names than the longest.
proof fn lemma_longest(list: Seq<Seq<Seq<char>>>)
    ensures
        forall|i: int| 0 <= i < list.len() ==> (#[trigger] list[i]).len() <= longest(list),
    decreases list.len(),
{
    if list.len() > 0 {
        lemma_longest(list.drop_last());
        assert forall|i: int| 0 <= i < list.len() implies (#[trigger] list[i]).len()
            <= longest(list) by {
            if i < list.len() - 1 {
                assert(list.drop_last()[i] == list[i]);
            }
        }
    }
}

/// Projecting a projected row again changes nothing, whether paths are selected twice or lead through
/// one another, as long as none is the whole row `$`.
pub proof fn law_projection_is_settled(row: JsonView, select: Seq<Seq<char>>)
    requires
        forall|j: int| 0 <= j < select.len() ==> #[trigger] select[j] != "$"@,
    ensures
        projection(projection(row, select), select) == projection(row, select),
{
    if select.len() > 0 {
        let list = names_of_all(select);
        let start = Some(JsonView::Object(Map::empty()));
        lemma_picked_is_laid(row, select);
        lemma_picked_is_laid(picked(row, select), select);
        lemma_longest(list);
        lemma_laid_again(Some(row), list, start, start, longest(list));
    }
}

/// A projected row has nothing at a path that parts from every selected one.
pub proof fn law_projection_has_nothing_else(row: JsonView, select: Seq<Seq<char>>, path: Seq<char>)
    requires
        select.len() > 0,
        forall|j: int| 0 <= j < select.len() ==> #[trigger] select[j] != "$"@,
        forall|j: int|
            0 <= j < select.len() ==> json_path::part_ways(
                names_of(#[trigger] select[j]),
                names_of(path),
            ),
    ensures
        json_path::path_value(projection(row, select), path) is None,
{
    lemma_picked_nothing_else(row, select, path);
}

/// Paths that part from all the picked ones lead nowhere.
proof fn lemma_picked_nothing_else(row: JsonView, select: Seq<Seq<char>>, path: Seq<char>)
    requires
        forall|j: int| 0 <= j < select.len() ==> #[trigger] select[j] != "$"@,
        forall|j: int|
            0 <= j < select.len() ==> json_path::part_ways(
                names_of(#[trigger] select[j]),
                names_of(path),
            ),
    ensures
        json_path::path_value(picked(row, select), path) is None,
    decreases select.len(),
{
    if select.len() > 0 {
        let front = select.drop_last();
        let last = select[select.len() - 1];
        assert forall|j: int| 0 <= j < front.len() implies #[trigger] front[j] != "$"@ by {
            assert(select[j] != "$"@);
        }
        assert forall|j: int| 0 <= j < front.len() implies json_path::part_ways(
            names_of(#[trigger] front[j]),
            names_of(path),
        ) by {
            assert(json_path::part_ways(names_of(select[j]), names_of(path)));
        }
        lemma_picked_nothing_else(row, front, path);
        assert(last != "$"@);
        assert(json_path::part_ways(names_of(last), names_of(path)));
        json_path::law_set_elsewhere(picked(row, front), last, selected(row, last), path);
    } else {
        assert(names_of(path).len() > 0);
    }
}

/// Whether a text holds no white space.
pub open spec fn is_word(s: Seq<char>) -> bool {
    forall|i: int| 0 <= i < s.len() ==> !text::is_white(#[trigger] s[i])
}

/// A way to spell a filter: its value in quotes of a kind or in none, and blanks before and behind the
/// sign of comparison.
pub struct Spelling {
    pub filter: FilterView,
    pub quote: Option<char>,
    pub before: nat,
    pub behind: nat,
}

/// The value of a filter as it is spelled.
pub open spec fn spelled_value(s: Spelling) -> Seq<char> {
    match s.quote {
        Some(q) => seq![q] + s.filter.value + seq![q],
        None => s.filter.value,
    }
}

/// The sign of comparison of a filter.
pub open spec fn sign(op: FilterOp) -> Seq<char> {
    match op {
        FilterOp::Eq => "="@,
        FilterOp::Ne => "!="@,
    }
}

/// Whether a filter can be spelled in a way: there is no white space in it, no sign of comparison in
/// its path, nor in the value that it asks for one that would be found first. A value without quotes
/// has none of its own around it, and is not the word `and` behind a blank. There are no blanks beside
/// nothing.
pub open spec fn can_spell(s: Spelling) -> bool {
    &&& is_word(s.filter.path)
    &&& is_word(s.filter.value)
    &&& !s.filter.path.contains('=')
    &&& !s.filter.path.contains('!')
    &&& s.filter.op == FilterOp::Eq ==> !pattern::occurs(s.filter.value, "!="@)
    &&& match s.quote {
        Some(q) => q == '"' || q == '\'',
        None => fields::unquoted(s.filter.value) == s.filter.value && (s.behind > 0
            ==> s.filter.value != "and"@),
    }
    &&& s.before > 0 ==> s.filter.path.len() > 0
    &&& s.behind > 0 ==> spelled_value(s).len() > 0
}

/// The clause that spells a filter in a way.
pub open spec fn clause_text(s: Spelling) -> Seq<char> {
    s.filter.path + text::blanks(s.before) + sign(s.filter.op) + text::blanks(s.behind)
        + spelled_value(s)
}

/// The clauses that spell filters.
pub open spec fn clause_texts(list: Seq<Spelling>) -> Seq<Seq<char>> {
    Seq::new(list.len(), |i: int| clause_text(list[i]))
}

/// The filters that are spelled.
pub open spec fn spelled_filters(list: Seq<Spelling>) -> Seq<FilterView> {
    Seq::new(list.len(), |i: int| list[i].filter)
}

/// A word with blanks around it is trimmed to the word, where there are none beside nothing.
proof fn lemma_trimmed_word(before: nat, word: Seq<char>, behind: nat)
    requires
        is_word(word),
        before + behind > 0 ==> word.len() > 0,
    ensures
        text::trimmed(text::blanks(before) + word + text::blanks(behind)) == word,
{
    if word.len() > 0 {
        text::lemma_trimmed_blanks(before, word, behind);
    } else {
        assert(text::blanks(before) + word + text::blanks(behind) =~= word);
    }
}

/// A value as it is spelled is a word, and stands for the value.
proof fn lemma_spelled_value(s: Spelling)
    requires
        can_spell(s),
    ensures
        is_word(spelled_value(s)),
        fields::unquoted(spelled_value(s)) == s.filter.value,
{
    let value = spelled_value(s);
    if let Some(q) = s.quote {
        assert forall|i: int| 0 <= i < value.len() implies !text::is_white(#[trigger] value[i]) by {
            if 0 < i < value.len() - 1 {
                assert(value[i] == s.filter.value[i - 1]);
            }
        }
        assert(value.subrange(1, value.len() - 1) =~= s.filter.value);
    }
}

/// The clause that spells a filter is read as that filter.
#[verifier::spinoff_prover]
#[verifier::rlimit(40)]
proof fn lemma_clause_reads_back(s: Spelling)
    requires
        can_spell(s),
    ensures
        clause_filter(clause_text(s)) == Ok::<FilterView, Seq<char>>(s.filter),
{
    reveal_strlit("=");
    reveal_strlit("!=");
    let f = s.filter;
    let clause = clause_text(s);
    let value = spelled_value(s);
    let left = f.path + text::blanks(s.before);
    let right = text::blanks(s.behind) + value;
    lemma_spelled_value(s);
    assert(clause =~= left + sign(f.op) + right);
    assert(!text::is_white(clause[0])) by {
        if f.path.len() > 0 {
            assert(clause[0] == f.path[0]);
        }
    }
    assert(!text::is_white(clause.last())) by {
        if value.len() > 0 {
            assert(clause.last() == value[value.len() - 1]);
        }
    }
    text::lemma_trimmed_blanks(0, clause, 0);
    assert(text::blanks(0) + clause + text::blanks(0) =~= clause);
    lemma_trimmed_word(0, f.path, s.before);
    assert(text::blanks(0) + f.path + text::blanks(s.before) =~= left);
    lemma_trimmed_word(s.behind, value, 0);
    assert(text::blanks(s.behind) + value + text::blanks(0) =~= right);
    assert forall|i: int| 0 <= i < left.len() implies left[i] != '=' && left[i] != '!' by {
        if i < f.path.len() {
            assert(f.path.contains(f.path[i]));
        }
    }
    match f.op {
        FilterOp::Ne => {
            pattern::lemma_sides(left, "!="@, right);
        },
        FilterOp::Eq => {
            pattern::lemma_first_from(clause, "!="@, 0);
            if let Some(k) = pattern::first_at(clause, "!="@) {
                let found = clause.subrange(k, k + 2);
                assert(found[0] == clause[k] && found[1] == clause[k + 1]);
                let start = left.len() + 1 + s.behind;
                assert(clause[k] == '!' && clause[k + 1] == '=');
                assert(k >= start);
                let lead: int = if s.quote is Some {
                    1
                } else {
                    0
                };
                let at = k - start - lead;
                assert(clause[k] == value[k - start] && clause[k + 1] == value[k + 1 - start]);
                assert(0 <= at && at + 1 < f.value.len());
                assert(f.value[at] == '!' && f.value[at + 1] == '=');
                assert(f.value.subrange(at, at + 2) =~= "!="@);
                assert(pattern::occurs_at(f.value, "!="@, at));
            }
            pattern::lemma_sides(left, "="@, right);
        },
    }
}

/// The word that joins clauses is first found behind a clause that spells a filter.
proof fn lemma_clause_holds_no_and(s: Spelling, j: int)
    requires
        can_spell(s),
        0 <= j < clause_text(s).len(),
    ensures
        !pattern::occurs_at(clause_text(s) + " and "@, " and "@, j),
        !pattern::occurs_at(clause_text(s), " and "@, j),
{
    reveal_strlit(" and ");
    reveal_strlit("and");
    reveal_strlit("=");
    reveal_strlit("!=");
    let f = s.filter;
    let clause = clause_text(s);
    let all = clause + " and "@;
    let value = spelled_value(s);
    let word = " and "@;
    lemma_spelled_value(s);
    if pattern::occurs_at(clause, word, j) {
        assert(clause.subrange(j, j + 5) =~= all.subrange(j, j + 5));
        assert(pattern::occurs_at(all, word, j));
    }
    if pattern::occurs_at(all, word, j) {
        let found = all.subrange(j, j + 5);
        assert(found[0] == all[j] && found[1] == all[j + 1] && found[2] == all[j + 2]);
        assert(found[3] == all[j + 3] && found[4] == all[j + 4]);
        let left = f.path.len() + s.before;
        let start = left + sign(f.op).len() + s.behind;
        assert(clause[j] == ' ');
        if j < f.path.len() {
            assert(clause[j] == f.path[j]);
        } else if j < left {
            if j == left - 1 {
                assert(all[j + 1] == sign(f.op)[0]);
            } else {
                assert(all[j + 1] == ' ');
            }
        } else if j >= start {
            assert(clause[j] == value[j - start]);
        } else if j < start - 1 {
            assert(all[j + 1] == ' ' || all[j + 1] == '=');
        } else {
            assert(forall|i: int|
                0 <= i < value.len() ==> #[trigger] value[i] == all[start + i]);
            if value.len() > 3 {
                assert(text::is_white(value[3]));
            }
            assert(value.len() == 3);
            assert(value =~= "and"@);
        }
    }
}

/// Clauses that spell filters are read as those filters.
proof fn lemma_clauses_read_back(list: Seq<Spelling>)
    requires
        forall|i: int| 0 <= i < list.len() ==> can_spell(#[trigger] list[i]),
    ensures
        clause_filters(clause_texts(list)) == Ok::<Seq<FilterView>, Seq<char>>(
            spelled_filters(list),
        ),
    decreases list.len(),
{
    if list.len() == 0 {
        assert(spelled_filters(list) =~= seq![]);
    } else {
        let front = list.drop_last();
        assert forall|i: int| 0 <= i < front.len() implies can_spell(#[trigger] front[i]) by {
            assert(can_spell(list[i]));
        }
        lemma_clauses_read_back(front);
        assert(clause_texts(list).drop_last() =~= clause_texts(front));
        assert(can_spell(list[list.len() - 1]));
        lemma_clause_reads_back(list.last());
        assert(spelled_filters(front).push(list.last().filter) =~= spelled_filters(list));
    }
}

/// Filters come back from the `--where` text that spells them, whether their values stand in quotes of
/// either kind or in none, and whatever number of blanks stands around their signs of comparison.
pub proof fn law_filters_read_back(list: Seq<Spelling>)
    requires
        list.len() > 0,
        forall|i: int| 0 <= i < list.len() ==> can_spell(#[trigger] list[i]),
    ensures
        where_filters(Some(pattern::joined(clause_texts(list), " and "@))) == Ok::<
            Seq<FilterView>,
            Seq<char>,
        >(spelled_filters(list)),
{
    reveal_strlit(" and ");
    let clauses = clause_texts(list);
    assert forall|i: int, j: int|
        0 <= i < clauses.len() - 1 && 0 <= j < clauses[i].len() implies !#[trigger] pattern::occurs_at(
                clauses[i] + " and "@,
        " and "@,
        j,
    ) by {
        assert(can_spell(list[i]));
        lemma_clause_holds_no_and(list[i], j);
    }
    let end = list.len() - 1;
    assert(can_spell(list[end]));
    if pattern::occurs(clauses.last(), " and "@) {
        let j = choose|j: int| pattern::occurs_at(clauses.last(), " and "@, j);
        lemma_clause_holds_no_and(list[end], j);
    }
    pattern::lemma_joined_pieces(clauses, " and "@);
    lemma_clauses_read_back(list);
}

/// What filters ask of a row: one that asks for equality is met exactly where the one of the same path
/// and value that asks for difference is not, and by the text of the cell; rows meet filters one by one.
pub proof fn law_filters_compare_cells(
    row: JsonView,
    path: Seq<char>,
    value: Seq<char>,
    some: Seq<FilterView>,
    more: Seq<FilterView>,
)
    ensures
        meets(row, FilterView { path, op: FilterOp::Eq, value }) <==> json_path::cell_text(
            json_path::path_value(row, path),
        ) == value,
        meets(row, FilterView { path, op: FilterOp::Ne, value }) <==> !meets(
            row,
            FilterView { path, op: FilterOp::Eq, value },
        ),
        meets_all(row, some + more) <==> meets_all(row, some) && meets_all(row, more),
        some.len() == 0 ==> meets_all(row, some),
        some.len() == 1 ==> (meets_all(row, some) <==> meets(row, some[0])),
{
    let all = some + more;
    if meets_all(row, all) {
        assert forall|i: int| 0 <= i < some.len() implies meets(row, #[trigger] some[i]) by {
            assert(all[i] == some[i]);
        }
        assert forall|i: int| 0 <= i < more.len() implies meets(row, #[trigger] more[i]) by {
            assert(all[some.len() + i] == more[i]);
        }
    }
    if meets_all(row, some) && meets_all(row, more) {
        assert forall|i: int| 0 <= i < all.len() implies meets(row, #[trigger] all[i]) by {
            if i < some.len() {
                assert(meets(row, some[i]));
            } else {
                assert(meets(row, more[i - some.len()]));
            }
        }
    }
}

/// Where nothing is selected a row is kept whole.
pub proof fn law_no_selection_keeps_the_row(row: JsonView)
    ensures
        projection(row, seq![]) == row,
{
}

/// The clauses of a text are read one by one, in their order, each between two words ` and `; a clause
/// is refused exactly where it has no equals sign.
pub proof fn law_clauses_are_read_one_by_one(raw: Seq<char>)
    ensures
        ({
            let clauses = pattern::pieces(raw, " and "@);
            &&& where_filters(Some(raw)) is Ok <==> forall|i: int|
                0 <= i < clauses.len() ==> text::trimmed(#[trigger] clauses[i]).contains('=')
            &&& where_filters(Some(raw)) matches Ok(filters) ==> filters.len() == clauses.len()
                && forall|i: int|
                0 <= i < clauses.len() ==> clause_filter(#[trigger] clauses[i]) == Ok::<
                    FilterView,
                    Seq<char>,
                >(filters[i])
        }),
        where_filters(None) == Ok::<Seq<FilterView>, Seq<char>>(seq![]),
{
    lemma_clauses(pattern::pieces(raw, " and "@));
}

/// Clauses, one by one.
proof fn lemma_clauses(clauses: Seq<Seq<char>>)
    ensures
        clause_filters(clauses) is Ok <==> forall|i: int|
            0 <= i < clauses.len() ==> text::trimmed(#[trigger] clauses[i]).contains('='),
        clause_filters(clauses) matches Ok(filters) ==> filters.len() == clauses.len() && forall|i: int|
            0 <= i < clauses.len() ==> clause_filter(#[trigger] clauses[i]) == Ok::<
                FilterView,
                Seq<char>,
            >(filters[i]),
    decreases clauses.len(),
{
    if clauses.len() > 0 {
        let front = clauses.drop_last();
        let last = clauses.len() - 1;
        lemma_clauses(front);
        lemma_clause_sign(clauses.last());
        assert(clauses[last] == clauses.last());
        assert forall|i: int| 0 <= i < last implies #[trigger] clauses[i] == front[i] by {}
        if clause_filters(front) is Err {
            let i = choose|i: int|
                0 <= i < front.len() && !text::trimmed(#[trigger] front[i]).contains('=');
            assert(!text::trimmed(clauses[i]).contains('='));
        } else {
            assert forall|i: int| 0 <= i < last implies text::trimmed(
                #[trigger] clauses[i],
            ).contains('=') by {
                assert(text::trimmed(front[i]).contains('='));
            }
        }
        if let Ok(filters) = clause_filters(clauses) {
            let before = clause_filters(front)->Ok_0;
            assert forall|i: int| 0 <= i < clauses.len() implies clause_filter(
                #[trigger] clauses[i],
            ) == Ok::<FilterView, Seq<char>>(filters[i]) by {
                if i < last {
                    assert(front[i] == clauses[i]);
                    assert(filters[i] == before[i]);
                }
            }
        }
    }
}

/// A clause is one where it has an equals sign.
proof fn lemma_clause_sign(clause: Seq<char>)
    ensures
        clause_filter(clause) is Ok <==> text::trimmed(clause).contains('='),
{
    reveal_strlit("=");
    reveal_strlit("!=");
    let s = text::trimmed(clause);
    pattern::law_sides_make_the_text(s, "!="@);
    pattern::law_sides_make_the_text(s, "="@);
    pattern::lemma_occurs_char(s, "="@);
    if let Some(p) = pattern::sides(s, "!="@) {
        let k = p.0.len() as int;
        assert(s[k + 1] == '=');
    }
    if let Some(p) = pattern::sides(s, "="@) {
        let k = p.0.len() as int;
        assert(s[k] == '=');
    }
}

/// Selected paths are set one after the other, each with what the row has there, or with null: a later one
/// comes over an earlier one.
pub proof fn law_paths_are_set_in_their_order(
    row: JsonView,
    select: Seq<Seq<char>>,
    path: Seq<char>,
    value: JsonView,
)
    requires
        match json_path::path_value(row, path) {
            Some(v) => value == v,
            None => value == JsonView::Null,
        },
    ensures
        projection(row, select.push(path)) == json_path::with_path_value(
            if select.len() == 0 {
                JsonView::Object(Map::empty())
            } else {
                projection(row, select)
            },
            path,
            value,
        ),
{
    assert(select.push(path).drop_last() =~= select);
    if select.len() == 0 {
        assert(picked(row, select) == JsonView::Object(Map::empty()));
    }
}

/// How a clause is parted: at its first `!=`, where it has one anywhere, and else at its first `=`. What
/// stands before is the path and what stands behind is the value, both without the white space at their
/// ends, and the value without one pair of quotes.
pub proof fn law_clauses_are_parted(clause: Seq<char>) -> (r: (Seq<char>, Seq<char>))
    requires
        clause_filter(clause) is Ok,
    ensures
        clause_filter(clause) matches Ok(filter) && {
            let s = text::trimmed(clause);
            let mark = if filter.op == FilterOp::Ne {
                seq!['!', '=']
            } else {
                seq!['=']
            };
            &&& filter.op == FilterOp::Ne <==> exists|i: int|
                0 <= i && i + 1 < s.len() && #[trigger] s[i] == '!' && s[i + 1] == '='
            &&& s == r.0 + mark + r.1
            &&& forall|i: int| 0 <= i < r.0.len() ==> !pattern::occurs_at(s, mark, i)
            &&& filter.path == text::trimmed(r.0)
            &&& filter.value == fields::unquoted(text::trimmed(r.1))
        },
{
    reveal_strlit("!=");
    reveal_strlit("=");
    assert("!="@ =~= seq!['!', '=']);
    assert("="@ =~= seq!['=']);
    let s = text::trimmed(clause);
    pattern::law_sides_make_the_text(s, "!="@);
    pattern::law_sides_make_the_text(s, "="@);
    assert(pattern::occurs(s, "!="@) <==> exists|i: int|
        0 <= i && i + 1 < s.len() && #[trigger] s[i] == '!' && s[i + 1] == '=') by {
        if pattern::occurs(s, "!="@) {
            let i = choose|i: int| pattern::occurs_at(s, "!="@, i);
            let found = s.subrange(i, i + 2);
            assert(found[0] == s[i] && found[1] == s[i + 1]);
        }
        assert forall|i: int|
            0 <= i && i + 1 < s.len() && #[trigger] s[i] == '!' && s[i + 1] == '=' implies
            pattern::occurs(s, "!="@) by {
            assert(s.subrange(i, i + 2) =~= "!="@);
            assert(pattern::occurs_at(s, "!="@, i));
        }
    }
    match pattern::sides(s, "!="@) {
        Some(p) => {
            let k = p.0.len() as int;
            assert(s.subrange(k, k + 2) =~= "!="@);
            assert(pattern::occurs_at(s, "!="@, k));
            p
        },
        None => pattern::sides(s, "="@)->Some_0,
    }
}

} // verus!
