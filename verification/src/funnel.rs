//! Funnels: how many sessions, devices or profiles take a row of steps in order.

use crate::fetch::FetchStats;
use crate::json::{self, Json, JsonView, Members, Numeral, NumeralView};
use crate::json_path::{self, get_member, get_path, value_to_cell};
use crate::numeral::{self, write_decimal};
use crate::rows::{self, get_text};
use crate::text::{self, same};
use vstd::hash_map::StringHashMap;
use vstd::prelude::*;
use vstd::string::StringExecFns;

verus! {

broadcast use crate::json::lemma_view;

/// The index of the last step with a name.
pub open spec fn step_of(steps: Seq<Seq<char>>, name: Seq<char>) -> Option<nat>
    decreases steps.len(),
{
    if steps.len() == 0 {
        None
    } else if steps.last() == name {
        Some((steps.len() - 1) as nat)
    } else {
        step_of(steps.drop_last(), name)
    }
}

/// The text of the unit that a row belongs to.
pub open spec fn unit_of(row: JsonView, unit: Seq<char>) -> Seq<char> {
    json_path::cell_text(json_path::path_value(row, unit))
}

/// Whether a row is a step with an index.
pub open spec fn is_step(row: JsonView, steps: Seq<Seq<char>>, index: nat) -> bool {
    rows::member_text(row, "name"@) matches Some(name) && step_of(steps, name) == Some(index)
}

/// The number of steps that a unit has taken in order, over rows in order: each row that is its next
/// step takes it one further. The empty text is no unit.
pub open spec fn steps_taken(
    list: Seq<JsonView>,
    steps: Seq<Seq<char>>,
    unit: Seq<char>,
    who: Seq<char>,
) -> nat
    decreases list.len(),
{
    if list.len() == 0 {
        0
    } else {
        let taken = steps_taken(list.drop_last(), steps, unit, who);
        let row = list.last();
        if is_step(row, steps, taken) && unit_of(row, unit) == who && who.len() > 0 {
            taken + 1
        } else {
            taken
        }
    }
}

/// The units that have taken the step with an index.
pub open spec fn takers(
    list: Seq<JsonView>,
    steps: Seq<Seq<char>>,
    unit: Seq<char>,
    index: int,
) -> Set<Seq<char>> {
    Set::new(|who: Seq<char>| steps_taken(list, steps, unit, who) > index)
}

/// One line of a funnel: a step and how many units have taken it.
pub open spec fn step_line(step: Seq<char>, count: nat) -> JsonView {
    JsonView::Object(
        map!["step"@ => JsonView::Text(step), "count"@ => JsonView::Number(NumeralView::Unsigned(count as u64))],
    )
}

/// The steps of a funnel with the number of units that have taken each.
pub open spec fn funnel(list: Seq<JsonView>, steps: Seq<Seq<char>>, unit: Seq<char>) -> Seq<
    JsonView,
> {
    Seq::new(steps.len(), |i: int| step_line(steps[i], takers(list, steps, unit, i).len()))
}

/// A step index lies within the steps.
proof fn lemma_step_of(steps: Seq<Seq<char>>, name: Seq<char>)
    ensures
        step_of(steps, name) matches Some(i) ==> i < steps.len() && steps[i as int] == name,
    decreases steps.len(),
{
    if steps.len() > 0 {
        lemma_step_of(steps.drop_last(), name);
    }
}

/// The index of each step name, the last of equal names.
fn index_steps(steps: &Vec<String>) -> (r: StringHashMap<usize>)
    ensures
        forall|name: Seq<char>|
            match #[trigger] step_of(text::texts(steps@), name) {
                Some(i) => r@.contains_key(name) && r@[name] == i,
                None => !r@.contains_key(name),
            },
{
    let mut index: StringHashMap<usize> = StringHashMap::new();
    let ghost all = text::texts(steps@);
    let mut i: usize = 0;
    while i < steps.len()
        invariant
            i <= steps@.len(),
            all == text::texts(steps@),
            forall|name: Seq<char>|
                match #[trigger] step_of(all.take(i as int), name) {
                    Some(k) => index@.contains_key(name) && index@[name] == k,
                    None => !index@.contains_key(name),
                },
        decreases steps@.len() - i,
    {
        let ghost before = index@;
        index.insert(steps[i].clone(), i);
        proof {
            assert(all.take(i + 1).drop_last() =~= all.take(i as int));
            assert(all.take(i + 1).last() == steps@[i as int]@);
            assert forall|name: Seq<char>|
                match #[trigger] step_of(all.take(i + 1), name) {
                    Some(k) => index@.contains_key(name) && index@[name] == k,
                    None => !index@.contains_key(name),
                } by {
                let earlier = step_of(all.take(i as int), name);
                assert(match earlier {
                    Some(k) => before.contains_key(name) && before[name] == k,
                    None => !before.contains_key(name),
                });
            }
        }
        i = i + 1;
    }
    proof {
        assert(all.take(i as int) =~= all);
    }
    index
}

/// A row that takes nobody further leaves the takers of every step as they were.
proof fn lemma_takers_same(list: Seq<JsonView>, steps: Seq<Seq<char>>, unit: Seq<char>, index: int)
    requires
        list.len() > 0,
        forall|who: Seq<char>|
            #[trigger] steps_taken(list, steps, unit, who) == steps_taken(
                list.drop_last(),
                steps,
                unit,
                who,
            ),
    ensures
        takers(list, steps, unit, index) == takers(list.drop_last(), steps, unit, index),
{
    assert(takers(list, steps, unit, index) =~= takers(list.drop_last(), steps, unit, index));
}

/// Whether a count is the number of units, finitely many, that have taken the step with an index.
spec fn counted(
    list: Seq<JsonView>,
    steps: Seq<Seq<char>>,
    unit: Seq<char>,
    index: int,
    count: u64,
) -> bool {
    &&& takers(list, steps, unit, index).finite()
    &&& count == takers(list, steps, unit, index).len()
    &&& count <= list.len()
}

/// Counts, for every step, the units that have taken it.
fn count_takers(list: &Vec<Json>, steps: &Vec<String>, unit: &str) -> (r: Vec<u64>)
    ensures
        r@.len() == steps@.len(),
        forall|i: int|
            0 <= i < steps@.len() ==> (#[trigger] r@[i]) == takers(
                json::trees(list@),
                text::texts(steps@),
                unit@,
                i,
            ).len(),
{
    let step_index = index_steps(steps);
    let ghost names = text::texts(steps@);
    let ghost all = json::trees(list@);
    let mut progress: StringHashMap<usize> = StringHashMap::new();
    let mut counts: Vec<u64> = Vec::new();
    let mut n: usize = 0;
    while n < steps.len()
        invariant
            n <= steps@.len(),
            counts@.len() == n,
            forall|i: int| 0 <= i < n ==> #[trigger] counts@[i] == 0,
        decreases steps@.len() - n,
    {
        counts.push(0);
        n = n + 1;
    }
    proof {
        json::lemma_trees(list@);
        assert forall|i: int| 0 <= i < steps@.len() implies #[trigger] counted(
            all.take(0),
            names,
            unit@,
            i,
            counts@[i],
        ) by {
            assert(takers(all.take(0), names, unit@, i) =~= Set::empty());
        }
    }
    let mut k: usize = 0;
    while k < list.len()
        invariant
            k <= list@.len(),
            all == json::trees(list@),
            all.len() == list@.len(),
            forall|j: int| 0 <= j < list@.len() ==> #[trigger] all[j] == list@[j]@,
            names == text::texts(steps@),
            counts@.len() == steps@.len(),
            forall|name: Seq<char>|
                match #[trigger] step_of(names, name) {
                    Some(i) => step_index@.contains_key(name) && step_index@[name] == i,
                    None => !step_index@.contains_key(name),
                },
            forall|who: Seq<char>| #[trigger]
                steps_taken(all.take(k as int), names, unit@, who) == if progress@.contains_key(
                    who,
                ) {
                    progress@[who] as nat
                } else {
                    0
                },
            forall|i: int|
                0 <= i < steps@.len() ==> #[trigger] counted(
                    all.take(k as int),
                    names,
                    unit@,
                    i,
                    counts@[i],
                ),
        decreases list@.len() - k,
    {
        let row = &list[k];
        let ghost seen = all.take(k as int);
        let ghost next = all.take(k + 1);
        let ghost counts_before = counts@;
        let ghost progress_before = progress@;
        let ghost mut mover: Option<Seq<char>> = None;
        let ghost mut moved: nat = 0;
        proof {
            assert(all[k as int] == row@);
            assert(next.drop_last() =~= seen);
            assert(next.last() == row@);
        }
        if let Some(name) = get_text(row, "name") {
            if let Some(idx) = step_index.get(name) {
                let idx: usize = *idx;
                proof {
                    assert(step_of(names, name@) is Some);
                    lemma_step_of(names, name@);
                }
                let who = value_to_cell(get_path(row, unit));
                if !who.as_str().is_empty() {
                    let current: usize = match progress.get(who.as_str()) {
                        Some(c) => *c,
                        None => 0,
                    };
                    if idx == current {
                        proof {
                            mover = Some(who@);
                            moved = current as nat;
                            assert(steps_taken(seen, names, unit@, who@) == current);
                            assert(counted(seen, names, unit@, idx as int, counts@[idx as int]));
                            assert(counts.len() == counts@.len());
                        }
                        let count: u64 = counts[idx];
                        counts.set(idx, count + 1);
                        progress.insert(who, current + 1);
                    }
                } else {
                    proof {
                        assert(unit_of(row@, unit@).len() == 0);
                    }
                }
            } else {
                proof {
                    assert(step_of(names, name@) is None);
                }
            }
        }
        proof {
            match mover {
                Some(who) => {
                    assert forall|w: Seq<char>| #[trigger] steps_taken(next, names, unit@, w)
                        == if progress@.contains_key(w) {
                        progress@[w] as nat
                    } else {
                        0
                    } by {
                        let before = steps_taken(seen, names, unit@, w);
                    }
                    assert forall|i: int| 0 <= i < steps@.len() implies #[trigger] counted(
                        next,
                        names,
                        unit@,
                        i,
                        counts@[i],
                    ) by {
                        assert(counted(seen, names, unit@, i, counts_before[i]));
                        let was = takers(seen, names, unit@, i);
                        let now = takers(next, names, unit@, i);
                        assert(steps_taken(seen, names, unit@, who) == moved);
                        if i == moved {
                            assert forall|w: Seq<char>| now.contains(w) == was.insert(who).contains(
                                w,
                            ) by {
                                let before = steps_taken(seen, names, unit@, w);
                                let after = steps_taken(next, names, unit@, w);
                            }
                            assert(now =~= was.insert(who));
                            assert(!was.contains(who));
                        } else {
                            assert forall|w: Seq<char>| now.contains(w) == was.contains(w) by {
                                let before = steps_taken(seen, names, unit@, w);
                                let after = steps_taken(next, names, unit@, w);
                            }
                            assert(now =~= was);
                        }
                    }
                },
                None => {
                    assert forall|w: Seq<char>| #[trigger] steps_taken(next, names, unit@, w)
                        == steps_taken(seen, names, unit@, w) by {
                        let before = steps_taken(seen, names, unit@, w);
                    }
                    assert forall|i: int| 0 <= i < steps@.len() implies #[trigger] counted(
                        next,
                        names,
                        unit@,
                        i,
                        counts@[i],
                    ) by {
                        assert(counted(seen, names, unit@, i, counts_before[i]));
                        lemma_takers_same(next, names, unit@, i);
                    }
                    assert forall|w: Seq<char>| #[trigger] steps_taken(next, names, unit@, w)
                        == if progress@.contains_key(w) {
                        progress@[w] as nat
                    } else {
                        0
                    } by {
                        let before = steps_taken(seen, names, unit@, w);
                    }
                },
            }
        }
        k = k + 1;
    }
    proof {
        assert(all.take(k as int) =~= all);
        assert forall|i: int| 0 <= i < steps@.len() implies (#[trigger] counts@[i]) == takers(
            all,
            names,
            unit@,
            i,
        ).len() by {
            assert(counted(all, names, unit@, i, counts@[i]));
        }
    }
    counts
}

/// Builds a funnel from rows in order: for every step, how many units have taken it and all before it.
pub fn build_funnel(list: &Vec<Json>, steps: &Vec<String>, unit: &str) -> (r: Vec<Json>)
    ensures
        json::trees(r@) == funnel(json::trees(list@), text::texts(steps@), unit@),
{
    let counts = count_takers(list, steps, unit);
    let mut out: Vec<Json> = Vec::new();
    let ghost want = funnel(json::trees(list@), text::texts(steps@), unit@);
    let mut i: usize = 0;
    proof {
        json::lemma_trees(out@);
        assert(json::trees(out@) =~= want.take(0));
    }
    while i < steps.len()
        invariant
            i <= steps@.len(),
            counts@.len() == steps@.len(),
            want == funnel(json::trees(list@), text::texts(steps@), unit@),
            forall|j: int|
                0 <= j < steps@.len() ==> (#[trigger] counts@[j]) == takers(
                    json::trees(list@),
                    text::texts(steps@),
                    unit@,
                    j,
                ).len(),
            json::trees(out@) == want.take(i as int),
        decreases steps@.len() - i,
    {
        let line = Json::Object(
            Members::new().insert("step".to_string(), Json::Text(steps[i].clone())).insert(
                "count".to_string(),
                Json::Number(Numeral::Unsigned(counts[i])),
            ),
        );
        proof {
            json::lemma_trees_push(out@, line);
            assert(line@ == want[i as int]);
            assert(want.take(i + 1) =~= want.take(i as int).push(line@));
        }
        out.push(line);
        i = i + 1;
    }
    proof {
        assert(want.take(i as int) =~= want);
    }
    out
}

/// The units that have taken a step are finitely many.
proof fn lemma_takers_finite(list: Seq<JsonView>, steps: Seq<Seq<char>>, unit: Seq<char>, index: int)
    requires
        index >= 0,
    ensures
        takers(list, steps, unit, index).finite(),
    decreases list.len(),
{
    let now = takers(list, steps, unit, index);
    if list.len() == 0 {
        assert(now =~= Set::empty());
    } else {
        lemma_takers_finite(list.drop_last(), steps, unit, index);
        let was = takers(list.drop_last(), steps, unit, index);
        assert(now.subset_of(was.insert(unit_of(list.last(), unit))));
        vstd::set_lib::lemma_len_subset(now, was.insert(unit_of(list.last(), unit)));
    }
}

/// A funnel narrows: no more units have taken a later step than an earlier one.
pub proof fn law_funnel_narrows(
    list: Seq<JsonView>,
    steps: Seq<Seq<char>>,
    unit: Seq<char>,
    earlier: int,
    later: int,
)
    requires
        0 <= earlier <= later < steps.len(),
    ensures
        takers(list, steps, unit, later).subset_of(takers(list, steps, unit, earlier)),
        takers(list, steps, unit, later).len() <= takers(list, steps, unit, earlier).len(),
{
    lemma_takers_finite(list, steps, unit, earlier);
    vstd::set_lib::lemma_len_subset(
        takers(list, steps, unit, later),
        takers(list, steps, unit, earlier),
    );
}

/// Rows behind others never take back a step.
proof fn lemma_steps_grow(
    list: Seq<JsonView>,
    more: Seq<JsonView>,
    steps: Seq<Seq<char>>,
    unit: Seq<char>,
    who: Seq<char>,
)
    ensures
        steps_taken(list, steps, unit, who) <= steps_taken(list + more, steps, unit, who),
    decreases more.len(),
{
    if more.len() == 0 {
        assert(list + more =~= list);
    } else {
        lemma_steps_grow(list, more.drop_last(), steps, unit, who);
        assert((list + more).drop_last() =~= list + more.drop_last());
    }
}

/// More rows never lower a count: whoever has taken a step has taken it when later rows come in too.
pub proof fn law_more_rows_never_lower_a_count(
    list: Seq<JsonView>,
    more: Seq<JsonView>,
    steps: Seq<Seq<char>>,
    unit: Seq<char>,
    index: int,
)
    requires
        0 <= index < steps.len(),
    ensures
        takers(list, steps, unit, index).subset_of(takers(list + more, steps, unit, index)),
        takers(list, steps, unit, index).len() <= takers(list + more, steps, unit, index).len(),
{
    assert forall|who: Seq<char>|
        takers(list, steps, unit, index).contains(who) implies #[trigger] takers(
        list + more,
        steps,
        unit,
        index,
    ).contains(who) by {
        lemma_steps_grow(list, more, steps, unit, who);
    }
    lemma_takers_finite(list + more, steps, unit, index);
    vstd::set_lib::lemma_len_subset(
        takers(list, steps, unit, index),
        takers(list + more, steps, unit, index),
    );
}

/// Whether rows, by their indices, are the first steps of a unit: one row for each step, each later
/// than the one before.
pub open spec fn are_steps_of(
    at: Seq<int>,
    list: Seq<JsonView>,
    steps: Seq<Seq<char>>,
    unit: Seq<char>,
    who: Seq<char>,
) -> bool {
    &&& forall|k: int|
        0 <= k < at.len() ==> 0 <= (#[trigger] at[k]) < list.len() && is_step(
            list[at[k]],
            steps,
            k as nat,
        ) && unit_of(list[at[k]], unit) == who
    &&& forall|j: int, k: int| 0 <= j < k < at.len() ==> #[trigger] at[j] < #[trigger] at[k]
}

/// Steps are taken in order: a unit that has taken a number of steps has a row for each of them, each
/// later than the row of the step before.
pub proof fn law_steps_are_taken_in_order(
    list: Seq<JsonView>,
    steps: Seq<Seq<char>>,
    unit: Seq<char>,
    who: Seq<char>,
) -> (at: Seq<int>)
    ensures
        at.len() == steps_taken(list, steps, unit, who),
        are_steps_of(at, list, steps, unit, who),
    decreases list.len(),
{
    if list.len() == 0 {
        Seq::empty()
    } else {
        let before = law_steps_are_taken_in_order(list.drop_last(), steps, unit, who);
        if steps_taken(list, steps, unit, who) == before.len() {
            before
        } else {
            before.push(list.len() - 1)
        }
    }
}

/// The fields that a funnel selects.
pub fn funnel_select(unit: &str) -> (r: String)
    ensures
        r@ == "createdAt,name,"@ + unit@,
{
    let mut select = "createdAt,name,".to_string();
    select.append(unit);
    select
}

/// The unit that a funnel counts: sessions, where none is given.
pub fn funnel_unit(given: Option<&str>) -> (r: String)
    ensures
        r@ == match given {
            Some(unit) => unit@,
            None => "sessionId"@,
        },
{
    match given {
        Some(unit) => unit.to_string(),
        None => "sessionId".to_string(),
    }
}

/// Tells whether a funnel is shown as JSON; it is shown as a table otherwise.
pub fn shows_json(format: Option<&str>) -> (r: bool)
    ensures
        r == (format matches Some(format) && format@ == "json"@),
{
    match format {
        Some(format) => same(format, "json"),
        None => false,
    }
}

/// A count as a JSON number.
pub open spec fn count_tree(n: nat) -> JsonView {
    JsonView::Number(NumeralView::Unsigned(n as u64))
}

/// A funnel as a JSON value, with the counts of its fetch.
pub open spec fn report_tree(result: Seq<JsonView>, stats: FetchStats) -> JsonView {
    JsonView::Object(
        map![
            "steps"@ => JsonView::Array(result),
            "stats"@ => JsonView::Object(
                map![
                    "pages"@ => count_tree(stats.pages as nat),
                    "apiRows"@ => count_tree(stats.api_rows as nat),
                    "timeRows"@ => count_tree(stats.time_rows as nat),
                    "matchedRows"@ => count_tree(stats.matched_rows as nat),
                ],
            ),
        ],
    )
}

/// Builds the JSON report of a funnel.
pub fn funnel_report(result: Vec<Json>, stats: &FetchStats) -> (r: Json)
    ensures
        r@ == report_tree(json::trees(result@), *stats),
{
    let counts = Members::new().insert(
        "pages".to_string(),
        Json::Number(Numeral::Unsigned(stats.pages as u64)),
    ).insert("apiRows".to_string(), Json::Number(Numeral::Unsigned(stats.api_rows as u64))).insert(
        "timeRows".to_string(),
        Json::Number(Numeral::Unsigned(stats.time_rows as u64)),
    ).insert(
        "matchedRows".to_string(),
        Json::Number(Numeral::Unsigned(stats.matched_rows as u64)),
    );
    Json::Object(
        Members::new().insert("steps".to_string(), Json::Array(result)).insert(
            "stats".to_string(),
            Json::Object(counts),
        ),
    )
}

/// What a line of the funnel table says: a step, its count, and the counts that the first step and the
/// step before have.
#[derive(Debug, PartialEq, Eq)]
pub struct FunnelRecord {
    pub step: String,
    pub count: u64,
    pub first: u64,
    pub previous: u64,
}

/// What a line of the funnel table says.
#[verifier::ext_equal]
pub struct RecordView {
    pub step: Seq<char>,
    pub count: u64,
    pub first: u64,
    pub previous: u64,
}

impl View for FunnelRecord {
    type V = RecordView;

    open spec fn view(&self) -> RecordView {
        RecordView {
            step: self.step@,
            count: self.count,
            first: self.first,
            previous: self.previous,
        }
    }
}

/// The records of a list.
pub open spec fn record_views(records: Seq<FunnelRecord>) -> Seq<RecordView> {
    Seq::new(records.len(), |i: int| records[i]@)
}

/// The count in a line of a funnel.
pub open spec fn count_of(line: JsonView) -> u64 {
    match json_path::value_at(line, seq!["count"@]) {
        Some(JsonView::Number(NumeralView::Unsigned(n))) => n,
        _ => 0,
    }
}

/// The step in a line of a funnel.
pub open spec fn step_name(line: JsonView) -> Seq<char> {
    match rows::member_text(line, "step"@) {
        Some(name) => name,
        None => ""@,
    }
}

/// The records of a funnel.
pub open spec fn records(result: Seq<JsonView>) -> Seq<RecordView> {
    Seq::new(
        result.len(),
        |i: int|
            RecordView {
                step: step_name(result[i]),
                count: count_of(result[i]),
                first: count_of(result[0]),
                previous: count_of(
                    result[if i == 0 {
                        0
                    } else {
                        i - 1
                    }],
                ),
            },
    )
}

/// Reads the count in a line of a funnel.
fn read_count(line: &Json) -> (r: u64)
    ensures
        r == count_of(line@),
{
    proof {
        reveal_with_fuel(json_path::value_at, 2);
    }
    match get_member(line, "count") {
        Some(Json::Number(Numeral::Unsigned(n))) => *n,
        _ => 0,
    }
}

/// Lists what the lines of the funnel table say.
pub fn funnel_records(result: &Vec<Json>) -> (r: Vec<FunnelRecord>)
    ensures
        record_views(r@) == records(json::trees(result@)),
{
    let mut out: Vec<FunnelRecord> = Vec::new();
    let ghost all = json::trees(result@);
    proof {
        json::lemma_trees(result@);
    }
    let first: u64 = if result.len() > 0 {
        read_count(&result[0])
    } else {
        0
    };
    let mut previous: u64 = first;
    let mut i: usize = 0;
    while i < result.len()
        invariant
            i <= result@.len(),
            all == json::trees(result@),
            all.len() == result@.len(),
            forall|j: int| 0 <= j < result@.len() ==> #[trigger] all[j] == result@[j]@,
            result@.len() > 0 ==> first == count_of(all[0]),
            i == 0 ==> previous == first,
            i > 0 ==> previous == count_of(all[i - 1]),
            out@.len() == i,
            forall|j: int| 0 <= j < i ==> #[trigger] out@[j]@ == records(all)[j],
        decreases result@.len() - i,
    {
        let line = &result[i];
        let ghost known = all[i as int];
        let step = match get_text(line, "step") {
            Some(name) => name,
            None => "",
        };
        let count: u64 = read_count(line);
        let record = FunnelRecord { step: step.to_string(), count, first, previous };
        proof {
            assert(record@ == records(all)[i as int]);
        }
        out.push(record);
        previous = count;
        i = i + 1;
    }
    proof {
        assert(record_views(out@) =~= records(all));
    }
    out
}

/// The heading of the funnel table.
pub fn funnel_heading() -> (r: &'static str)
    ensures
        r@ == "step\tusers\tconversion\tstep_conversion"@,
{
    "step\tusers\tconversion\tstep_conversion"
}

/// Writes a line of the funnel table, from a record and its two conversion rates as texts.
pub fn funnel_line(record: &FunnelRecord, conversion: &str, step_conversion: &str) -> (r: String)
    ensures
        r@ == record.step@ + "\t"@ + numeral::decimal(record.count as nat) + "\t"@ + conversion@
            + "\t"@ + step_conversion@,
{
    let mut line = record.step.clone();
    line.append("\t");
    line.append(write_decimal(record.count).as_str());
    line.append("\t");
    line.append(conversion);
    line.append("\t");
    line.append(step_conversion);
    line
}

/// Whether rows, by their indices, are those of a unit that takes the first steps in order: each has
/// for its `name` the step of its place, each is later than the one before, and each belongs to the
/// unit. Of steps with one name, rows are those of the last.
pub open spec fn walks(
    at: Seq<int>,
    list: Seq<JsonView>,
    steps: Seq<Seq<char>>,
    unit: Seq<char>,
    who: Seq<char>,
) -> bool {
    &&& forall|k: int|
        0 <= k < at.len() ==> {
            &&& 0 <= #[trigger] at[k] < list.len()
            &&& json_path::value_at(list[at[k]], seq!["name"@]) == Some(JsonView::Text(steps[k]))
            &&& !steps.skip(k + 1).contains(steps[k])
            &&& json_path::cell_text(json_path::path_value(list[at[k]], unit)) == who
        }
    &&& forall|j: int, k: int| 0 <= j < k < at.len() ==> #[trigger] at[j] < #[trigger] at[k]
}

/// The last step with a name is the one that no later step has the name of.
proof fn lemma_last_step(steps: Seq<Seq<char>>, k: int)
    requires
        0 <= k < steps.len(),
    ensures
        step_of(steps, steps[k]) == Some(k as nat) <==> !steps.skip(k + 1).contains(steps[k]),
    decreases steps.len(),
{
    let front = steps.drop_last();
    let name = steps[k];
    let later = steps.skip(k + 1);
    if k == steps.len() - 1 {
        assert(later.len() == 0);
    } else {
        lemma_step_of(front, name);
        lemma_last_step(front, k);
        assert(front.skip(k + 1) =~= later.drop_last());
        assert(later.last() == steps.last());
        if steps.last() == name {
            assert(later[later.len() - 1] == name);
        } else {
            assert(later.contains(name) == later.drop_last().contains(name)) by {
                if later.contains(name) {
                    let i = choose|i: int| 0 <= i < later.len() && later[i] == name;
                    assert(later.drop_last()[i] == name);
                }
                if later.drop_last().contains(name) {
                    let i = choose|i: int|
                        0 <= i < later.drop_last().len() && later.drop_last()[i] == name;
                    assert(later[i] == name);
                }
            }
        }
    }
}

/// A unit that walks has taken as many steps as it walks, once the last of its rows is seen.
proof fn lemma_walk_is_taken(
    at: Seq<int>,
    list: Seq<JsonView>,
    steps: Seq<Seq<char>>,
    unit: Seq<char>,
    who: Seq<char>,
)
    requires
        walks(at, list, steps, unit, who),
        0 < at.len() <= steps.len(),
        who.len() > 0,
    ensures
        steps_taken(list.take(at.last() + 1), steps, unit, who) >= at.len(),
    decreases at.len(),
{
    let k = at.len() - 1;
    assert(0 <= at[k] < list.len());
    let seen = list.take(at[k]);
    let next = list.take(at[k] + 1);
    assert(next.drop_last() =~= seen);
    assert(next.last() == list[at[k]]);
    if k > 0 {
        let front = at.drop_last();
        assert forall|i: int, j: int| 0 <= i < j < front.len() implies #[trigger] front[i]
            < #[trigger] front[j] by {
            assert(at[i] < at[j]);
        }
        assert forall|i: int| 0 <= i < front.len() implies {
            &&& 0 <= #[trigger] front[i] < list.len()
            &&& json_path::value_at(list[front[i]], seq!["name"@]) == Some(
                JsonView::Text(steps[i]),
            )
            &&& !steps.skip(i + 1).contains(steps[i])
            &&& json_path::cell_text(json_path::path_value(list[front[i]], unit)) == who
        } by {
            assert(at[i] == front[i]);
        }
        lemma_walk_is_taken(front, list, steps, unit, who);
        assert(at[k - 1] < at[k]);
        let first = list.take(front.last() + 1);
        let more = list.subrange(front.last() + 1, at[k]);
        assert(first + more =~= seen);
        lemma_steps_grow(first, more, steps, unit, who);
    }
    lemma_last_step(steps, k);
    assert(is_step(list[at[k]], steps, k as nat));
}

/// What a funnel counts: in its line of a step stand the name of the step and the number of units that
/// have, for that step and each before it, a row of the step, each later than the row of the step
/// before. A unit is counted exactly where such rows exist; the empty text is no unit.
pub proof fn law_funnel_counts_who_walks(
    list: Seq<JsonView>,
    steps: Seq<Seq<char>>,
    unit: Seq<char>,
    i: int,
)
    requires
        0 <= i < steps.len(),
        list.len() <= u64::MAX,
    ensures
        funnel(list, steps, unit).len() == steps.len(),
        json_path::value_at(funnel(list, steps, unit)[i], seq!["step"@]) == Some(
            JsonView::Text(steps[i]),
        ),
        ({
            let walkers = Set::new(
                |who: Seq<char>|
                    who.len() > 0 && exists|at: Seq<int>|
                        at.len() == i + 1 && #[trigger] walks(at, list, steps, unit, who),
            );
            &&& walkers.finite()
            &&& walkers.len() <= u64::MAX
            &&& json_path::value_at(funnel(list, steps, unit)[i], seq!["count"@]) == Some(
                JsonView::Number(NumeralView::Unsigned(walkers.len() as u64)),
            )
        }),
{
    let walkers = Set::new(
        |who: Seq<char>|
            who.len() > 0 && exists|at: Seq<int>|
                at.len() == i + 1 && #[trigger] walks(at, list, steps, unit, who),
    );
    let counted = takers(list, steps, unit, i);
    assert forall|who: Seq<char>| counted.contains(who) implies walkers.contains(who) by {
        lemma_taken_is_walk(list, steps, unit, who, i + 1);
    }
    assert forall|who: Seq<char>| walkers.contains(who) implies counted.contains(who) by {
        let at = choose|at: Seq<int>|
            at.len() == i + 1 && #[trigger] walks(at, list, steps, unit, who);
        lemma_walk_is_taken(at, list, steps, unit, who);
        assert(0 <= at[i] < list.len());
        let first = list.take(at.last() + 1);
        let more = list.skip(at.last() + 1);
        assert(first + more =~= list);
        lemma_steps_grow(first, more, steps, unit, who);
    }
    assert(counted =~= walkers);
    lemma_takers_finite(list, steps, unit, i);
    lemma_takers_bounded(list, steps, unit, i);
    reveal_with_fuel(json_path::value_at, 2);
    reveal_strlit("step");
    reveal_strlit("count");
    assert("step"@.len() != "count"@.len());
    assert(seq!["step"@].drop_first() =~= Seq::<Seq<char>>::empty());
    assert(seq!["count"@].drop_first() =~= Seq::<Seq<char>>::empty());
}

/// A unit that has taken a number of steps walks them.
proof fn lemma_taken_is_walk(
    list: Seq<JsonView>,
    steps: Seq<Seq<char>>,
    unit: Seq<char>,
    who: Seq<char>,
    count: int,
)
    requires
        0 < count <= steps_taken(list, steps, unit, who),
        count <= steps.len(),
    ensures
        who.len() > 0,
        exists|at: Seq<int>|
            at.len() == count && #[trigger] walks(at, list, steps, unit, who),
{
    let all = law_steps_are_taken_in_order(list, steps, unit, who);
    let at = all.take(count);
    lemma_who_is_named(list, steps, unit, who);
    assert forall|k: int| 0 <= k < at.len() implies {
        &&& 0 <= #[trigger] at[k] < list.len()
        &&& json_path::value_at(list[at[k]], seq!["name"@]) == Some(JsonView::Text(steps[k]))
        &&& !steps.skip(k + 1).contains(steps[k])
        &&& json_path::cell_text(json_path::path_value(list[at[k]], unit)) == who
    } by {
        assert(at[k] == all[k]);
        assert(is_step(list[all[k]], steps, k as nat));
        let name = rows::member_text(list[all[k]], "name"@)->Some_0;
        lemma_step_of(steps, name);
        lemma_last_step(steps, k);
    }
    assert forall|j: int, k: int| 0 <= j < k < at.len() implies #[trigger] at[j]
        < #[trigger] at[k] by {
        assert(all[j] < all[k]);
    }
    assert(walks(at, list, steps, unit, who));
}

/// Only a unit with a text takes steps.
proof fn lemma_who_is_named(
    list: Seq<JsonView>,
    steps: Seq<Seq<char>>,
    unit: Seq<char>,
    who: Seq<char>,
)
    ensures
        steps_taken(list, steps, unit, who) > 0 ==> who.len() > 0,
    decreases list.len(),
{
    if list.len() > 0 {
        lemma_who_is_named(list.drop_last(), steps, unit, who);
    }
}

/// No more units have taken a step than there are rows.
proof fn lemma_takers_bounded(
    list: Seq<JsonView>,
    steps: Seq<Seq<char>>,
    unit: Seq<char>,
    index: int,
)
    requires
        index >= 0,
    ensures
        takers(list, steps, unit, index).len() <= list.len(),
    decreases list.len(),
{
    let now = takers(list, steps, unit, index);
    if list.len() == 0 {
        assert(now =~= Set::empty());
    } else {
        let front = list.drop_last();
        lemma_takers_bounded(front, steps, unit, index);
        lemma_takers_finite(front, steps, unit, index);
        let was = takers(front, steps, unit, index);
        let wider = was.insert(unit_of(list.last(), unit));
        assert(now.subset_of(wider));
        vstd::set_lib::lemma_len_subset(now, wider);
    }
}

/// What the table of a funnel says: each line has the step and the count of its own line, the count of
/// the first line, and that of the line before, which for the first is its own.
pub proof fn law_records_follow_the_lines(
    list: Seq<JsonView>,
    steps: Seq<Seq<char>>,
    unit: Seq<char>,
    i: int,
)
    requires
        0 <= i < steps.len(),
    ensures
        ({
            let lines = funnel(list, steps, unit);
            let shown = records(lines);
            &&& shown.len() == steps.len()
            &&& shown[i].step == steps[i]
            &&& json_path::value_at(lines[i], seq!["count"@]) == Some(
                JsonView::Number(NumeralView::Unsigned(shown[i].count)),
            )
            &&& shown[i].first == shown[0].count
            &&& shown[i].previous == if i == 0 {
                shown[0].count
            } else {
                shown[i - 1].count
            }
        }),
{
    reveal_with_fuel(json_path::value_at, 2);
    reveal_strlit("step");
    reveal_strlit("count");
    assert("step"@.len() != "count"@.len());
    assert(seq!["step"@].drop_first() =~= Seq::<Seq<char>>::empty());
    assert(seq!["count"@].drop_first() =~= Seq::<Seq<char>>::empty());
}

/// The report of a funnel holds its lines and the four counts of its fetch, each under its name.
pub proof fn law_reports_hold_the_lines(result: Seq<JsonView>, stats: FetchStats)
    ensures
        ({
            let report = report_tree(result, stats);
            let count = |n: usize| Some(JsonView::Number(NumeralView::Unsigned(n as u64)));
            &&& json_path::value_at(report, seq!["steps"@]) == Some(JsonView::Array(result))
            &&& json_path::value_at(report, seq!["stats"@, "pages"@]) == count(stats.pages)
            &&& json_path::value_at(report, seq!["stats"@, "apiRows"@]) == count(stats.api_rows)
            &&& json_path::value_at(report, seq!["stats"@, "timeRows"@]) == count(stats.time_rows)
            &&& json_path::value_at(report, seq!["stats"@, "matchedRows"@]) == count(
                stats.matched_rows,
            )
        }),
{
    reveal_strlit("steps");
    reveal_strlit("stats");
    reveal_strlit("pages");
    reveal_strlit("apiRows");
    reveal_strlit("timeRows");
    reveal_strlit("matchedRows");
    assert("steps"@[2] == 'e' && "stats"@[2] == 'a');
    assert("pages"@.len() == 5 && "apiRows"@.len() == 7 && "timeRows"@.len() == 8);
    assert("matchedRows"@.len() == 11);
    reveal_with_fuel(json_path::value_at, 3);
    assert(seq!["steps"@].drop_first() =~= Seq::<Seq<char>>::empty());
    assert(seq!["stats"@, "pages"@].drop_first() =~= seq!["pages"@]);
    assert(seq!["stats"@, "apiRows"@].drop_first() =~= seq!["apiRows"@]);
    assert(seq!["stats"@, "timeRows"@].drop_first() =~= seq!["timeRows"@]);
    assert(seq!["stats"@, "matchedRows"@].drop_first() =~= seq!["matchedRows"@]);
    assert(seq!["pages"@].drop_first() =~= Seq::<Seq<char>>::empty());
    assert(seq!["apiRows"@].drop_first() =~= Seq::<Seq<char>>::empty());
    assert(seq!["timeRows"@].drop_first() =~= Seq::<Seq<char>>::empty());
    assert(seq!["matchedRows"@].drop_first() =~= Seq::<Seq<char>>::empty());
}

} // verus!
