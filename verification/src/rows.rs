//! Event rows in the order of their creation.

use crate::json::{self, Json, JsonView};
use crate::json_path::{self, get_member};
use crate::text::{self, before};
use vstd::prelude::*;

verus! {

broadcast use crate::json::lemma_view;

/// The text of a member, where the value has it and it is text.
pub open spec fn member_text(value: JsonView, name: Seq<char>) -> Option<Seq<char>> {
    match json_path::value_at(value, seq![name]) {
        Some(JsonView::Text(s)) => Some(s),
        _ => None,
    }
}

/// When a row was created, as text; empty where the row does not say.
pub open spec fn created(row: JsonView) -> Seq<char> {
    match member_text(row, "createdAt"@) {
        Some(s) => s,
        None => seq![],
    }
}

/// The text of a member.
pub fn get_text<'a>(value: &'a Json, name: &str) -> (r: Option<&'a str>)
    ensures
        text::text_of(r) == member_text(value@, name@),
{
    match get_member(value, name) {
        Some(Json::Text(s)) => Some(s.as_str()),
        _ => None,
    }
}

/// When a row was created, as text.
pub fn created_at(row: &Json) -> (r: &str)
    ensures
        r@ == created(row@),
{
    match get_text(row, "createdAt") {
        Some(s) => s,
        None => {
            proof {
                reveal_strlit("");
                assert(""@ =~= seq![]);
            }
            ""
        },
    }
}

/// Whether rows stand in the order of their creation.
pub open spec fn in_creation_order(rows: Seq<JsonView>) -> bool {
    forall|i: int, j: int|
        0 <= i < j < rows.len() ==> !text::text_lt(
            created(#[trigger] rows[j]),
            created(#[trigger] rows[i]),
        )
}

/// The rows that were created at one time, in their order.
pub open spec fn created_when(rows: Seq<JsonView>, when: Seq<char>) -> Seq<JsonView>
    decreases rows.len(),
{
    if rows.len() == 0 {
        seq![]
    } else if created(rows.last()) == when {
        created_when(rows.drop_last(), when).push(rows.last())
    } else {
        created_when(rows.drop_last(), when)
    }
}

/// Whether `sorted` has the rows of `rows` in the order of their creation, and rows of one time in the
/// order in which they stood.
pub open spec fn sorted_by_creation(rows: Seq<JsonView>, sorted: Seq<JsonView>) -> bool {
    &&& in_creation_order(sorted)
    &&& forall|when: Seq<char>| #[trigger]
        created_when(sorted, when) == created_when(rows, when)
}

/// The rows of one time in two lists in a row.
proof fn lemma_created_when_concat(a: Seq<JsonView>, b: Seq<JsonView>, when: Seq<char>)
    ensures
        created_when(a + b, when) == created_when(a, when) + created_when(b, when),
    decreases b.len(),
{
    if b.len() == 0 {
        assert(a + b =~= a);
        assert(created_when(a, when) + created_when(b, when) =~= created_when(a, when));
    } else {
        assert((a + b).drop_last() =~= a + b.drop_last());
        lemma_created_when_concat(a, b.drop_last(), when);
        assert(created_when(a + b, when) =~= created_when(a, when) + created_when(b, when));
    }
}

/// No row of one time in a list of rows of earlier times.
proof fn lemma_none_when(rows: Seq<JsonView>, when: Seq<char>)
    requires
        forall|i: int| 0 <= i < rows.len() ==> text::text_lt(created(#[trigger] rows[i]), when),
    ensures
        created_when(rows, when) == Seq::<JsonView>::empty(),
    decreases rows.len(),
{
    if rows.len() > 0 {
        text::lemma_text_lt_irreflexive(when);
        assert(text::text_lt(created(rows[rows.len() - 1]), when));
        assert forall|i: int| 0 <= i < rows.drop_last().len() implies text::text_lt(
            created(#[trigger] rows.drop_last()[i]),
            when,
        ) by {
            assert(text::text_lt(created(rows[i]), when));
        }
        lemma_none_when(rows.drop_last(), when);
    }
}

/// Whether no row of `rows` was created after `row`.
spec fn none_after(rows: Seq<JsonView>, row: JsonView) -> bool {
    forall|i: int| 0 <= i < rows.len() ==> !text::text_lt(created(row), created(#[trigger] rows[i]))
}

/// In a list in order, nothing was created after the last row.
proof fn lemma_last_is_latest(rows: Seq<JsonView>)
    requires
        in_creation_order(rows),
        rows.len() > 0,
    ensures
        none_after(rows, rows.last()),
{
    assert forall|i: int| 0 <= i < rows.len() implies !text::text_lt(
        created(rows.last()),
        created(#[trigger] rows[i]),
    ) by {
        if i < rows.len() - 1 {
            assert(!text::text_lt(created(rows[rows.len() - 1]), created(rows[i])));
        } else {
            text::lemma_text_lt_irreflexive(created(rows.last()));
        }
    }
}

/// `a` not after `b` and `b` not after `c`: `a` is not after `c`.
proof fn lemma_not_after(a: Seq<char>, b: Seq<char>, c: Seq<char>)
    requires
        !text::text_lt(b, a),
        !text::text_lt(c, b),
    ensures
        !text::text_lt(c, a),
{
    if text::text_lt(c, a) {
        text::lemma_text_lt_total(b, c);
        if text::text_lt(b, c) {
            text::lemma_text_lt_transitive(b, c, a);
        }
    }
}

/// Reverses a list.
fn reversed(list: Vec<Json>) -> (r: Vec<Json>)
    ensures
        r@ == list@.reverse(),
{
    let mut rest = list;
    let mut out: Vec<Json> = Vec::new();
    proof {
        assert(out@ + rest@.reverse() =~= list@.reverse());
    }
    loop
        invariant
            out@ + rest@.reverse() == list@.reverse(),
        decreases rest@.len(),
    {
        let ghost before = rest@;
        match rest.pop() {
            Some(item) => {
                proof {
                    assert(before =~= rest@.push(item));
                    assert(out@ + before.reverse() =~= out@.push(item) + rest@.reverse());
                }
                out.push(item);
            },
            None => {
                proof {
                    assert(out@ + rest@.reverse() =~= out@);
                }
                return out;
            },
        }
    }
}

/// The trees of a list in reverse are the trees in reverse.
proof fn lemma_trees_reverse(items: Seq<Json>)
    ensures
        json::trees(items.reverse()) == json::trees(items).reverse(),
{
    json::lemma_trees(items);
    json::lemma_trees(items.reverse());
    assert(json::trees(items.reverse()) =~= json::trees(items).reverse());
}

/// The state of a merge: what is left of the two lists, and what has been taken from their ends.
spec fn merging(left: Seq<JsonView>, right: Seq<JsonView>, taken: Seq<JsonView>) -> bool {
    &&& in_creation_order(left)
    &&& in_creation_order(right)
    &&& in_creation_order(taken)
    &&& taken.len() > 0 ==> none_after(left, taken[0])
    &&& taken.len() > 0 ==> none_after(right, taken[0])
}

/// Taking the last row of one list, which no row left was created after, keeps the order.
proof fn lemma_take(rest: Seq<JsonView>, other: Seq<JsonView>, taken: Seq<JsonView>)
    requires
        rest.len() > 0,
        merging(rest, other, taken),
        none_after(other, rest.last()),
    ensures
        merging(rest.drop_last(), other, seq![rest.last()] + taken),
{
    let row = rest.last();
    let next = seq![row] + taken;
    lemma_last_is_latest(rest);
    assert forall|i: int, j: int| 0 <= i < j < rest.drop_last().len() implies !text::text_lt(
        created(#[trigger] rest.drop_last()[j]),
        created(#[trigger] rest.drop_last()[i]),
    ) by {
        assert(!text::text_lt(created(rest[j]), created(rest[i])));
    }
    assert forall|i: int| 0 <= i < rest.drop_last().len() implies !text::text_lt(
        created(row),
        created(#[trigger] rest.drop_last()[i]),
    ) by {
        assert(!text::text_lt(created(row), created(rest[i])));
    }
    assert forall|i: int, j: int| 0 <= i < j < next.len() implies !text::text_lt(
        created(#[trigger] next[j]),
        created(#[trigger] next[i]),
    ) by {
        if i == 0 {
            assert(next[j] == taken[j - 1]);
            assert(!text::text_lt(created(taken[0]), created(rest[rest.len() - 1])));
            if j > 1 {
                assert(!text::text_lt(created(taken[j - 1]), created(taken[0])));
                lemma_not_after(created(row), created(taken[0]), created(taken[j - 1]));
            }
        } else {
            assert(next[i] == taken[i - 1]);
            assert(next[j] == taken[j - 1]);
        }
    }
}

/// Merges two lists in order into one; of rows of one time, those of the left list come first.
fn merge(left: Vec<Json>, right: Vec<Json>) -> (r: Vec<Json>)
    requires
        in_creation_order(json::trees(left@)),
        in_creation_order(json::trees(right@)),
    ensures
        sorted_by_creation(json::trees(left@) + json::trees(right@), json::trees(r@)),
{
    let mut l = left;
    let mut r = right;
    let mut out: Vec<Json> = Vec::new();
    let ghost whole = json::trees(left@) + json::trees(right@);
    let ghost mut taken: Seq<JsonView> = seq![];
    proof {
        json::lemma_trees(out@);
        assert(json::trees(out@).reverse() =~= taken);
        assert forall|when: Seq<char>| #[trigger] created_when(whole, when) == created_when(
            json::trees(l@) + json::trees(r@) + taken,
            when,
        ) by {
            assert(json::trees(l@) + json::trees(r@) + taken =~= whole);
        }
    }
    while l.len() > 0 || r.len() > 0
        invariant
            merging(json::trees(l@), json::trees(r@), taken),
            json::trees(out@).reverse() == taken,
            forall|when: Seq<char>| #[trigger]
                created_when(whole, when) == created_when(
                    json::trees(l@) + json::trees(r@) + taken,
                    when,
                ),
        decreases l@.len() + r@.len(),
    {
        proof {
            json::lemma_trees(l@);
            json::lemma_trees(r@);
        }
        let from_left = if r.len() == 0 {
            true
        } else if l.len() == 0 {
            false
        } else {
            before(created_at(&r[r.len() - 1]), created_at(&l[l.len() - 1]))
        };
        let ghost lv = json::trees(l@);
        let ghost rv = json::trees(r@);
        let ghost l_before = l@;
        let ghost r_before = r@;
        let popped = if from_left {
            l.pop()
        } else {
            r.pop()
        };
        if let Some(row) = popped {
            proof {
                json::lemma_trees(l@);
                json::lemma_trees(r@);
                json::lemma_trees_push(out@, row);
                if from_left {
                    assert(l_before =~= l@.push(row));
                    json::lemma_trees_push(l@, row);
                    assert(json::trees(l@) =~= lv.drop_last());
                    if rv.len() > 0 {
                        lemma_last_is_latest(rv);
                        assert(rv.last() == rv[rv.len() - 1]);
                        assert forall|i: int| 0 <= i < rv.len() implies text::text_lt(
                            created(#[trigger] rv[i]),
                            created(lv.last()),
                        ) by {
                            assert(!text::text_lt(created(rv.last()), created(rv[i])));
                            text::lemma_text_lt_total(created(rv.last()), created(rv[i]));
                            if text::text_lt(created(rv[i]), created(rv.last())) {
                                text::lemma_text_lt_transitive(
                                    created(rv[i]),
                                    created(rv.last()),
                                    created(lv.last()),
                                );
                            }
                        }
                    }
                    assert forall|i: int| 0 <= i < rv.len() implies !text::text_lt(
                        created(lv.last()),
                        created(#[trigger] rv[i]),
                    ) by {
                        if text::text_lt(created(lv.last()), created(rv[i])) {
                            text::lemma_text_lt_transitive(
                                created(rv[i]),
                                created(lv.last()),
                                created(rv[i]),
                            );
                            text::lemma_text_lt_irreflexive(created(rv[i]));
                        }
                    }
                    lemma_take(lv, rv, taken);
                    assert forall|when: Seq<char>| #[trigger] created_when(whole, when)
                        == created_when(
                        json::trees(l@) + json::trees(r@) + (seq![row@] + taken),
                        when,
                    ) by {
                        lemma_taken_left(lv, rv, taken, when);
                        assert(lv.last() == row@);
                    }
                } else {
                    assert(r_before =~= r@.push(row));
                    json::lemma_trees_push(r@, row);
                    assert(json::trees(r@) =~= rv.drop_last());
                    if lv.len() > 0 {
                        lemma_last_is_latest(lv);
                        assert forall|i: int| 0 <= i < lv.len() implies !text::text_lt(
                            created(rv.last()),
                            created(#[trigger] lv[i]),
                        ) by {
                            assert(!text::text_lt(created(lv.last()), created(lv[i])));
                            lemma_not_after(
                                created(lv[i]),
                                created(lv.last()),
                                created(rv.last()),
                            );
                        }
                    }
                    lemma_take(rv, lv, taken);
                    assert forall|when: Seq<char>| #[trigger] created_when(whole, when)
                        == created_when(
                        json::trees(l@) + json::trees(r@) + (seq![row@] + taken),
                        when,
                    ) by {
                        assert(rv =~= rv.drop_last().push(row@));
                        assert(lv + rv.drop_last() + (seq![row@] + taken) =~= lv + rv + taken);
                    }
                }
                taken = seq![row@] + taken;
            }
            out.push(row);
            proof {
                assert(json::trees(out@).reverse() =~= taken);
            }
        }
    }
    proof {
        json::lemma_trees(l@);
        json::lemma_trees(r@);
        lemma_trees_reverse(out@);
        assert(json::trees(l@) + json::trees(r@) + taken =~= taken);
    }
    reversed(out)
}

/// Taking the last row of the left list, later than every row of the right one, changes the rows of no
/// time.
proof fn lemma_taken_left(
    left: Seq<JsonView>,
    right: Seq<JsonView>,
    taken: Seq<JsonView>,
    when: Seq<char>,
)
    requires
        left.len() > 0,
        forall|i: int|
            0 <= i < right.len() ==> text::text_lt(
                created(#[trigger] right[i]),
                created(left.last()),
            ),
    ensures
        created_when(left + right + taken, when) == created_when(
            left.drop_last() + right + (seq![left.last()] + taken),
            when,
        ),
{
    let row = seq![left.last()];
    let front = left.drop_last();
    assert(left =~= front + row);
    assert(left + right + taken =~= front + (row + right) + taken);
    assert(front + right + (row + taken) =~= front + (right + row) + taken);
    lemma_created_when_concat(row, right, when);
    lemma_created_when_concat(right, row, when);
    lemma_created_when_concat(front + (row + right), taken, when);
    lemma_created_when_concat(front + (right + row), taken, when);
    lemma_created_when_concat(front, row + right, when);
    lemma_created_when_concat(front, right + row, when);
    if created(left.last()) == when {
        lemma_none_when(right, when);
        assert(created_when(row, when) + created_when(right, when) =~= created_when(right, when)
            + created_when(row, when));
    } else {
        reveal_with_fuel(created_when, 2);
        assert(row.drop_last() =~= Seq::<JsonView>::empty());
        assert(created_when(row, when) =~= Seq::<JsonView>::empty());
        assert(created_when(row, when) + created_when(right, when) =~= created_when(right, when)
            + created_when(row, when));
    }
}

/// Sorts rows by the time of their creation; rows of one time keep their order.
pub fn sort_by_creation(rows: Vec<Json>) -> (r: Vec<Json>)
    ensures
        sorted_by_creation(json::trees(rows@), json::trees(r@)),
    decreases rows@.len(),
{
    let n: usize = rows.len();
    if n < 2 {
        proof {
            json::lemma_trees(rows@);
        }
        return rows;
    }
    let ghost all = rows@;
    let mut left = rows;
    let right = left.split_off(n / 2);
    let ghost lv = json::trees(left@);
    let ghost rv = json::trees(right@);
    proof {
        json::lemma_trees(all);
        json::lemma_trees(left@);
        json::lemma_trees(right@);
        assert(lv + rv =~= json::trees(all));
    }
    let l = sort_by_creation(left);
    let r = sort_by_creation(right);
    let ghost ls = json::trees(l@);
    let ghost rs = json::trees(r@);
    let out = merge(l, r);
    proof {
        assert forall|when: Seq<char>| #[trigger] created_when(json::trees(out@), when)
            == created_when(json::trees(all), when) by {
            lemma_created_when_concat(ls, rs, when);
            lemma_created_when_concat(lv, rv, when);
            assert(created_when(ls, when) == created_when(lv, when));
            assert(created_when(rs, when) == created_when(rv, when));
            assert(created_when(json::trees(out@), when) == created_when(ls + rs, when));
        }
    }
    out
}

/// A row occurs among the rows of its time as often as among all rows.
proof fn lemma_count_when(rows: Seq<JsonView>, row: JsonView)
    ensures
        rows.to_multiset().count(row) == created_when(rows, created(row)).to_multiset().count(row),
    decreases rows.len(),
{
    broadcast use vstd::seq_lib::group_to_multiset_ensures;

    if rows.len() > 0 {
        let front = rows.drop_last();
        lemma_count_when(front, row);
        assert(rows =~= front.push(rows.last()));
    }
}

/// Sorting loses no row, adds none and repeats none.
pub proof fn law_sorting_keeps_the_rows(rows: Seq<JsonView>, sorted: Seq<JsonView>)
    requires
        sorted_by_creation(rows, sorted),
    ensures
        sorted.to_multiset() == rows.to_multiset(),
        sorted.len() == rows.len(),
{
    broadcast use vstd::seq_lib::group_to_multiset_ensures;

    assert forall|row: JsonView| sorted.to_multiset().count(row) == rows.to_multiset().count(
        row,
    ) by {
        lemma_count_when(rows, row);
        lemma_count_when(sorted, row);
        assert(created_when(sorted, created(row)) == created_when(rows, created(row)));
    }
    assert(sorted.to_multiset() =~= rows.to_multiset());
    assert(sorted.len() == sorted.to_multiset().len());
    assert(rows.len() == rows.to_multiset().len());
}

/// Rows that were sorted stand in the order of the texts of their `createdAt`, those without such a text
/// first.
pub proof fn law_sorted_rows_stand_in_order(
    rows: Seq<JsonView>,
    sorted: Seq<JsonView>,
    i: int,
    j: int,
)
    requires
        sorted_by_creation(rows, sorted),
        0 <= i < j < sorted.len(),
    ensures
        match (
            json_path::value_at(sorted[i], seq!["createdAt"@]),
            json_path::value_at(sorted[j], seq!["createdAt"@]),
        ) {
            (Some(JsonView::Text(a)), Some(JsonView::Text(b))) => !text::text_lt(b, a),
            (Some(JsonView::Text(a)), _) => a.len() == 0,
            _ => true,
        },
{
    assert(!text::text_lt(created(sorted[j]), created(sorted[i])));
}

/// The rows of one time, those with its text for their `createdAt`, keep their order when rows are
/// sorted: they are picked out row by row, and the same before and after. Rows without a text count as
/// those with an empty one.
pub proof fn law_rows_of_one_time_keep_their_order(
    rows: Seq<JsonView>,
    sorted: Seq<JsonView>,
    more: Seq<JsonView>,
    time: Seq<char>,
)
    requires
        sorted_by_creation(rows, sorted),
    ensures
        created_when(sorted, time) == created_when(rows, time),
        created_when(rows + more, time) == created_when(rows, time) + created_when(more, time),
        rows.len() == 1 ==> created_when(rows, time) == if match json_path::value_at(
            rows[0],
            seq!["createdAt"@],
        ) {
            Some(JsonView::Text(c)) => c == time,
            _ => time.len() == 0,
        } {
            rows
        } else {
            Seq::<JsonView>::empty()
        },
{
    lemma_created_when_concat(rows, more, time);
    if rows.len() == 1 {
        reveal_with_fuel(created_when, 2);
        assert(time.len() == 0 ==> time =~= seq![]);
        assert(rows.drop_last() =~= Seq::<JsonView>::empty());
        assert(Seq::<JsonView>::empty().push(rows.last()) =~= rows);
    }
}

} // verus!
