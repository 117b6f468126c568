//! Keeping secrets out of what is shown.

use crate::json::{self, Json, JsonView, Members};
use crate::pattern::{self, contains};
use crate::text::{self, same, to_lower};
use vstd::prelude::*;

verus! {

broadcast use crate::json::lemma_view;

/// Whether a member name stands for a secret.
pub open spec fn is_secret(key: Seq<char>) -> bool {
    let key = text::lowered(key);
    pattern::occurs(key, "secret"@) || pattern::occurs(key, "token"@) || key == "password"@
}

/// Whether a member name stands for a secret: it holds `secret` or `token`, or is `password`, in small
/// or capital letters.
pub fn is_secret_key(key: &str) -> (r: bool)
    ensures
        r == is_secret(key@),
{
    let key = to_lower(key);
    contains(key.as_str(), "secret") || contains(key.as_str(), "token") || same(
        key.as_str(),
        "password",
    )
}

/// A value in which the value of every secret member is hidden.
pub open spec fn redacted(value: JsonView) -> JsonView
    decreases value,
{
    match value {
        JsonView::Object(members) => JsonView::Object(
            Map::new(
                |k: Seq<char>| members.contains_key(k),
                |k: Seq<char>|
                    if is_secret(k) {
                        JsonView::Text("<redacted>"@)
                    } else if members.contains_key(k) {
                        redacted(members[k])
                    } else {
                        JsonView::Null
                    },
            ),
        ),
        JsonView::Array(items) => JsonView::Array(
            Seq::new(
                items.len(),
                |i: int|
                    if 0 <= i < items.len() {
                        redacted(items[i])
                    } else {
                        JsonView::Null
                    },
            ),
        ),
        other => other,
    }
}

/// Hides the value of every secret member of a value, at any depth.
pub fn redact_secrets(value: Json) -> (r: Json)
    ensures
        r@ == redacted(value@),
{
    redacted_copy(&value)
}

/// A copy of a value in which the value of every secret member is hidden.
fn redacted_copy(value: &Json) -> (r: Json)
    ensures
        r@ == redacted(value@),
    decreases value,
{
    match value {
        Json::Object(members) => {
            let count: usize = members.len();
            let ghost want = members_of_redacted(members@);
            let mut out = Members::new();
            let mut i: usize = 0;
            while i < count
                invariant
                    i <= count,
                    count == members.count(),
                    decreases_to!(value => members),
                    want == members_of_redacted(members@),
                    forall|j: int| 0 <= j < i ==> out@.contains_key(#[trigger] members.name_at(j)),
                    forall|k: Seq<char>| #[trigger]
                        out@.contains_key(k) ==> want.contains_key(k) && out@[k] == want[k],
                decreases count - i,
            {
                let (name, item) = members.entry(i);
                let hidden = if is_secret_key(name) {
                    Json::Text("<redacted>".to_string())
                } else {
                    redacted_copy(item)
                };
                proof {
                    assert(hidden@ == want[name@]);
                }
                out = out.insert(name.to_string(), hidden);
                i = i + 1;
            }
            proof {
                assert forall|k: Seq<char>| want.contains_key(k) implies out@.contains_key(k) by {
                    assert(members@.contains_key(k));
                    let j = choose|j: int|
                        0 <= j < members.count() && #[trigger] members.name_at(j) == k;
                    assert(out@.contains_key(members.name_at(j)));
                }
                assert(out@ =~= want);
            }
            Json::Object(out)
        },
        Json::Array(items) => {
            let mut out: Vec<Json> = Vec::new();
            let mut i: usize = 0;
            proof {
                json::lemma_trees(items@);
                json::lemma_trees(out@);
            }
            let ghost want = items_of_redacted(json::trees(items@));
            while i < items.len()
                invariant
                    i <= items@.len(),
                    decreases_to!(value => items@),
                    want == items_of_redacted(json::trees(items@)),
                    json::trees(items@).len() == items@.len(),
                    forall|j: int|
                        0 <= j < items@.len() ==> #[trigger] json::trees(items@)[j] == items@[j]@,
                    json::trees(out@) == want.take(i as int),
                decreases items@.len() - i,
            {
                let item = redacted_copy(&items[i]);
                proof {
                    json::lemma_trees_push(out@, item);
                    assert(json::trees(items@)[i as int] == items@[i as int]@);
                    assert(want.take(i + 1) == want.take(i as int).push(item@));
                }
                out.push(item);
                i = i + 1;
            }
            proof {
                assert(want.take(i as int) == want);
            }
            Json::Array(out)
        },
        other => other.clone(),
    }
}

/// The members of an object with the value of every secret member hidden.
spec fn members_of_redacted(members: Map<Seq<char>, JsonView>) -> Map<Seq<char>, JsonView> {
    redacted(JsonView::Object(members))->Object_0
}

/// The items of an array with the value of every secret member hidden.
spec fn items_of_redacted(items: Seq<JsonView>) -> Seq<JsonView> {
    redacted(JsonView::Array(items))->Array_0
}

/// Whether a value shows no secret: every secret member, at any depth, has the placeholder for value.
pub open spec fn shows_no_secret(value: JsonView) -> bool
    decreases value,
{
    match value {
        JsonView::Object(members) => forall|k: Seq<char>| #[trigger]
            members.contains_key(k) ==> if is_secret(k) {
                members[k] == JsonView::Text("<redacted>"@)
            } else {
                shows_no_secret(members[k])
            },
        JsonView::Array(items) => forall|i: int|
            0 <= i < items.len() ==> shows_no_secret(#[trigger] items[i]),
        _ => true,
    }
}

/// No secret is left in a value after redaction.
pub proof fn law_redacted_shows_no_secret(value: JsonView)
    ensures
        shows_no_secret(redacted(value)),
    decreases value,
{
    match value {
        JsonView::Object(members) => {
            let hidden = redacted(value)->Object_0;
            assert forall|k: Seq<char>| #[trigger] hidden.contains_key(k) implies if is_secret(k) {
                hidden[k] == JsonView::Text("<redacted>"@)
            } else {
                shows_no_secret(hidden[k])
            } by {
                if !is_secret(k) {
                    law_redacted_shows_no_secret(members[k]);
                }
            }
        },
        JsonView::Array(items) => {
            let hidden = redacted(value)->Array_0;
            assert forall|i: int| 0 <= i < hidden.len() implies shows_no_secret(
                #[trigger] hidden[i],
            ) by {
                law_redacted_shows_no_secret(items[i]);
            }
        },
        _ => {},
    }
}

/// Redaction leaves a value that shows no secret as it is.
pub proof fn law_redaction_keeps_the_rest(value: JsonView)
    requires
        shows_no_secret(value),
    ensures
        redacted(value) == value,
    decreases value,
{
    match value {
        JsonView::Object(members) => {
            let hidden = redacted(value)->Object_0;
            assert forall|k: Seq<char>| members.contains_key(k) implies #[trigger] hidden[k]
                == members[k] by {
                if !is_secret(k) {
                    law_redaction_keeps_the_rest(members[k]);
                }
            }
            assert(hidden =~= members);
        },
        JsonView::Array(items) => {
            let hidden = redacted(value)->Array_0;
            assert forall|i: int| 0 <= i < items.len() implies hidden[i] == items[i] by {
                law_redaction_keeps_the_rest(items[i]);
            }
            assert(hidden =~= items);
        },
        _ => {},
    }
}

/// Which member names stand for secrets: those that hold `secret` or `token`, and `password`, in small
/// letters or capitals.
pub proof fn law_secret_names(key: Seq<char>)
    ensures
        is_secret(key) <==> {
            ||| exists|a: Seq<char>, b: Seq<char>|
                text::lowered(key) == #[trigger] (a + "secret"@ + b)
            ||| exists|a: Seq<char>, b: Seq<char>|
                text::lowered(key) == #[trigger] (a + "token"@ + b)
            ||| text::lowered(key) == "password"@
        },
{
    lemma_holds(text::lowered(key), "secret"@);
    lemma_holds(text::lowered(key), "token"@);
}

/// A text holds another where it is that with something before and behind it.
proof fn lemma_holds(s: Seq<char>, word: Seq<char>)
    ensures
        pattern::occurs(s, word) <==> exists|a: Seq<char>, b: Seq<char>|
            s == #[trigger] (a + word + b),
{
    if pattern::occurs(s, word) {
        let i = choose|i: int| pattern::occurs_at(s, word, i);
        let a = s.take(i);
        let b = s.skip(i + word.len());
        assert(s =~= a + s.subrange(i, i + word.len()) + b);
        assert(s == a + word + b);
    }
    assert forall|a: Seq<char>, b: Seq<char>| s == #[trigger] (a + word + b) implies
        pattern::occurs(s, word) by {
        let i = a.len() as int;
        assert(s.subrange(i, i + word.len()) =~= word);
        assert(pattern::occurs_at(s, word, i));
    }
}

/// Redaction hides secrets and nothing else: an object keeps its members and a list its items, the value
/// of a secret member gives way to one text whatever it was, and any other value is treated likewise in
/// its place. What is neither an object nor a list stays.
pub proof fn law_redaction_goes_part_by_part(value: JsonView)
    ensures
        match value {
            JsonView::Object(members) => redacted(value) matches JsonView::Object(shown) && shown.dom()
                == members.dom() && forall|k: Seq<char>| #[trigger]
                members.contains_key(k) ==> shown[k] == if is_secret(k) {
                    JsonView::Text("<redacted>"@)
                } else {
                    redacted(members[k])
                },
            JsonView::Array(items) => redacted(value) matches JsonView::Array(shown) && shown.len()
                == items.len() && forall|i: int|
                0 <= i < items.len() ==> #[trigger] shown[i] == redacted(items[i]),
            _ => redacted(value) == value,
        },
{
    if let JsonView::Object(members) = value {
        assert(redacted(value)->Object_0.dom() =~= members.dom());
    }
}

} // verus!
