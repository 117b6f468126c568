//! JSON values: trees of plain values, with the members of an object in the order of their names.

use crate::text::{self, before, same};
use vstd::prelude::*;

verus! {

/// A JSON number that is no whole number of 64 bits, as the text that JSON has for it.
#[derive(Debug, PartialEq, Eq)]
pub struct Float {
    pub(crate) text: String,
}

impl Float {
    /// The text that JSON has for the number.
    pub closed spec fn spelling(self) -> Seq<char> {
        self.text@
    }

    /// The text that JSON has for the number.
    pub fn text(&self) -> (r: &str)
        ensures
            r@ == self.spelling(),
    {
        self.text.as_str()
    }
}

/// A JSON number.
#[derive(Debug, PartialEq, Eq)]
pub enum Numeral {
    Unsigned(u64),
    Negative(i64),
    Float(Float),
}

/// What a JSON number is.
pub enum NumeralView {
    Unsigned(u64),
    Negative(i64),
    Float(Seq<char>),
}

impl View for Numeral {
    type V = NumeralView;

    open spec fn view(&self) -> NumeralView {
        match *self {
            Numeral::Unsigned(n) => NumeralView::Unsigned(n),
            Numeral::Negative(n) => NumeralView::Negative(n),
            Numeral::Float(f) => NumeralView::Float(f.spelling()),
        }
    }
}

/// A JSON value.
#[derive(Debug, PartialEq, Eq)]
pub enum Json {
    Null,
    Bool(bool),
    Number(Numeral),
    Text(String),
    Array(Vec<Json>),
    Object(Members),
}

/// The members of a JSON object: each name once, in dictionary order.
#[derive(Debug, PartialEq, Eq)]
pub struct Members {
    pub(crate) list: Vec<(String, Json)>,
}

/// What a JSON value is: a tree in which an object maps names to values.
pub enum JsonView {
    Null,
    Bool(bool),
    Number(NumeralView),
    Text(Seq<char>),
    Array(Seq<JsonView>),
    Object(Map<Seq<char>, JsonView>),
}

/// The tree of a JSON value.
pub closed spec fn tree(value: Json) -> JsonView
    decreases value,
{
    match value {
        Json::Null => JsonView::Null,
        Json::Bool(b) => JsonView::Bool(b),
        Json::Number(n) => JsonView::Number(n@),
        Json::Text(s) => JsonView::Text(s@),
        Json::Array(items) => JsonView::Array(trees(items@)),
        Json::Object(members) => JsonView::Object(member_map(members.list@)),
    }
}

/// The trees of a list of JSON values.
pub closed spec fn trees(items: Seq<Json>) -> Seq<JsonView>
    decreases items,
{
    if items.len() == 0 {
        seq![]
    } else {
        trees(items.drop_last()).push(tree(items.last()))
    }
}

/// The map of a list of members.
spec fn member_map(list: Seq<(String, Json)>) -> Map<Seq<char>, JsonView>
    decreases list,
{
    if list.len() == 0 {
        Map::empty()
    } else {
        member_map(list.drop_last()).insert(list.last().0@, tree(list.last().1))
    }
}

/// Whether the names in a list of members rise.
spec fn rising(list: Seq<(String, Json)>) -> bool {
    forall|i: int, j: int|
        0 <= i < j < list.len() ==> text::text_lt(
            (#[trigger] list[i]).0@,
            (#[trigger] list[j]).0@,
        )
}

impl View for Json {
    type V = JsonView;

    closed spec fn view(&self) -> JsonView {
        tree(*self)
    }
}

impl View for Members {
    type V = Map<Seq<char>, JsonView>;

    closed spec fn view(&self) -> Map<Seq<char>, JsonView> {
        member_map(self.list@)
    }
}

/// The view of a value, by its kind.
pub broadcast proof fn lemma_view(value: Json)
    ensures
        #[trigger] value@ == match value {
            Json::Null => JsonView::Null,
            Json::Bool(b) => JsonView::Bool(b),
            Json::Number(n) => JsonView::Number(n@),
            Json::Text(s) => JsonView::Text(s@),
            Json::Array(items) => JsonView::Array(trees(items@)),
            Json::Object(members) => JsonView::Object(members@),
        },
{
}

/// The trees of a list stand in the order of the list.
pub proof fn lemma_trees(items: Seq<Json>)
    ensures
        trees(items).len() == items.len(),
        forall|i: int| 0 <= i < items.len() ==> #[trigger] trees(items)[i] == items[i]@,
    decreases items.len(),
{
    if items.len() > 0 {
        lemma_trees(items.drop_last());
        assert forall|i: int| 0 <= i < items.len() implies #[trigger] trees(items)[i]
            == items[i]@ by {
            if i < items.len() - 1 {
                assert(trees(items.drop_last())[i] == items.drop_last()[i]@);
            }
        }
    }
}

/// One more value at the end of a list is one more tree at the end.
pub proof fn lemma_trees_push(items: Seq<Json>, item: Json)
    ensures
        trees(items.push(item)) == trees(items).push(item@),
        trees(Seq::<Json>::empty()) == Seq::<JsonView>::empty(),
{
    assert(items.push(item).drop_last() == items);
}

/// In a rising list, the map has exactly the listed names, each with its value.
proof fn lemma_member_map(list: Seq<(String, Json)>)
    requires
        rising(list),
    ensures
        forall|i: int|
            0 <= i < list.len() ==> member_map(list).contains_key((#[trigger] list[i]).0@)
                && member_map(list)[list[i].0@] == list[i].1@,
        forall|k: Seq<char>| #[trigger]
            member_map(list).contains_key(k) ==> exists|i: int|
                0 <= i < list.len() && (#[trigger] list[i]).0@ == k,
    decreases list.len(),
{
    if list.len() > 0 {
        let front = list.drop_last();
        let last = list.last();
        assert(rising(front)) by {
            assert forall|i: int, j: int| 0 <= i < j < front.len() implies text::text_lt(
                (#[trigger] front[i]).0@,
                (#[trigger] front[j]).0@,
            ) by {
                assert(text::text_lt(list[i].0@, list[j].0@));
            }
        }
        lemma_member_map(front);
        assert forall|i: int| 0 <= i < list.len() implies member_map(list).contains_key(
            (#[trigger] list[i]).0@,
        ) && member_map(list)[list[i].0@] == list[i].1@ by {
            if i < front.len() {
                assert(front[i] == list[i]);
                text::lemma_text_lt_irreflexive(last.0@);
                assert(text::text_lt(list[i].0@, list[list.len() - 1].0@));
            }
        }
        assert forall|k: Seq<char>| #[trigger] member_map(list).contains_key(k) implies exists|
            i: int,
        | 0 <= i < list.len() && (#[trigger] list[i]).0@ == k by {
            if k == last.0@ {
                assert(list[list.len() - 1].0@ == k);
            } else {
                assert(member_map(front).contains_key(k));
                let i = choose|i: int| 0 <= i < front.len() && (#[trigger] front[i]).0@ == k;
                assert(list[i].0@ == k);
            }
        }
    }
}

impl Members {
    #[verifier::type_invariant]
    spec fn in_order(self) -> bool {
        rising(self.list@)
    }

    /// An object without members.
    pub fn new() -> (r: Members)
        ensures
            r@ == Map::<Seq<char>, JsonView>::empty(),
    {
        Members { list: Vec::new() }
    }

    /// The number of members.
    pub closed spec fn count(self) -> nat {
        self.list@.len()
    }

    /// The name of the member with an index.
    pub closed spec fn name_at(self, i: int) -> Seq<char> {
        self.list@[i].0@
    }

    /// The number of members.
    pub fn len(&self) -> (r: usize)
        ensures
            r == self.count(),
            r == 0 <==> self@ == Map::<Seq<char>, JsonView>::empty(),
            forall|k: Seq<char>| #[trigger]
                self@.contains_key(k) ==> exists|i: int|
                    0 <= i < self.count() && #[trigger] self.name_at(i) == k,
            forall|i: int, j: int|
                0 <= i < j < self.count() ==> text::text_lt(
                    #[trigger] self.name_at(i),
                    #[trigger] self.name_at(j),
                ),
    {
        proof {
            use_type_invariant(self);
            lemma_member_map(self.list@);
            if self.list@.len() > 0 {
                assert(self@.contains_key(self.list@[0].0@));
            }
            assert forall|k: Seq<char>| #[trigger] self@.contains_key(k) implies exists|i: int|
                0 <= i < self.count() && #[trigger] self.name_at(i) == k by {
                let i = choose|i: int| 0 <= i < self.list@.len() && (#[trigger] self.list@[i]).0@ == k;
                assert(self.name_at(i) == k);
            }
        }
        self.list.len()
    }

    /// The member with an index, in dictionary order.
    pub fn entry(&self, i: usize) -> (r: (&str, &Json))
        requires
            i < self.count(),
        ensures
            r.0@ == self.name_at(i as int),
            self@.contains_key(r.0@),
            self@[r.0@] == r.1@,
            decreases_to!(self => r.1),
    {
        proof {
            use_type_invariant(self);
            lemma_member_map(self.list@);
        }
        let member = &self.list[i];
        proof {
            assert(*member == self.list@[i as int]);
        }
        (member.0.as_str(), &member.1)
    }

    /// The first index whose name does not stand before `key`, and whether it is `key`.
    fn place(&self, key: &str) -> (r: (usize, bool))
        ensures
            r.0 <= self.list@.len(),
            forall|i: int|
                0 <= i < r.0 ==> text::text_lt((#[trigger] self.list@[i]).0@, key@),
            forall|i: int|
                r.0 < i < self.list@.len() ==> text::text_lt(key@, (#[trigger] self.list@[i]).0@),
            r.1 ==> r.0 < self.list@.len() && self.list@[r.0 as int].0@ == key@,
            !r.1 ==> r.0 < self.list@.len() ==> text::text_lt(
                key@,
                self.list@[r.0 as int].0@,
            ),
            r.1 <==> self@.contains_key(key@),
    {
        proof {
            use_type_invariant(self);
            lemma_member_map(self.list@);
            text::lemma_text_lt_irreflexive(key@);
        }
        let mut i: usize = 0;
        while i < self.list.len() && before(self.list[i].0.as_str(), key)
            invariant
                i <= self.list@.len(),
                forall|j: int|
                    0 <= j < i ==> text::text_lt((#[trigger] self.list@[j]).0@, key@),
            decreases self.list@.len() - i,
        {
            i = i + 1;
        }
        let found = i < self.list.len() && same(self.list[i].0.as_str(), key);
        proof {
            let list = self.list@;
            if i < list.len() {
                let here = list[i as int].0@;
                text::lemma_text_lt_total(here, key@);
                assert forall|j: int| i < j < list.len() implies text::text_lt(
                    key@,
                    (#[trigger] list[j]).0@,
                ) by {
                    assert(text::text_lt(list[i as int].0@, list[j].0@));
                    if here != key@ {
                        text::lemma_text_lt_transitive(key@, here, list[j].0@);
                    }
                }
            }
            if self@.contains_key(key@) {
                let j = choose|j: int| 0 <= j < list.len() && (#[trigger] list[j]).0@ == key@;
                assert(!text::text_lt(list[j].0@, key@));
            }
        }
        (i, found)
    }

    /// The value of a member.
    pub fn get(&self, key: &str) -> (r: Option<&Json>)
        ensures
            match r {
                Some(v) => self@.contains_key(key@) && self@[key@] == v@,
                None => !self@.contains_key(key@),
            },
    {
        proof {
            use_type_invariant(self);
            lemma_member_map(self.list@);
        }
        let (i, found) = self.place(key);
        if found {
            proof {
                assert(self.list@[i as int].0@ == key@);
            }
            Some(&self.list[i].1)
        } else {
            None
        }
    }

    /// The object with one member set.
    pub fn insert(self, key: String, value: Json) -> (r: Members)
        ensures
            r@ == self@.insert(key@, value@),
    {
        proof {
            use_type_invariant(&self);
            lemma_member_map(self.list@);
        }
        let ghost before = self.list@;
        let ghost map = self@;
        let ghost name = key@;
        let ghost tree_of = value@;
        let (i, found) = self.place(key.as_str());
        let Members { mut list } = self;
        if found {
            let _ = list.remove(i);
        }
        list.insert(i, (key, value));
        proof {
            let shift = if found {
                0int
            } else {
                1int
            };
            assert(list@[i as int].0@ == name);
            assert forall|j: int| 0 <= j < list@.len() && j != i implies (#[trigger] list@[j])
                == before[if j < i {
                j
            } else {
                j - shift
            }] by {}
            assert(rising(list@)) by {
                assert forall|a: int, b: int| 0 <= a < b < list@.len() implies text::text_lt(
                    (#[trigger] list@[a]).0@,
                    (#[trigger] list@[b]).0@,
                ) by {
                    let a0 = if a < i {
                        a
                    } else {
                        a - shift
                    };
                    let b0 = if b < i {
                        b
                    } else {
                        b - shift
                    };
                    if a != i && b != i {
                        assert(text::text_lt(before[a0].0@, before[b0].0@));
                    } else if a == i {
                        assert(text::text_lt(name, before[b0].0@));
                    } else {
                        assert(text::text_lt(before[a0].0@, name));
                    }
                }
            }
            lemma_member_map(list@);
            let new_map = member_map(list@);
            let want = map.insert(name, tree_of);
            assert forall|k: Seq<char>| new_map.contains_key(k) == want.contains_key(k) by {
                if new_map.contains_key(k) {
                    let j = choose|j: int| 0 <= j < list@.len() && (#[trigger] list@[j]).0@ == k;
                    if j != i {
                        let j0 = if j < i {
                            j
                        } else {
                            j - shift
                        };
                        assert(map.contains_key(before[j0].0@));
                    }
                }
                if want.contains_key(k) && k != name {
                    let j0 = choose|j0: int|
                        0 <= j0 < before.len() && (#[trigger] before[j0]).0@ == k;
                    let j = if j0 < i {
                        j0
                    } else {
                        j0 + shift
                    };
                    assert(list@[j] == before[j0]);
                    assert(new_map.contains_key(list@[j].0@));
                }
            }
            assert forall|k: Seq<char>| new_map.contains_key(k) implies #[trigger] new_map[k]
                == want[k] by {
                let j = choose|j: int| 0 <= j < list@.len() && (#[trigger] list@[j]).0@ == k;
                if j == i {
                    assert(new_map[list@[i as int].0@] == list@[i as int].1@);
                } else {
                    let j0 = if j < i {
                        j
                    } else {
                        j - shift
                    };
                    assert(list@[j] == before[j0]);
                    assert(map[before[j0].0@] == before[j0].1@);
                    text::lemma_text_lt_irreflexive(name);
                    assert(k != name);
                }
            }
            assert(new_map =~= want);
        }
        Members { list }
    }

    /// The object without a member, and the value that the member had.
    pub fn take(self, key: &str) -> (r: (Members, Option<Json>))
        ensures
            r.0@ == self@.remove(key@),
            match r.1 {
                Some(v) => self@.contains_key(key@) && self@[key@] == v@,
                None => !self@.contains_key(key@),
            },
    {
        proof {
            use_type_invariant(&self);
            lemma_member_map(self.list@);
        }
        let ghost before = self.list@;
        let ghost map = self@;
        let (i, found) = self.place(key);
        if !found {
            proof {
                assert(map.remove(key@) =~= map);
            }
            return (self, None);
        }
        let Members { mut list } = self;
        let (name, value) = list.remove(i);
        proof {
            assert(before[i as int].0@ == key@);
            assert forall|j: int| 0 <= j < list@.len() implies (#[trigger] list@[j]) == before[if j
                < i {
                j
            } else {
                j + 1
            }] by {}
            assert(rising(list@)) by {
                assert forall|a: int, b: int| 0 <= a < b < list@.len() implies text::text_lt(
                    (#[trigger] list@[a]).0@,
                    (#[trigger] list@[b]).0@,
                ) by {
                    let a0 = if a < i {
                        a
                    } else {
                        a + 1
                    };
                    let b0 = if b < i {
                        b
                    } else {
                        b + 1
                    };
                    assert(text::text_lt(before[a0].0@, before[b0].0@));
                }
            }
            lemma_member_map(list@);
            text::lemma_text_lt_irreflexive(key@);
            let new_map = member_map(list@);
            let want = map.remove(key@);
            assert forall|k: Seq<char>| new_map.contains_key(k) == want.contains_key(k) by {
                if new_map.contains_key(k) {
                    let j = choose|j: int| 0 <= j < list@.len() && (#[trigger] list@[j]).0@ == k;
                    let j0 = if j < i {
                        j
                    } else {
                        j + 1
                    };
                    assert(map.contains_key(before[j0].0@));
                    assert(k != key@);
                }
                if want.contains_key(k) {
                    let j0 = choose|j0: int|
                        0 <= j0 < before.len() && (#[trigger] before[j0]).0@ == k;
                    let j = if j0 < i {
                        j0
                    } else {
                        j0 - 1
                    };
                    assert(list@[j] == before[j0]);
                    assert(new_map.contains_key(list@[j].0@));
                }
            }
            assert forall|k: Seq<char>| new_map.contains_key(k) implies #[trigger] new_map[k]
                == want[k] by {
                let j = choose|j: int| 0 <= j < list@.len() && (#[trigger] list@[j]).0@ == k;
                let j0 = if j < i {
                    j
                } else {
                    j + 1
                };
                assert(list@[j] == before[j0]);
                assert(map[before[j0].0@] == before[j0].1@);
            }
            assert(new_map =~= want);
        }
        (Members { list }, Some(value))
    }

    /// The names of the members, in dictionary order.
    pub fn names(&self) -> (r: Vec<String>)
        ensures
            text::texts(r@) == names_in_order(self@),
            sorted_names(text::texts(r@), self@),
    {
        proof {
            use_type_invariant(self);
            lemma_member_map(self.list@);
        }
        let mut out: Vec<String> = Vec::new();
        let mut i: usize = 0;
        while i < self.list.len()
            invariant
                i <= self.list@.len(),
                out@.len() == i,
                forall|j: int| 0 <= j < i ==> (#[trigger] out@[j])@ == self.list@[j].0@,
            decreases self.list@.len() - i,
        {
            out.push(self.list[i].0.clone());
            i = i + 1;
        }
        proof {
            let names = text::texts(out@);
            assert forall|a: int, b: int| 0 <= a < b < names.len() implies text::text_lt(
                #[trigger] names[a],
                #[trigger] names[b],
            ) by {
                assert(names[a] == self.list@[a].0@);
                assert(names[b] == self.list@[b].0@);
            }
            assert forall|k: Seq<char>| self@.contains_key(k) == #[trigger] names.contains(k) by {
                if self@.contains_key(k) {
                    let j = choose|j: int|
                        0 <= j < self.list@.len() && (#[trigger] self.list@[j]).0@ == k;
                    assert(names[j] == k);
                }
                if names.contains(k) {
                    let j = choose|j: int| 0 <= j < names.len() && names[j] == k;
                    assert(self.list@[j].0@ == k);
                }
            }
            lemma_names_in_order(names, self@);
        }
        out
    }
}

/// Whether a list of names is that of the members of an object, each once, in dictionary order.
pub open spec fn sorted_names(names: Seq<Seq<char>>, members: Map<Seq<char>, JsonView>) -> bool {
    &&& forall|i: int, j: int|
        0 <= i < j < names.len() ==> text::text_lt(#[trigger] names[i], #[trigger] names[j])
    &&& forall|k: Seq<char>| members.contains_key(k) == #[trigger] names.contains(k)
}

/// The names of the members of an object, in dictionary order.
pub open spec fn names_in_order(members: Map<Seq<char>, JsonView>) -> Seq<Seq<char>> {
    choose|names: Seq<Seq<char>>| sorted_names(names, members)
}

/// Two lists that rise and hold the same names are one.
proof fn lemma_rising_names(a: Seq<Seq<char>>, b: Seq<Seq<char>>)
    requires
        forall|i: int, j: int|
            0 <= i < j < a.len() ==> text::text_lt(#[trigger] a[i], #[trigger] a[j]),
        forall|i: int, j: int|
            0 <= i < j < b.len() ==> text::text_lt(#[trigger] b[i], #[trigger] b[j]),
        forall|k: Seq<char>| #[trigger] a.contains(k) == b.contains(k),
    ensures
        a == b,
    decreases a.len(),
{
    if a.len() == 0 {
        if b.len() > 0 {
            assert(a.contains(b[0]) == b.contains(b[0]));
        }
        assert(a =~= b);
    } else {
        let last = a.len() - 1;
        assert(a.contains(a[last]));
        assert(b.contains(a[last]));
        let end = b.len() - 1;
        assert(b.contains(b[end]));
        assert(a.contains(b[end]));
        let j = choose|j: int| 0 <= j < b.len() && b[j] == a[last];
        let i = choose|i: int| 0 <= i < a.len() && a[i] == b[end];
        if a[last] != b[end] {
            text::lemma_text_lt_transitive(a[last], b[end], a[last]);
            text::lemma_text_lt_irreflexive(a[last]);
        }
        let front = a.drop_last();
        let others = b.drop_last();
        assert forall|k: Seq<char>| #[trigger] front.contains(k) == others.contains(k) by {
            text::lemma_text_lt_irreflexive(a[last]);
            assert(a.contains(k) == b.contains(k));
            if front.contains(k) {
                let x = choose|x: int| 0 <= x < front.len() && front[x] == k;
                assert(a[x] == k);
                assert(text::text_lt(a[x], a[last]));
                let y = choose|y: int| 0 <= y < b.len() && b[y] == k;
                assert(others[y] == k);
            }
            if others.contains(k) {
                let y = choose|y: int| 0 <= y < others.len() && others[y] == k;
                assert(b[y] == k);
                assert(text::text_lt(b[y], b[end]));
                let x = choose|x: int| 0 <= x < a.len() && a[x] == k;
                assert(front[x] == k);
            }
        }
        lemma_rising_names(front, others);
        assert(a =~= front.push(a[last]));
        assert(b =~= others.push(b[end]));
    }
}

/// There is one list of the names of an object in dictionary order.
pub proof fn lemma_names_in_order(names: Seq<Seq<char>>, members: Map<Seq<char>, JsonView>)
    requires
        sorted_names(names, members),
    ensures
        names == names_in_order(members),
{
    let other = names_in_order(members);
    assert(sorted_names(other, members));
    assert forall|k: Seq<char>| #[trigger] names.contains(k) == other.contains(k) by {
        assert(members.contains_key(k) == names.contains(k));
        assert(members.contains_key(k) == other.contains(k));
    }
    lemma_rising_names(names, other);
}

impl Clone for Float {
    fn clone(&self) -> (r: Float)
        ensures
            r.spelling() == self.spelling(),
    {
        Float { text: self.text.clone() }
    }
}

impl Clone for Numeral {
    fn clone(&self) -> (r: Numeral)
        ensures
            r@ == self@,
    {
        match self {
            Numeral::Unsigned(n) => Numeral::Unsigned(*n),
            Numeral::Negative(n) => Numeral::Negative(*n),
            Numeral::Float(f) => Numeral::Float(f.clone()),
        }
    }
}

impl Clone for Json {
    fn clone(&self) -> (r: Json)
        ensures
            r@ == self@,
        decreases self,
    {
        match self {
            Json::Null => Json::Null,
            Json::Bool(b) => Json::Bool(*b),
            Json::Number(n) => Json::Number(n.clone()),
            Json::Text(s) => Json::Text(s.clone()),
            Json::Array(items) => {
                let mut out: Vec<Json> = Vec::new();
                let mut i: usize = 0;
                while i < items.len()
                    invariant
                        i <= items@.len(),
                        trees(out@) == trees(items@.take(i as int)),
                        decreases_to!(self => items@),
                    decreases items@.len() - i,
                {
                    let item = items[i].clone();
                    proof {
                        lemma_trees_push(out@, item);
                        assert(items@.take(i + 1).drop_last() == items@.take(i as int));
                    }
                    out.push(item);
                    i = i + 1;
                }
                proof {
                    assert(items@.take(i as int) == items@);
                }
                Json::Array(out)
            },
            Json::Object(members) => {
                proof {
                    use_type_invariant(members);
                }
                let mut list: Vec<(String, Json)> = Vec::new();
                let mut i: usize = 0;
                while i < members.list.len()
                    invariant
                        i <= members.list@.len(),
                        list@.len() == i,
                        forall|j: int|
                            0 <= j < i ==> (#[trigger] list@[j]).0@ == members.list@[j].0@,
                        member_map(list@) == member_map(members.list@.take(i as int)),
                        decreases_to!(self => members.list@),
                    decreases members.list@.len() - i,
                {
                    let member = &members.list[i];
                    let ghost known = members.list@[i as int];
                    let copy = (member.0.clone(), member.1.clone());
                    proof {
                        assert(list@.push(copy).drop_last() == list@);
                        assert(members.list@.take(i + 1).drop_last() == members.list@.take(
                            i as int,
                        ));
                    }
                    list.push(copy);
                    i = i + 1;
                }
                proof {
                    assert(members.list@.take(i as int) == members.list@);
                    assert forall|a: int, b: int| 0 <= a < b < list@.len() implies text::text_lt(
                        (#[trigger] list@[a]).0@,
                        (#[trigger] list@[b]).0@,
                    ) by {
                        assert(text::text_lt(members.list@[a].0@, members.list@[b].0@));
                    }
                }
                Json::Object(Members { list })
            },
        }
    }
}

} // verus!
