//! Searching, splitting, joining and replacing in texts.

use crate::text::{self, chars_of, text_between};
use vstd::prelude::*;
use vstd::string::StringExecFns;

verus! {

/// Whether `pat` stands in `s` at index `i`.
pub open spec fn occurs_at(s: Seq<char>, pat: Seq<char>, i: int) -> bool {
    &&& 0 <= i
    &&& i + pat.len() <= s.len()
    &&& s.subrange(i, i + pat.len()) == pat
}

/// The first index, from `i` on, at which `pat` stands in `s`.
pub open spec fn first_from(s: Seq<char>, pat: Seq<char>, i: int) -> Option<int>
    decreases s.len() - i + 1,
{
    if i < 0 || i + pat.len() > s.len() {
        None
    } else if occurs_at(s, pat, i) {
        Some(i)
    } else {
        first_from(s, pat, i + 1)
    }
}

/// The first index at which `pat` stands in `s`.
pub open spec fn first_at(s: Seq<char>, pat: Seq<char>) -> Option<int> {
    first_from(s, pat, 0)
}

/// What `first_from` finds is an occurrence, and there is none before it.
pub proof fn lemma_first_from(s: Seq<char>, pat: Seq<char>, i: int)
    requires
        0 <= i,
    ensures
        match first_from(s, pat, i) {
            Some(k) => i <= k && occurs_at(s, pat, k) && forall|j: int|
                i <= j < k ==> !occurs_at(s, pat, j),
            None => forall|j: int| i <= j ==> !occurs_at(s, pat, j),
        },
    decreases s.len() - i + 1,
{
    if i + pat.len() <= s.len() && !occurs_at(s, pat, i) {
        lemma_first_from(s, pat, i + 1);
    }
}

/// An occurrence with none before it is the one that `first_at` finds.
pub proof fn lemma_first_at_is(s: Seq<char>, pat: Seq<char>, k: int)
    requires
        occurs_at(s, pat, k),
        forall|j: int| 0 <= j < k ==> !occurs_at(s, pat, j),
    ensures
        first_at(s, pat) == Some(k),
{
    lemma_first_from(s, pat, 0);
}

/// Whether `pat` stands anywhere in `s`.
pub open spec fn occurs(s: Seq<char>, pat: Seq<char>) -> bool {
    exists|i: int| occurs_at(s, pat, i)
}

/// Whether `s` begins with `pat`.
pub open spec fn begins(s: Seq<char>, pat: Seq<char>) -> bool {
    pat.len() <= s.len() && s.take(pat.len() as int) == pat
}

/// Whether `pat` stands in the characters at index `at`.
fn stands_at(chars: &Vec<char>, pat: &Vec<char>, at: usize) -> (r: bool)
    requires
        at + pat@.len() <= chars@.len(),
    ensures
        r == occurs_at(chars@, pat@, at as int),
{
    let total: usize = chars.len();
    let mut i: usize = 0;
    while i < pat.len()
        invariant
            i <= pat@.len(),
            at + pat@.len() <= chars@.len(),
            total == chars@.len(),
            forall|j: int| 0 <= j < i ==> chars@[at + j] == pat@[j],
        decreases pat@.len() - i,
    {
        if chars[at + i] != pat[i] {
            proof {
                if chars@.subrange(at as int, at + pat@.len()) == pat@ {
                    assert(chars@.subrange(at as int, at + pat@.len())[i as int] == pat@[i as int]);
                }
            }
            return false;
        }
        i = i + 1;
    }
    assert(chars@.subrange(at as int, at + pat@.len()) == pat@);
    true
}

/// Finds the first place of `pat` in the characters, from `from` on.
fn find_from(chars: &Vec<char>, pat: &Vec<char>, from: usize) -> (r: Option<usize>)
    requires
        from <= chars@.len(),
    ensures
        match r {
            Some(k) => first_from(chars@, pat@, from as int) == Some(k as int) && from <= k && k
                + pat@.len() <= chars@.len(),
            None => first_from(chars@, pat@, from as int) is None,
        },
{
    let mut i: usize = from;
    while pat.len() <= chars.len() - i
        invariant
            from <= i <= chars@.len(),
            first_from(chars@, pat@, from as int) == first_from(chars@, pat@, i as int),
        decreases chars@.len() - i,
    {
        if stands_at(chars, pat, i) {
            return Some(i);
        }
        if i == chars.len() {
            assert(first_from(chars@, pat@, i + 1) is None);
            return None;
        }
        i = i + 1;
    }
    None
}

/// Whether `pat` stands anywhere in `s`.
pub fn contains(s: &str, pat: &str) -> (r: bool)
    ensures
        r == occurs(s@, pat@),
{
    let chars = chars_of(s);
    let pattern = chars_of(pat);
    proof {
        lemma_first_from(s@, pat@, 0);
    }
    match find_from(&chars, &pattern, 0) {
        Some(k) => {
            assert(occurs_at(s@, pat@, k as int));
            true
        },
        None => false,
    }
}

/// Whether `s` begins with `pat`.
pub fn starts_with(s: &str, pat: &str) -> (r: bool)
    ensures
        r == begins(s@, pat@),
{
    let chars = chars_of(s);
    let pattern = chars_of(pat);
    proof {
        if pat@.len() <= s@.len() {
            assert(s@.take(pat@.len() as int) == s@.subrange(0, pat@.len() as int));
        }
    }
    pattern.len() <= chars.len() && stands_at(&chars, &pattern, 0)
}

/// The pieces of `s` between the occurrences of `pat`, found from left to right without overlap.
pub open spec fn pieces(s: Seq<char>, pat: Seq<char>) -> Seq<Seq<char>>
    decreases s.len(),
{
    match first_at(s, pat) {
        Some(k) => if pat.len() > 0 && 0 <= k && k + pat.len() <= s.len() {
            seq![s.take(k)] + pieces(s.skip(k + pat.len()), pat)
        } else {
            seq![s]
        },
        None => seq![s],
    }
}

/// The two sides of the first `pat` in `s`.
pub open spec fn sides(s: Seq<char>, pat: Seq<char>) -> Option<(Seq<char>, Seq<char>)> {
    match first_at(s, pat) {
        Some(k) => Some((s.take(k), s.skip(k + pat.len()))),
        None => None,
    }
}

/// The search from `i` on in `s` is the search from the start in what is left of `s` at `i`.
pub proof fn lemma_first_from_skip(s: Seq<char>, pat: Seq<char>, i: int)
    requires
        0 <= i <= s.len(),
    ensures
        match first_from(s, pat, i) {
            Some(k) => first_at(s.skip(i), pat) == Some(k - i),
            None => first_at(s.skip(i), pat) is None,
        },
{
    lemma_first_from(s, pat, i);
    lemma_first_from(s.skip(i), pat, 0);
    assert forall|j: int| 0 <= j implies #[trigger] occurs_at(s.skip(i), pat, j) == occurs_at(
        s,
        pat,
        i + j,
    ) by {
        if i + j + pat.len() <= s.len() {
            assert(s.skip(i).subrange(j, j + pat.len()) == s.subrange(i + j, i + j + pat.len()));
        }
    }
    match first_from(s, pat, i) {
        Some(k) => {
            assert(occurs_at(s.skip(i), pat, k - i));
            assert forall|j: int| 0 <= j < k - i implies !occurs_at(s.skip(i), pat, j) by {
                assert(!occurs_at(s, pat, i + j));
            }
            lemma_first_at_is(s.skip(i), pat, k - i);
        },
        None => {
            if let Some(m) = first_at(s.skip(i), pat) {
                assert(occurs_at(s, pat, i + m));
            }
        },
    }
}

/// Splits a text at every occurrence of a non-empty pattern.
pub fn split(s: &str, pat: &str) -> (r: Vec<String>)
    requires
        pat@.len() > 0,
    ensures
        text::texts(r@) == pieces(s@, pat@),
        r@.len() > 0,
{
    let chars = chars_of(s);
    let pattern = chars_of(pat);
    let mut out: Vec<String> = Vec::new();
    let mut start: usize = 0;
    proof {
        assert(s@.skip(0) == s@);
        assert(text::texts(out@) + pieces(s@, pat@) == pieces(s@, pat@));
    }
    loop
        invariant
            pat@.len() > 0,
            chars@ == s@,
            pattern@ == pat@,
            start <= s@.len(),
            text::texts(out@) + pieces(s@.skip(start as int), pat@) == pieces(s@, pat@),
        decreases s@.len() - start,
    {
        proof {
            lemma_first_from_skip(s@, pat@, start as int);
        }
        match find_from(&chars, &pattern, start) {
            Some(k) => {
                let total: usize = chars.len();
                let part = text_between(&chars, start, k);
                proof {
                    let rest = s@.skip(start as int);
                    assert(rest.take(k - start) == s@.subrange(start as int, k as int));
                    assert(rest.skip(k - start + pat@.len()) == s@.skip(k + pat@.len()));
                    text::lemma_texts_push(out@, part);
                    assert(text::texts(out@) + (seq![part@] + pieces(
                        s@.skip(k + pat@.len()),
                        pat@,
                    )) == text::texts(out@.push(part)) + pieces(
                        s@.skip(k + pat@.len()),
                        pat@,
                    ));
                }
                out.push(part);
                start = k + pattern.len();
            },
            None => {
                let part = text_between(&chars, start, chars.len());
                proof {
                    assert(part@ == s@.skip(start as int));
                    text::lemma_texts_push(out@, part);
                    assert(text::texts(out@) + seq![part@] == text::texts(
                        out@.push(part),
                    ));
                }
                out.push(part);
                return out;
            },
        }
    }
}

/// Splits a text at the first occurrence of a pattern.
pub fn split_once(s: &str, pat: &str) -> (r: Option<(String, String)>)
    ensures
        match r {
            Some(p) => sides(s@, pat@) == Some((p.0@, p.1@)),
            None => sides(s@, pat@) is None,
        },
{
    let chars = chars_of(s);
    let pattern = chars_of(pat);
    match find_from(&chars, &pattern, 0) {
        Some(k) => {
            let total: usize = chars.len();
            let left = text_between(&chars, 0, k);
            let right = text_between(&chars, k + pattern.len(), total);
            proof {
                assert(s@.take(k as int) == s@.subrange(0, k as int));
                assert(s@.skip(k + pat@.len()) == s@.subrange(k + pat@.len(), s@.len() as int));
            }
            Some((left, right))
        },
        None => None,
    }
}

/// The parts in a row with `sep` between them.
pub open spec fn joined(parts: Seq<Seq<char>>, sep: Seq<char>) -> Seq<char>
    decreases parts.len(),
{
    if parts.len() == 0 {
        seq![]
    } else if parts.len() == 1 {
        parts[0]
    } else {
        joined(parts.drop_last(), sep) + sep + parts.last()
    }
}

/// Joins texts with a separator between them.
pub fn join(parts: &Vec<String>, sep: &str) -> (r: String)
    ensures
        r@ == joined(text::texts(parts@), sep@),
{
    let mut out = String::new();
    let mut i: usize = 0;
    let ghost all = text::texts(parts@);
    while i < parts.len()
        invariant
            i <= parts@.len(),
            all == text::texts(parts@),
            out@ == joined(all.take(i as int), sep@),
        decreases parts@.len() - i,
    {
        proof {
            assert(all.take(i + 1).drop_last() == all.take(i as int));
            assert(all.take(i + 1).last() == parts@[i as int]@);
        }
        if i > 0 {
            out.append(sep);
        }
        let ghost before = out@;
        out.append(parts[i].as_str());
        proof {
            if i == 0 {
                assert(before + parts@[0]@ == parts@[0]@);
            }
        }
        i = i + 1;
    }
    proof {
        assert(all.take(i as int) == all);
    }
    out
}

/// A text with every occurrence of `pat` exchanged for `to`.
pub open spec fn replaced(s: Seq<char>, pat: Seq<char>, to: Seq<char>) -> Seq<char> {
    joined(pieces(s, pat), to)
}

/// Exchanges every occurrence of a non-empty pattern for another text.
pub fn replace(s: &str, pat: &str, to: &str) -> (r: String)
    requires
        pat@.len() > 0,
    ensures
        r@ == replaced(s@, pat@, to@),
{
    let parts = split(s, pat);
    join(&parts, to)
}

/// Parts in a row: the first, the separator, and the others in a row.
pub proof fn lemma_joined_front(parts: Seq<Seq<char>>, sep: Seq<char>)
    requires
        parts.len() >= 2,
    ensures
        joined(parts, sep) == parts[0] + sep + joined(parts.drop_first(), sep),
    decreases parts.len(),
{
    let front = parts.drop_last();
    assert(parts.drop_first().drop_last() == front.drop_first());
    if parts.len() == 2 {
        assert(joined(front, sep) == parts[0]);
        assert(joined(parts.drop_first(), sep) == parts[1]);
    } else {
        lemma_joined_front(front, sep);
        assert(joined(parts, sep) =~= parts[0] + sep + joined(parts.drop_first(), sep));
    }
}

/// Parts that do not hold the first character of the separator come back when they are joined with
/// the separator and split at it.
pub proof fn lemma_join_then_split(parts: Seq<Seq<char>>, sep: Seq<char>)
    requires
        sep.len() > 0,
        parts.len() > 0,
        forall|i: int| 0 <= i < parts.len() ==> !(#[trigger] parts[i]).contains(sep[0]),
    ensures
        pieces(joined(parts, sep), sep) == parts,
    decreases parts.len(),
{
    let s = joined(parts, sep);
    let head = parts[0];
    assert(!head.contains(sep[0]));
    if parts.len() == 1 {
        lemma_first_from(s, sep, 0);
        assert forall|j: int| !occurs_at(s, sep, j) by {
            if occurs_at(s, sep, j) {
                assert(s[j] == s.subrange(j, j + sep.len())[0]);
                assert(head.contains(sep[0]));
            }
        }
        assert(first_at(s, sep) is None);
        assert(pieces(s, sep) =~= parts);
    } else {
        let tail = joined(parts.drop_first(), sep);
        lemma_joined_front(parts, sep);
        let k = head.len() as int;
        assert(s.subrange(k, k + sep.len()) =~= sep);
        assert forall|j: int| 0 <= j < k implies !occurs_at(s, sep, j) by {
            if occurs_at(s, sep, j) {
                assert(s[j] == s.subrange(j, j + sep.len())[0]);
                assert(head[j] == sep[0]);
            }
        }
        lemma_first_at_is(s, sep, k);
        assert(s.take(k) =~= head);
        assert(s.skip(k + sep.len()) =~= tail);
        assert forall|i: int| 0 <= i < parts.drop_first().len() implies !(
        #[trigger] parts.drop_first()[i]).contains(sep[0]) by {
            assert(!parts[i + 1].contains(sep[0]));
        }
        lemma_join_then_split(parts.drop_first(), sep);
        assert(seq![head] + parts.drop_first() =~= parts);
    }
}

/// Parts come back when they are joined with a separator and split at it, as long as the separator is
/// first found behind each part that it follows, and not at all in the last.
pub proof fn lemma_joined_pieces(parts: Seq<Seq<char>>, sep: Seq<char>)
    requires
        sep.len() > 0,
        parts.len() > 0,
        forall|i: int, j: int|
            0 <= i < parts.len() - 1 && 0 <= j < parts[i].len() ==> !#[trigger] occurs_at(
                parts[i] + sep,
                sep,
                j,
            ),
        !occurs(parts.last(), sep),
    ensures
        pieces(joined(parts, sep), sep) == parts,
    decreases parts.len(),
{
    let s = joined(parts, sep);
    let head = parts[0];
    if parts.len() == 1 {
        lemma_first_from(s, sep, 0);
        assert(first_at(s, sep) is None);
        assert(pieces(s, sep) =~= parts);
    } else {
        let others = parts.drop_first();
        let tail = joined(others, sep);
        lemma_joined_front(parts, sep);
        let k = head.len() as int;
        assert(s.subrange(k, k + sep.len()) =~= sep);
        assert forall|j: int| 0 <= j < k implies !occurs_at(s, sep, j) by {
            assert(!occurs_at(parts[0] + sep, sep, j));
            assert(s.subrange(j, j + sep.len()) =~= (head + sep).subrange(j, j + sep.len()));
        }
        lemma_first_at_is(s, sep, k);
        assert(s.take(k) =~= head);
        assert(s.skip(k + sep.len()) =~= tail);
        assert forall|i: int, j: int|
            0 <= i < others.len() - 1 && 0 <= j < others[i].len() implies !#[trigger] occurs_at(
                others[i] + sep,
            sep,
            j,
        ) by {
            assert(!occurs_at(parts[i + 1] + sep, sep, j));
        }
        lemma_joined_pieces(others, sep);
        assert(seq![head] + others =~= parts);
    }
}

/// The pieces between the occurrences of a character do not hold it, and joining them with it gives
/// the text back.
pub proof fn lemma_split_then_join(s: Seq<char>, sep: Seq<char>)
    requires
        sep.len() == 1,
    ensures
        pieces(s, sep).len() > 0,
        forall|i: int|
            0 <= i < pieces(s, sep).len() ==> !(#[trigger] pieces(s, sep)[i]).contains(sep[0]),
        joined(pieces(s, sep), sep) == s,
    decreases s.len(),
{
    lemma_first_from(s, sep, 0);
    let parts = pieces(s, sep);
    match first_at(s, sep) {
        Some(k) => {
            let rest = s.skip(k + 1);
            lemma_split_then_join(rest, sep);
            let others = pieces(rest, sep);
            let head = s.take(k);
            assert(parts == seq![head] + others);
            assert(parts.drop_first() =~= others);
            lemma_joined_front(parts, sep);
            assert(s.subrange(k, k + 1) == sep);
            assert(s =~= head + sep + rest) by {
                assert(s[k] == s.subrange(k, k + 1)[0]);
            }
            if head.contains(sep[0]) {
                let j = choose|j: int| 0 <= j < head.len() && head[j] == sep[0];
                assert(s.subrange(j, j + 1) =~= sep);
                assert(occurs_at(s, sep, j));
            }
            assert forall|i: int| 0 <= i < parts.len() implies !(#[trigger] parts[i]).contains(
                sep[0],
            ) by {
                if i > 0 {
                    assert(parts[i] == others[i - 1]);
                }
            }
        },
        None => {
            if s.contains(sep[0]) {
                let j = choose|j: int| 0 <= j < s.len() && s[j] == sep[0];
                assert(s.subrange(j, j + 1) =~= sep);
                assert(occurs_at(s, sep, j));
            }
        },
    }
}

/// A text without a character holds no pattern that begins with it.
pub proof fn lemma_no_sides(s: Seq<char>, pat: Seq<char>)
    requires
        pat.len() > 0,
        !s.contains(pat[0]),
    ensures
        sides(s, pat) is None,
{
    lemma_first_from(s, pat, 0);
    if let Some(k) = first_at(s, pat) {
        assert(s.subrange(k, k + pat.len())[0] == s[k]);
    }
}

/// A text that begins with one without a character parts at the first pattern that begins with it.
pub proof fn lemma_sides(a: Seq<char>, pat: Seq<char>, b: Seq<char>)
    requires
        pat.len() > 0,
        !a.contains(pat[0]),
    ensures
        sides(a + pat + b, pat) == Some((a, b)),
{
    let s = a + pat + b;
    let k = a.len() as int;
    assert(s.subrange(k, k + pat.len()) =~= pat);
    assert forall|j: int| 0 <= j < k implies !occurs_at(s, pat, j) by {
        if occurs_at(s, pat, j) {
            assert(s.subrange(j, j + pat.len())[0] == a[j]);
        }
    }
    lemma_first_at_is(s, pat, k);
    assert(s.take(k) =~= a);
    assert(s.skip(k + pat.len()) =~= b);
}

/// A text of one character stands in a text where that character does.
pub proof fn lemma_occurs_char(s: Seq<char>, pat: Seq<char>)
    requires
        pat.len() == 1,
    ensures
        occurs(s, pat) == s.contains(pat[0]),
{
    if occurs(s, pat) {
        let i = choose|i: int| occurs_at(s, pat, i);
        assert(s[i] == s.subrange(i, i + 1)[0]);
    }
    if s.contains(pat[0]) {
        let i = choose|i: int| 0 <= i < s.len() && s[i] == pat[0];
        assert(s.subrange(i, i + 1) =~= pat);
        assert(occurs_at(s, pat, i));
    }
}

/// The first piece of a text is what stands before the first separator.
pub proof fn lemma_pieces_front(a: Seq<char>, sep: Seq<char>, b: Seq<char>)
    requires
        sep.len() > 0,
        !a.contains(sep[0]),
    ensures
        pieces(a + sep + b, sep) == seq![a] + pieces(b, sep),
{
    let s = a + sep + b;
    lemma_sides(a, sep, b);
    lemma_first_from(s, sep, 0);
    let k = first_at(s, sep)->Some_0;
    assert(s.take(k) == a && s.skip(k + sep.len()) == b);
}

/// Splitting takes a text apart: its pieces, with the separator between them, are the text, and none of
/// them holds the separator.
pub proof fn law_pieces_make_the_text(s: Seq<char>, pat: Seq<char>)
    requires
        pat.len() > 0,
    ensures
        pieces(s, pat).len() > 0,
        joined(pieces(s, pat), pat) == s,
        forall|i: int| 0 <= i < pieces(s, pat).len() ==> !occurs(#[trigger] pieces(s, pat)[i], pat),
    decreases s.len(),
{
    lemma_first_from(s, pat, 0);
    let parts = pieces(s, pat);
    match first_at(s, pat) {
        Some(k) => {
            let head = s.take(k);
            let rest = s.skip(k + pat.len());
            law_pieces_make_the_text(rest, pat);
            let others = pieces(rest, pat);
            assert(parts == seq![head] + others);
            assert(parts.drop_first() =~= others);
            lemma_joined_front(parts, pat);
            assert(s =~= head + s.subrange(k, k + pat.len()) + rest);
            assert(!occurs(head, pat)) by {
                if occurs(head, pat) {
                    let i = choose|i: int| occurs_at(head, pat, i);
                    assert(s.subrange(i, i + pat.len()) =~= head.subrange(i, i + pat.len()));
                    assert(occurs_at(s, pat, i));
                }
            }
            assert forall|i: int| 0 <= i < parts.len() implies !occurs(
                #[trigger] parts[i],
                pat,
            ) by {
                if i > 0 {
                    assert(parts[i] == others[i - 1]);
                }
            }
        },
        None => {
            assert(!occurs(s, pat)) by {
                if occurs(s, pat) {
                    let i = choose|i: int| occurs_at(s, pat, i);
                    assert(occurs_at(s, pat, i));
                }
            }
        },
    }
}

/// Parting takes a text apart at the first place of the pattern, where it has one.
pub proof fn law_sides_make_the_text(s: Seq<char>, pat: Seq<char>)
    ensures
        match sides(s, pat) {
            Some(p) => s == p.0 + pat + p.1 && forall|i: int|
                0 <= i < p.0.len() ==> !occurs_at(s, pat, i),
            None => !occurs(s, pat),
        },
{
    lemma_first_from(s, pat, 0);
    match first_at(s, pat) {
        Some(k) => {
            assert(s =~= s.take(k) + s.subrange(k, k + pat.len()) + s.skip(k + pat.len()));
        },
        None => {
            if occurs(s, pat) {
                let i = choose|i: int| occurs_at(s, pat, i);
                assert(occurs_at(s, pat, i));
            }
        },
    }
}

/// Replacing goes from place to place: what stands before the first place stays, the pattern there gives
/// way, and the rest is treated likewise. Where the pattern does not stand, nothing changes.
pub proof fn law_replacing(a: Seq<char>, pat: Seq<char>, b: Seq<char>, to: Seq<char>)
    requires
        pat.len() > 0,
        !a.contains(pat[0]),
    ensures
        replaced(a + pat + b, pat, to) == a + to + replaced(b, pat, to),
        replaced(a, pat, to) == a,
{
    lemma_pieces_front(a, pat, b);
    let parts = pieces(a + pat + b, pat);
    law_pieces_make_the_text(b, pat);
    assert(parts.drop_first() =~= pieces(b, pat));
    lemma_joined_front(parts, to);
    let one = seq![a];
    assert forall|i: int| 0 <= i < one.len() implies !(#[trigger] one[i]).contains(pat[0]) by {}
    lemma_join_then_split(one, pat);
    assert(joined(one, pat) == a);
}

/// The pieces of two texts with a separator of one character between them are those of the one and those
/// of the other.
pub proof fn lemma_pieces_concat(a: Seq<char>, sep: Seq<char>, b: Seq<char>)
    requires
        sep.len() == 1,
    ensures
        pieces(a + sep + b, sep) == pieces(a, sep) + pieces(b, sep),
    decreases a.len(),
{
    lemma_first_from(a, sep, 0);
    match first_at(a, sep) {
        Some(k) => {
            let head = a.take(k);
            let rest = a.skip(k + 1);
            lemma_pieces_concat(rest, sep, b);
            assert(!head.contains(sep[0])) by {
                if head.contains(sep[0]) {
                    let j = choose|j: int| 0 <= j < head.len() && head[j] == sep[0];
                    assert(a.subrange(j, j + 1) =~= sep);
                    assert(occurs_at(a, sep, j));
                }
            }
            assert(a =~= head + sep + rest) by {
                assert(a.subrange(k, k + 1) == sep);
                assert(a[k] == a.subrange(k, k + 1)[0]);
            }
            assert(a + sep + b =~= head + sep + (rest + sep + b));
            lemma_pieces_front(head, sep, rest + sep + b);
            lemma_pieces_front(head, sep, rest);
            assert(seq![head] + (pieces(rest, sep) + pieces(b, sep)) =~= (seq![head] + pieces(
                rest,
                sep,
            )) + pieces(b, sep));
        },
        None => {
            assert(!a.contains(sep[0])) by {
                if a.contains(sep[0]) {
                    let j = choose|j: int| 0 <= j < a.len() && a[j] == sep[0];
                    assert(a.subrange(j, j + 1) =~= sep);
                    assert(occurs_at(a, sep, j));
                }
            }
            lemma_pieces_front(a, sep, b);
        },
    }
}

} // verus!
