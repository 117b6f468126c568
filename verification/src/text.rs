//! Text as sequences of characters: the string operations that the rest of the library is built on.

use vstd::prelude::*;

verus! {

/// `String::push` appends one character to the end of the string.
pub assume_specification[ String::push ](s: &mut String, c: char)
    ensures
        final(s)@ == old(s)@.push(c),
;

/// The texts that a sequence of strings holds.
pub open spec fn texts(parts: Seq<String>) -> Seq<Seq<char>> {
    Seq::new(parts.len(), |i: int| parts[i]@)
}

/// The text that an optional string slice holds.
pub open spec fn text_of(s: Option<&str>) -> Option<Seq<char>> {
    match s {
        Some(s) => Some(s@),
        None => None,
    }
}

/// The text that an optional string holds.
pub open spec fn owned_text(s: Option<String>) -> Option<Seq<char>> {
    match s {
        Some(s) => Some(s@),
        None => None,
    }
}

/// One more string at the end is one more text at the end.
pub proof fn lemma_texts_push(parts: Seq<String>, part: String)
    ensures
        texts(parts.push(part)) == texts(parts).push(part@),
{
    assert(texts(parts.push(part)) =~= texts(parts).push(part@));
}

/// Appends a string to a list.
pub fn push_text(list: &mut Vec<String>, part: String)
    ensures
        texts(final(list)@) == texts(old(list)@).push(part@),
{
    proof {
        lemma_texts_push(list@, part);
    }
    list.push(part);
}

/// Collects the characters of a text.
pub fn chars_of(s: &str) -> (r: Vec<char>)
    ensures
        r@ == s@,
{
    let mut out: Vec<char> = Vec::new();
    for c in it: s.chars()
        invariant
            out@ == s@.take(it.index()),
            it.seq() == s@,
    {
        out.push(c);
    }
    out
}

/// Builds the text of the characters from `from` up to, and not including, `to`.
pub fn text_between(chars: &Vec<char>, from: usize, to: usize) -> (r: String)
    requires
        from <= to <= chars@.len(),
    ensures
        r@ == chars@.subrange(from as int, to as int),
{
    let mut out = String::new();
    let mut i: usize = from;
    while i < to
        invariant
            from <= i <= to <= chars@.len(),
            out@ == chars@.subrange(from as int, i as int),
        decreases to - i,
    {
        out.push(chars[i]);
        i = i + 1;
    }
    out
}

/// Copies a list of strings.
pub fn copy_texts(parts: &Vec<String>) -> (r: Vec<String>)
    ensures
        texts(r@) == texts(parts@),
{
    let mut out: Vec<String> = Vec::new();
    let mut i: usize = 0;
    while i < parts.len()
        invariant
            i <= parts.len(),
            texts(out@) == texts(parts@).take(i as int),
        decreases parts.len() - i,
    {
        let part = parts[i].clone();
        proof {
            lemma_texts_push(out@, part);
            assert(texts(parts@).take(i + 1) == texts(parts@).take(i as int).push(part@));
        }
        out.push(part);
        i = i + 1;
    }
    proof {
        assert(texts(parts@).take(i as int) == texts(parts@));
    }
    out
}

/// Whether two texts are equal.
pub fn same(a: &str, b: &str) -> (r: bool)
    ensures
        r == (a@ == b@),
{
    let mut x = a.chars();
    let mut y = b.chars();
    let ghost mut done: int = 0;
    proof {
        assert(a@.skip(0) == a@);
        assert(b@.skip(0) == b@);
    }
    loop
        invariant
            0 <= done <= a@.len(),
            done <= b@.len(),
            vstd::std_specs::iter::IteratorSpec::remaining(&x) == a@.skip(done),
            vstd::std_specs::iter::IteratorSpec::remaining(&y) == b@.skip(done),
            forall|i: int| 0 <= i < done ==> a@[i] == b@[i],
        decreases a@.len() - done,
    {
        match (x.next(), y.next()) {
            (Some(c), Some(d)) => {
                if c != d {
                    assert(a@[done] != b@[done]);
                    return false;
                }
                proof {
                    assert(a@.skip(done).drop_first() == a@.skip(done + 1));
                    assert(b@.skip(done).drop_first() == b@.skip(done + 1));
                    done = done + 1;
                }
            },
            (None, None) => {
                assert(a@ == b@);
                return true;
            },
            _ => {
                return false;
            },
        }
    }
}

/// Dictionary order of texts, character by character in code point order.
pub open spec fn text_lt(a: Seq<char>, b: Seq<char>) -> bool
    decreases a.len(),
{
    if b.len() == 0 {
        false
    } else if a.len() == 0 {
        true
    } else if a[0] != b[0] {
        a[0] < b[0]
    } else {
        text_lt(a.drop_first(), b.drop_first())
    }
}

/// Whether `a` stands strictly before `b` in dictionary order.
pub fn before(a: &str, b: &str) -> (r: bool)
    ensures
        r == text_lt(a@, b@),
{
    let mut x = a.chars();
    let mut y = b.chars();
    let ghost mut done: int = 0;
    proof {
        assert(a@.skip(0) == a@);
        assert(b@.skip(0) == b@);
    }
    loop
        invariant
            0 <= done <= a@.len(),
            done <= b@.len(),
            vstd::std_specs::iter::IteratorSpec::remaining(&x) == a@.skip(done),
            vstd::std_specs::iter::IteratorSpec::remaining(&y) == b@.skip(done),
            text_lt(a@, b@) == text_lt(a@.skip(done), b@.skip(done)),
        decreases a@.len() - done,
    {
        match (x.next(), y.next()) {
            (Some(c), Some(d)) => {
                if c != d {
                    return c < d;
                }
                proof {
                    assert(a@.skip(done).drop_first() == a@.skip(done + 1));
                    assert(b@.skip(done).drop_first() == b@.skip(done + 1));
                    done = done + 1;
                }
            },
            (None, Some(_)) => {
                return true;
            },
            _ => {
                return false;
            },
        }
    }
}

/// The first difference of two texts decides their order.
pub proof fn lemma_first_difference(a: Seq<char>, b: Seq<char>, k: int)
    requires
        0 <= k < a.len(),
        k < b.len(),
        forall|i: int| 0 <= i < k ==> a[i] == b[i],
        a[k] != b[k],
    ensures
        text_lt(a, b) == (a[k] < b[k]),
    decreases k,
{
    if k > 0 {
        lemma_first_difference(a.drop_first(), b.drop_first(), k - 1);
    }
}

/// Equal beginnings do not matter for the order of two texts.
pub proof fn lemma_common_start(start: Seq<char>, a: Seq<char>, b: Seq<char>)
    ensures
        text_lt(start + a, start + b) == text_lt(a, b),
    decreases start.len(),
{
    if start.len() == 0 {
        assert(start + a == a);
        assert(start + b == b);
    } else {
        lemma_common_start(start.drop_first(), a, b);
        assert((start + a).drop_first() == start.drop_first() + a);
        assert((start + b).drop_first() == start.drop_first() + b);
    }
}

/// Where beginnings of one length are in order, so are the whole texts.
pub proof fn lemma_ordered_start(p: Seq<char>, q: Seq<char>, a: Seq<char>, b: Seq<char>)
    requires
        p.len() == q.len(),
        text_lt(p, q),
    ensures
        text_lt(p + a, q + b),
    decreases p.len(),
{
    if p[0] == q[0] {
        lemma_ordered_start(p.drop_first(), q.drop_first(), a, b);
        assert((p + a).drop_first() == p.drop_first() + a);
        assert((q + b).drop_first() == q.drop_first() + b);
    }
}

/// No text stands before itself.
pub proof fn lemma_text_lt_irreflexive(a: Seq<char>)
    ensures
        !text_lt(a, a),
    decreases a.len(),
{
    if a.len() > 0 {
        lemma_text_lt_irreflexive(a.drop_first());
    }
}

/// Dictionary order is transitive.
pub proof fn lemma_text_lt_transitive(a: Seq<char>, b: Seq<char>, c: Seq<char>)
    requires
        text_lt(a, b),
        text_lt(b, c),
    ensures
        text_lt(a, c),
    decreases a.len(),
{
    if a.len() > 0 && b.len() > 0 && c.len() > 0 && a[0] == b[0] && b[0] == c[0] {
        lemma_text_lt_transitive(a.drop_first(), b.drop_first(), c.drop_first());
    }
}

/// Two different texts are always in order, one way or the other.
pub proof fn lemma_text_lt_total(a: Seq<char>, b: Seq<char>)
    ensures
        a == b || text_lt(a, b) || text_lt(b, a),
    decreases a.len(),
{
    if a.len() == 0 && b.len() == 0 {
        assert(a == b);
    } else if a.len() > 0 && b.len() > 0 && a[0] == b[0] {
        lemma_text_lt_total(a.drop_first(), b.drop_first());
        if a.drop_first() == b.drop_first() {
            assert(a == seq![a[0]] + a.drop_first());
            assert(b == seq![b[0]] + b.drop_first());
        }
    }
}

/// The characters with the Unicode property White_Space.
pub open spec fn is_white(c: char) -> bool {
    ||| '\u{9}' <= c <= '\u{d}'
    ||| c == '\u{20}'
    ||| c == '\u{85}'
    ||| c == '\u{a0}'
    ||| c == '\u{1680}'
    ||| '\u{2000}' <= c <= '\u{200a}'
    ||| c == '\u{2028}'
    ||| c == '\u{2029}'
    ||| c == '\u{202f}'
    ||| c == '\u{205f}'
    ||| c == '\u{3000}'
}

/// Whether a character is white space.
pub fn is_white_space(c: char) -> (r: bool)
    ensures
        r == is_white(c),
{
    ('\u{9}' <= c && c <= '\u{d}') || c == '\u{20}' || c == '\u{85}' || c == '\u{a0}' || c
        == '\u{1680}' || ('\u{2000}' <= c && c <= '\u{200a}') || c == '\u{2028}' || c
        == '\u{2029}' || c == '\u{202f}' || c == '\u{205f}' || c == '\u{3000}'
}

/// A text without the white space at its start.
pub open spec fn trimmed_start(s: Seq<char>) -> Seq<char>
    decreases s.len(),
{
    if s.len() > 0 && is_white(s[0]) {
        trimmed_start(s.drop_first())
    } else {
        s
    }
}

/// A text without the white space at its end.
pub open spec fn trimmed_end(s: Seq<char>) -> Seq<char>
    decreases s.len(),
{
    if s.len() > 0 && is_white(s.last()) {
        trimmed_end(s.drop_last())
    } else {
        s
    }
}

/// A text without the white space at its two ends.
pub open spec fn trimmed(s: Seq<char>) -> Seq<char> {
    trimmed_end(trimmed_start(s))
}

/// A number of blanks.
pub open spec fn blanks(count: nat) -> Seq<char> {
    Seq::new(count, |i: int| ' ')
}

/// Blanks before a text that does not begin with white space are trimmed.
proof fn lemma_trimmed_start(count: nat, s: Seq<char>)
    requires
        s.len() > 0 ==> !is_white(s[0]),
    ensures
        trimmed_start(blanks(count) + s) == s,
    decreases count,
{
    let all = blanks(count) + s;
    if count == 0 {
        assert(all =~= s);
    } else {
        let less = (count - 1) as nat;
        assert(all.drop_first() =~= blanks(less) + s);
        lemma_trimmed_start(less, s);
    }
}

/// Blanks behind a text that does not end in white space are trimmed.
proof fn lemma_trimmed_end(s: Seq<char>, count: nat)
    requires
        s.len() > 0 ==> !is_white(s.last()),
    ensures
        trimmed_end(s + blanks(count)) == s,
    decreases count,
{
    let all = s + blanks(count);
    if count == 0 {
        assert(all =~= s);
    } else {
        let less = (count - 1) as nat;
        assert(all.drop_last() =~= s + blanks(less));
        lemma_trimmed_end(s, less);
    }
}

/// Blanks around a text that neither begins nor ends with white space are trimmed.
pub proof fn lemma_trimmed_blanks(before: nat, s: Seq<char>, after: nat)
    requires
        s.len() > 0,
        !is_white(s[0]),
        !is_white(s.last()),
    ensures
        trimmed(blanks(before) + s + blanks(after)) == s,
{
    let inner = s + blanks(after);
    assert(blanks(before) + s + blanks(after) =~= blanks(before) + inner);
    lemma_trimmed_start(before, inner);
    lemma_trimmed_end(s, after);
}

/// The index of the first character that is not white space.
fn skip_white(chars: &Vec<char>) -> (r: usize)
    ensures
        r <= chars@.len(),
        trimmed_start(chars@) == chars@.skip(r as int),
        r < chars@.len() ==> !is_white(chars@[r as int]),
{
    let mut i: usize = 0;
    proof {
        assert(chars@.skip(0) == chars@);
    }
    while i < chars.len() && is_white_space(chars[i])
        invariant
            i <= chars@.len(),
            trimmed_start(chars@) == trimmed_start(chars@.skip(i as int)),
        decreases chars@.len() - i,
    {
        proof {
            assert(chars@.skip(i as int).drop_first() == chars@.skip(i + 1));
        }
        i = i + 1;
    }
    i
}

/// Removes the white space at the start of a text.
pub fn trim_start(s: &str) -> (r: String)
    ensures
        r@ == trimmed_start(s@),
{
    let chars = chars_of(s);
    let from = skip_white(&chars);
    proof {
        assert(chars@.skip(from as int) == chars@.subrange(from as int, chars@.len() as int));
    }
    text_between(&chars, from, chars.len())
}

/// Removes the white space at the two ends of a text.
pub fn trim(s: &str) -> (r: String)
    ensures
        r@ == trimmed(s@),
{
    let chars = chars_of(s);
    let from = skip_white(&chars);
    let mut to: usize = chars.len();
    proof {
        assert(chars@.skip(from as int) == chars@.subrange(from as int, to as int));
    }
    while from < to && is_white_space(chars[to - 1])
        invariant
            from <= to <= chars@.len(),
            trimmed(chars@) == trimmed_end(chars@.subrange(from as int, to as int)),
        decreases to - from,
    {
        proof {
            assert(chars@.subrange(from as int, to as int).drop_last() == chars@.subrange(
                from as int,
                to - 1,
            ));
        }
        to = to - 1;
    }
    text_between(&chars, from, to)
}

/// The small letter of an ASCII capital letter, and any other character as it is.
pub open spec fn lower(c: char) -> char {
    if 'A' <= c <= 'Z' {
        (c as u32 + 32) as char
    } else {
        c
    }
}

/// A text with its ASCII capital letters made small.
pub open spec fn lowered(s: Seq<char>) -> Seq<char> {
    Seq::new(s.len(), |i: int| lower(s[i]))
}

/// Makes the ASCII capital letters of a text small.
pub fn to_lower(s: &str) -> (r: String)
    ensures
        r@ == lowered(s@),
{
    let chars = chars_of(s);
    let mut out = String::new();
    let mut i: usize = 0;
    while i < chars.len()
        invariant
            i <= chars@.len(),
            chars@ == s@,
            out@ == lowered(s@).take(i as int),
        decreases chars@.len() - i,
    {
        let c = chars[i];
        let small: char = if 'A' <= c && c <= 'Z' {
            (c as u8 + 32) as char
        } else {
            c
        };
        proof {
            assert(lowered(s@).take(i + 1) == lowered(s@).take(i as int).push(small));
        }
        out.push(small);
        i = i + 1;
    }
    proof {
        assert(lowered(s@).take(i as int) == lowered(s@));
    }
    out
}

/// Dictionary order: the first difference decides, by the code points of the two characters there, and
/// a text stands before every longer one that begins with it.
pub proof fn law_dictionary_order(a: Seq<char>, b: Seq<char>)
    ensures
        text_lt(a, b) <==> exists|k: int|
            0 <= k <= a.len() && k < b.len() && #[trigger] a.take(k) == b.take(k) && (k == a.len()
                || a[k] < b[k]),
    decreases a.len(),
{
    if a.len() > 0 && b.len() > 0 && a[0] == b[0] {
        let x = a.drop_first();
        let y = b.drop_first();
        law_dictionary_order(x, y);
        if text_lt(a, b) {
            let k = choose|k: int|
                0 <= k <= x.len() && k < y.len() && #[trigger] x.take(k) == y.take(k) && (k
                    == x.len() || x[k] < y[k]);
            assert(a.take(k + 1) =~= seq![a[0]] + x.take(k));
            assert(b.take(k + 1) =~= seq![b[0]] + y.take(k));
        }
        if exists|k: int|
            0 <= k <= a.len() && k < b.len() && #[trigger] a.take(k) == b.take(k) && (k == a.len()
                || a[k] < b[k]) {
            let k = choose|k: int|
                0 <= k <= a.len() && k < b.len() && #[trigger] a.take(k) == b.take(k) && (k
                    == a.len() || a[k] < b[k]);
            assert(k > 0);
            assert(x.take(k - 1) =~= a.take(k).drop_first());
            assert(y.take(k - 1) =~= b.take(k).drop_first());
            assert(x.take(k - 1) == y.take(k - 1));
        }
    } else if b.len() > 0 {
        assert(a.take(0) =~= b.take(0));
        assert forall|k: int|
            0 < k <= a.len() && k < b.len() implies #[trigger] a.take(k) != b.take(k) by {
            assert(a.take(k)[0] == a[0] && b.take(k)[0] == b[0]);
        }
    }
}

/// Trimming takes white space from the two ends of a text and nothing else: what is left is a run of its
/// characters that neither begins nor ends with white space, with white space alone before and behind it.
pub proof fn law_trimming(s: Seq<char>) -> (r: (int, int))
    ensures
        0 <= r.0 <= r.1 <= s.len(),
        trimmed(s) == s.subrange(r.0, r.1),
        forall|i: int| 0 <= i < r.0 || r.1 <= i < s.len() ==> is_white(#[trigger] s[i]),
        r.0 < r.1 ==> !is_white(s[r.0]) && !is_white(s[r.1 - 1]),
{
    let from = lemma_trim_front(s);
    let rest = trimmed_start(s);
    let len = lemma_trim_back(rest);
    let to = from + len;
    assert(rest.take(len) =~= s.subrange(from, to));
    assert forall|i: int| 0 <= i < from || to <= i < s.len() implies is_white(#[trigger] s[i]) by {
        if i >= to {
            assert(s[i] == rest[i - from]);
        }
    }
    if from < to {
        assert(rest[len - 1] == s[to - 1]);
        assert(rest[0] == s[from]);
    }
    (from, to)
}

/// The white space that a text begins with.
proof fn lemma_trim_front(s: Seq<char>) -> (k: int)
    ensures
        0 <= k <= s.len(),
        trimmed_start(s) == s.skip(k),
        forall|i: int| 0 <= i < k ==> is_white(#[trigger] s[i]),
        k < s.len() ==> !is_white(s[k]),
    decreases s.len(),
{
    if s.len() > 0 && is_white(s[0]) {
        let less = s.drop_first();
        let k = lemma_trim_front(less);
        assert(less.skip(k) =~= s.skip(k + 1));
        assert forall|i: int| 0 <= i < k + 1 implies is_white(#[trigger] s[i]) by {
            if i > 0 {
                assert(s[i] == less[i - 1]);
            }
        }
        k + 1
    } else {
        assert(s.skip(0) =~= s);
        0
    }
}

/// The white space that a text ends with.
proof fn lemma_trim_back(s: Seq<char>) -> (k: int)
    ensures
        0 <= k <= s.len(),
        trimmed_end(s) == s.take(k),
        forall|i: int| k <= i < s.len() ==> is_white(#[trigger] s[i]),
        k > 0 ==> !is_white(s[k - 1]),
    decreases s.len(),
{
    if s.len() > 0 && is_white(s.last()) {
        let less = s.drop_last();
        let k = lemma_trim_back(less);
        assert(less.take(k) =~= s.take(k));
        assert forall|i: int| k <= i < s.len() implies is_white(#[trigger] s[i]) by {
            if i < less.len() {
                assert(s[i] == less[i]);
            }
        }
        k
    } else {
        assert(s.take(s.len() as int) =~= s);
        s.len() as int
    }
}

/// Small letters: the capital letters from A to Z give way to the letters that stand 32 places behind
/// them, and every other character stays.
pub proof fn law_small_letters(s: Seq<char>, i: int)
    requires
        0 <= i < s.len(),
    ensures
        lowered(s).len() == s.len(),
        'A' <= s[i] <= 'Z' ==> lowered(s)[i] as int == s[i] as int + 32,
        !('A' <= s[i] <= 'Z') ==> lowered(s)[i] == s[i],
{
}

/// White space among the ASCII characters: the blank, and the characters from the tab to the carriage
/// return; no letter, digit or sign is.
pub proof fn law_plain_white_space(c: char)
    requires
        c <= '\u{7f}',
    ensures
        is_white(c) <==> c == ' ' || '\t' <= c <= '\r',
{
}

} // verus!
