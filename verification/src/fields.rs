//! Comma-separated fields, and values in quotes.

use crate::error::CliError;
use crate::pattern::{self, replace, split};
use crate::text::{self, chars_of, text_between, trim};
use vstd::prelude::*;
use vstd::string::StringExecFns;

verus! {

/// The parts without the white space at their ends, and without those that are then empty.
pub open spec fn kept(parts: Seq<Seq<char>>) -> Seq<Seq<char>>
    decreases parts.len(),
{
    if parts.len() == 0 {
        seq![]
    } else {
        let last = text::trimmed(parts.last());
        if last.len() == 0 {
            kept(parts.drop_last())
        } else {
            kept(parts.drop_last()).push(last)
        }
    }
}

/// The fields of a comma-separated text.
pub open spec fn csv_fields(raw: Seq<char>) -> Seq<Seq<char>> {
    kept(pattern::pieces(raw, ","@))
}

/// Splits a text at its commas, trims the fields, and leaves out the empty ones.
pub fn split_csv(raw: &str) -> (r: Vec<String>)
    ensures
        text::texts(r@) == csv_fields(raw@),
{
    proof {
        reveal_strlit(",");
    }
    let parts = split(raw, ",");
    let mut out: Vec<String> = Vec::new();
    let mut i: usize = 0;
    let ghost all = text::texts(parts@);
    proof {
        assert(text::texts(out@) =~= kept(all.take(0)));
    }
    while i < parts.len()
        invariant
            i <= parts@.len(),
            all == text::texts(parts@),
            text::texts(out@) == kept(all.take(i as int)),
        decreases parts@.len() - i,
    {
        let field = trim(parts[i].as_str());
        proof {
            assert(all.take(i + 1).drop_last() == all.take(i as int));
            assert(all.take(i + 1).last() == parts@[i as int]@);
            text::lemma_texts_push(out@, field);
        }
        if !field.as_str().is_empty() {
            out.push(field);
        }
        i = i + 1;
    }
    proof {
        assert(all.take(i as int) == all);
    }
    out
}

/// The fields of a comma-separated text that must be given, or the message that asks for it.
pub open spec fn required_fields(raw: Option<Seq<char>>, name: Seq<char>) -> Result<
    Seq<Seq<char>>,
    Seq<char>,
> {
    match raw {
        Some(raw) => Ok(csv_fields(raw)),
        None => Err("--"@ + pattern::replaced(name, "_"@, "-"@) + " required"@),
    }
}

/// Splits the text of a required argument at its commas.
pub fn split_csv_required(raw: Option<&str>, name: &str) -> (r: Result<Vec<String>, CliError>)
    ensures
        match r {
            Ok(fields) => required_fields(text::text_of(raw), name@) == Ok::<
                Seq<Seq<char>>,
                Seq<char>,
            >(text::texts(fields@)),
            Err(e) => required_fields(text::text_of(raw), name@) == Err::<
                Seq<Seq<char>>,
                Seq<char>,
            >(e@),
        },
{
    match raw {
        Some(raw) => Ok(split_csv(raw)),
        None => {
            proof {
                reveal_strlit("_");
            }
            let mut message = "--".to_string();
            message.append(replace(name, "_", "-").as_str());
            message.append(" required");
            Err(CliError::of(message))
        },
    }
}

/// Whether a text of two characters or more begins and ends with a quote.
pub open spec fn quoted_by(s: Seq<char>, quote: char) -> bool {
    s.len() >= 2 && s[0] == quote && s.last() == quote
}

/// A text without a pair of quotes around it, double or single.
pub open spec fn unquoted(s: Seq<char>) -> Seq<char> {
    if quoted_by(s, '"') || quoted_by(s, '\'') {
        s.subrange(1, s.len() - 1)
    } else {
        s
    }
}

/// Removes a pair of quotes around a text.
pub fn unquote(value: &str) -> (r: String)
    ensures
        r@ == unquoted(value@),
{
    let chars = chars_of(value);
    let n: usize = chars.len();
    if n >= 2 && ((chars[0] == '"' && chars[n - 1] == '"') || (chars[0] == '\'' && chars[n - 1]
        == '\'')) {
        text_between(&chars, 1, n - 1)
    } else {
        value.to_string()
    }
}

/// Whether a field is one that `split_csv` gives: not empty, without white space at its ends, without
/// a comma.
pub open spec fn is_field(s: Seq<char>) -> bool {
    s.len() > 0 && text::trimmed(s) == s && !s.contains(',')
}

/// Fields that are joined with commas and split again are the same fields.
pub proof fn law_fields_read_back(fields: Seq<Seq<char>>)
    requires
        forall|i: int| 0 <= i < fields.len() ==> is_field(#[trigger] fields[i]),
    ensures
        csv_fields(pattern::joined(fields, ","@)) == fields,
{
    reveal_strlit(",");
    if fields.len() == 0 {
        let empty: Seq<char> = seq![];
        pattern::lemma_first_from(empty, ","@, 0);
        assert(pattern::pieces(empty, ","@) == seq![empty]);
        assert(seq![empty].drop_last() =~= Seq::<Seq<char>>::empty());
        reveal_with_fuel(kept, 2);
    } else {
        pattern::lemma_join_then_split(fields, ","@);
        lemma_kept_fields(fields);
    }
}

/// Fields are kept as they are.
proof fn lemma_kept_fields(fields: Seq<Seq<char>>)
    requires
        forall|i: int| 0 <= i < fields.len() ==> is_field(#[trigger] fields[i]),
    ensures
        kept(fields) == fields,
    decreases fields.len(),
{
    if fields.len() > 0 {
        let front = fields.drop_last();
        assert forall|i: int| 0 <= i < front.len() implies is_field(#[trigger] front[i]) by {
            assert(is_field(fields[i]));
        }
        lemma_kept_fields(front);
        assert(is_field(fields[fields.len() - 1]));
        assert(front.push(fields.last()) =~= fields);
    }
}

/// The fields of a text go from comma to comma: each, without the white space at its ends, is one where
/// anything is left of it.
pub proof fn law_fields_go_from_comma_to_comma(a: Seq<char>, b: Seq<char>)
    ensures
        csv_fields(a + ","@ + b) == csv_fields(a) + csv_fields(b),
        !a.contains(',') ==> csv_fields(a) == if text::trimmed(a).len() == 0 {
            Seq::<Seq<char>>::empty()
        } else {
            seq![text::trimmed(a)]
        },
{
    reveal_strlit(",");
    pattern::lemma_pieces_concat(a, ","@, b);
    lemma_kept_concat(pattern::pieces(a, ","@), pattern::pieces(b, ","@));
    if !a.contains(',') {
        let one = seq![a];
        assert forall|i: int| 0 <= i < one.len() implies !(#[trigger] one[i]).contains(',') by {}
        pattern::lemma_join_then_split(one, ","@);
        assert(pattern::joined(one, ","@) == a);
        assert(one.drop_last() =~= Seq::<Seq<char>>::empty());
        reveal_with_fuel(kept, 2);
        assert(Seq::<Seq<char>>::empty().push(text::trimmed(a)) =~= seq![text::trimmed(a)]);
    }
}

/// Parts are kept one by one.
proof fn lemma_kept_concat(a: Seq<Seq<char>>, b: Seq<Seq<char>>)
    ensures
        kept(a + b) == kept(a) + kept(b),
    decreases b.len(),
{
    if b.len() == 0 {
        assert(a + b =~= a);
        assert(kept(a) + kept(b) =~= kept(a));
    } else {
        lemma_kept_concat(a, b.drop_last());
        assert((a + b).drop_last() =~= a + b.drop_last());
        assert(kept(a + b) =~= kept(a) + kept(b));
    }
}

/// One pair of quotes around a text is taken off, and a text without one is left as it is.
pub proof fn law_quotes_come_off(s: Seq<char>, quote: char)
    ensures
        quote == '"' || quote == '\'' ==> unquoted(seq![quote] + s + seq![quote]) == s,
        s.len() < 2 || s[0] != s.last() || s[0] != '"' && s[0] != '\'' ==> unquoted(s) == s,
{
    let whole = seq![quote] + s + seq![quote];
    assert(whole.subrange(1, whole.len() - 1) =~= s);
}

/// A list that must be given is asked for under its flag, which has dashes where its name has
/// underscores.
pub proof fn law_required_lists_are_asked_for(raw: Seq<char>, name: Seq<char>)
    requires
        !name.contains('_'),
    ensures
        required_fields(Some(raw), name) == Ok::<Seq<Seq<char>>, Seq<char>>(csv_fields(raw)),
        required_fields(None, name) == Err::<Seq<Seq<char>>, Seq<char>>("--"@ + name + " required"@),
        required_fields(None, name + "_"@ + name) == Err::<Seq<Seq<char>>, Seq<char>>(
            "--"@ + (name + "-"@ + name) + " required"@,
        ),
{
    reveal_strlit("_");
    pattern::law_replacing(name, "_"@, name, "-"@);
}

} // verus!
