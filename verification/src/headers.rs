//! What HTTP accepts for methods and headers: the calls into `http`, through `reqwest` and
//! `tungstenite`.

use crate::error::CliError;
use crate::query;
use crate::text;
use tungstenite::http::{HeaderName, HeaderValue};
use vstd::prelude::*;

verus! {

/// Whether a character may stand in a token: a letter, a digit, or one of some signs.
pub open spec fn is_token_char(c: char) -> bool {
    ||| 'a' <= c <= 'z'
    ||| 'A' <= c <= 'Z'
    ||| '0' <= c <= '9'
    ||| c == '!' || c == '#' || c == '$' || c == '%' || c == '&' || c == '\'' || c == '*'
    ||| c == '+' || c == '-' || c == '.' || c == '^' || c == '_' || c == '`' || c == '|' || c == '~'
}

/// Whether a text is a token: one character or more, each of which may stand in one.
pub open spec fn is_token(s: Seq<char>) -> bool {
    s.len() > 0 && forall|i: int| 0 <= i < s.len() ==> is_token_char(#[trigger] s[i])
}

/// The number of characters up to which a text is the name of a header.
pub const MAX_NAME_CHARS: usize = 0xffff;

/// Whether a text is the name of a header.
pub open spec fn is_header_name(s: Seq<char>) -> bool {
    is_token(s) && s.len() <= MAX_NAME_CHARS
}

/// Whether a text can be the value of a header: it holds no control character but the tab.
pub open spec fn is_header_value(s: Seq<char>) -> bool {
    forall|i: int|
        0 <= i < s.len() ==> ((#[trigger] s[i]) >= ' ' && s[i] != '\u{7f}' || s[i] == '\t')
}

/// `HeaderName::from_bytes` takes a token of at most 65535 characters for the name of a header, in
/// small letters, and refuses any other text with one message.
#[verifier::external_body]
fn header_name(text: &str) -> (r: Result<String, String>)
    ensures
        match r {
            Ok(name) => is_header_name(text@) && name@ == text::lowered(text@),
            Err(e) => !is_header_name(text@) && e@ == "invalid HTTP header name"@,
        },
{
    HeaderName::from_bytes(text.as_bytes()).map(|n| n.to_string()).map_err(|e| e.to_string())
}

/// `HeaderValue::from_str` takes a text without control characters but the tab for the value of a
/// header, as it is, and refuses any other text with one message.
#[verifier::external_body]
fn header_value(text: &str) -> (r: Result<(), String>)
    ensures
        match r {
            Ok(_) => is_header_value(text@),
            Err(e) => !is_header_value(text@) && e@ == "failed to parse header value"@,
        },
{
    HeaderValue::from_str(text).map(|_| ()).map_err(|e| e.to_string())
}

/// `Method::from_str`, which `str::parse` calls, takes a token for a method and refuses any other text
/// with one message.
#[verifier::external_body]
fn method_name(text: &str) -> (r: Result<(), String>)
    ensures
        match r {
            Ok(_) => is_token(text@),
            Err(e) => !is_token(text@) && e@ == "invalid HTTP method"@,
        },
{
    text.parse().map(|_: reqwest::Method| ()).map_err(|e| e.to_string())
}

/// Checks that a text is a method.
pub fn check_method(method: &str) -> (r: Result<(), CliError>)
    ensures
        match r {
            Ok(_) => is_token(method@),
            Err(e) => !is_token(method@) && e@ == "invalid HTTP method"@,
        },
{
    match method_name(method) {
        Ok(_) => Ok(()),
        Err(e) => Err(CliError::of(e)),
    }
}

/// A header with its name in small letters, or the message of the fault: first that of the name.
pub open spec fn checked_header(header: (Seq<char>, Seq<char>)) -> Result<
    (Seq<char>, Seq<char>),
    Seq<char>,
> {
    if !is_header_name(header.0) {
        Err("invalid HTTP header name"@)
    } else if !is_header_value(header.1) {
        Err("failed to parse header value"@)
    } else {
        Ok((text::lowered(header.0), header.1))
    }
}

/// Headers with their names in small letters, or the message of the first fault.
pub open spec fn checked_headers(headers: Seq<(Seq<char>, Seq<char>)>) -> Result<
    Seq<(Seq<char>, Seq<char>)>,
    Seq<char>,
>
    decreases headers.len(),
{
    if headers.len() == 0 {
        Ok(seq![])
    } else {
        match checked_headers(headers.drop_last()) {
            Err(e) => Err(e),
            Ok(before) => match checked_header(headers.last()) {
                Ok(header) => Ok(before.push(header)),
                Err(e) => Err(e),
            },
        }
    }
}

/// A fault in the first headers is the fault of all of them.
proof fn lemma_first_fault(headers: Seq<(Seq<char>, Seq<char>)>, n: int)
    requires
        0 <= n <= headers.len(),
        checked_headers(headers.take(n)) is Err,
    ensures
        checked_headers(headers) == checked_headers(headers.take(n)),
    decreases headers.len(),
{
    if n < headers.len() {
        assert(headers.drop_last().take(n) =~= headers.take(n));
        lemma_first_fault(headers.drop_last(), n);
    } else {
        assert(headers.take(n) =~= headers);
    }
}

/// Checks the headers of a web socket, and puts their names in small letters.
pub fn socket_headers(headers: &Vec<(String, String)>) -> (r: Result<
    Vec<(String, String)>,
    CliError,
>)
    ensures
        match r {
            Ok(checked) => checked_headers(query::pair_views(headers@)) == Ok::<
                Seq<(Seq<char>, Seq<char>)>,
                Seq<char>,
            >(query::pair_views(checked@)),
            Err(e) => checked_headers(query::pair_views(headers@)) == Err::<
                Seq<(Seq<char>, Seq<char>)>,
                Seq<char>,
            >(e@),
        },
{
    let mut out: Vec<(String, String)> = Vec::new();
    let ghost all = query::pair_views(headers@);
    let mut i: usize = 0;
    proof {
        assert(all.take(0) =~= seq![]);
        assert(query::pair_views(out@) =~= seq![]);
    }
    while i < headers.len()
        invariant
            i <= headers@.len(),
            all == query::pair_views(headers@),
            checked_headers(all.take(i as int)) == Ok::<
                Seq<(Seq<char>, Seq<char>)>,
                Seq<char>,
            >(query::pair_views(out@)),
        decreases headers@.len() - i,
    {
        let ghost next = all.take(i + 1);
        proof {
            assert(next.drop_last() =~= all.take(i as int));
            assert(next.last() == (headers@[i as int].0@, headers@[i as int].1@));
        }
        let name = match header_name(headers[i].0.as_str()) {
            Ok(name) => name,
            Err(e) => {
                proof {
                    lemma_first_fault(all, i + 1);
                }
                return Err(CliError::of(e));
            },
        };
        if let Err(e) = header_value(headers[i].1.as_str()) {
            proof {
                lemma_first_fault(all, i + 1);
            }
            return Err(CliError::of(e));
        }
        let ghost before = out@;
        out.push((name, headers[i].1.clone()));
        proof {
            assert(query::pair_views(out@) =~= query::pair_views(before).push(
                (name@, headers@[i as int].1@),
            ));
        }
        i = i + 1;
    }
    proof {
        assert(all.take(i as int) =~= all);
    }
    Ok(out)
}

/// The headers of a web socket keep their number, their order and their values; their names are put in
/// small letters. They are refused exactly where a name or a value is not one that a header can have.
pub proof fn law_socket_headers_keep_their_values(headers: Seq<(Seq<char>, Seq<char>)>)
    ensures
        checked_headers(headers) is Ok <==> forall|i: int|
            0 <= i < headers.len() ==> is_header_name((#[trigger] headers[i]).0) && is_header_value(
                headers[i].1,
            ),
        checked_headers(headers) matches Ok(checked) ==> checked.len() == headers.len() && forall|
            i: int,
        |
            0 <= i < headers.len() ==> (#[trigger] checked[i]).1 == headers[i].1 && checked[i].0
                == text::lowered(headers[i].0),
    decreases headers.len(),
{
    if headers.len() > 0 {
        let front = headers.drop_last();
        let last = headers.len() - 1;
        law_socket_headers_keep_their_values(front);
        assert(headers[last] == headers.last());
        if checked_headers(headers) is Ok {
            assert forall|i: int| 0 <= i < headers.len() implies is_header_name(
                (#[trigger] headers[i]).0,
            ) && is_header_value(headers[i].1) by {
                if i < last {
                    assert(front[i] == headers[i]);
                }
            }
            let checked = checked_headers(headers)->Ok_0;
            let before = checked_headers(front)->Ok_0;
            assert forall|i: int| 0 <= i < headers.len() implies (#[trigger] checked[i]).1
                == headers[i].1 && checked[i].0 == text::lowered(headers[i].0) by {
                if i < last {
                    assert(checked[i] == before[i]);
                    assert(front[i] == headers[i]);
                }
            }
        } else if forall|i: int|
            0 <= i < headers.len() ==> is_header_name((#[trigger] headers[i]).0) && is_header_value(
                headers[i].1,
            ) {
            assert forall|i: int| 0 <= i < front.len() implies is_header_name(
                (#[trigger] front[i]).0,
            ) && is_header_value(front[i].1) by {
                assert(headers[i] == front[i]);
            }
            assert(is_header_name(headers[last].0));
        }
    }
}

} // verus!
