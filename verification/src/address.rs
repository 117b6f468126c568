//! Addresses of requests: the calls into `url`, through `reqwest`.

use crate::error::CliError;
use crate::pattern::{self, contains};
use crate::query;
use crate::text::same;
use reqwest::Url;
use vstd::prelude::*;
use vstd::string::StrSliceExecFns;

verus! {

/// The number of bytes that the positions in an address, which are held in 32 bits, can tell apart.
pub const MAX_BYTES: u64 = 0xffff_ffff;

/// The number of bytes that an escaped character takes at most: four bytes, with three characters each.
pub const ESCAPED_BYTES: u64 = 12;

/// The number of bytes that a character in the name of a host takes at most: it may stand for six
/// others, each of which takes ten at most.
pub const HOST_BYTES: u64 = 64;

/// Characters for what an address has of itself: slashes, a question mark, the form of a number.
pub const SPARE_CHARS: u64 = 6;

/// Whether a text holds ASCII characters alone.
pub open spec fn is_ascii_text(s: Seq<char>) -> bool {
    forall|i: int| 0 <= i < s.len() ==> #[trigger] s[i] <= '\u{7f}'
}

/// The number of bytes that a character of a base and a path takes at most. Where both are ASCII, the
/// name of a host does not grow by more than escaping makes it.
pub open spec fn char_bytes(base: Seq<char>, path: Seq<char>) -> nat {
    if is_ascii_text(base) && is_ascii_text(path) {
        ESCAPED_BYTES as nat
    } else {
        HOST_BYTES as nat
    }
}

/// The characters of pairs of names and values, and one more for each pair.
pub open spec fn pairs_len(pairs: Seq<(Seq<char>, Seq<char>)>) -> nat
    decreases pairs.len(),
{
    if pairs.len() == 0 {
        0
    } else {
        pairs_len(pairs.drop_last()) + pairs.last().0.len() + pairs.last().1.len() + 1
    }
}

/// Whether an address is short enough to be built: its base and path are, and where the path brings a
/// fragment, which goes behind the query, the base, the path and the pairs together are.
pub open spec fn is_short(
    base: Seq<char>,
    path: Seq<char>,
    pairs: Seq<(Seq<char>, Seq<char>)>,
) -> bool {
    let start = char_bytes(base, path) * (base.len() + path.len() + SPARE_CHARS);
    &&& start <= MAX_BYTES
    &&& path.contains('#') ==> start + ESCAPED_BYTES * pairs_len(pairs) <= MAX_BYTES
}

/// Fewer pairs have fewer characters.
proof fn lemma_pairs_len(pairs: Seq<(Seq<char>, Seq<char>)>, n: int)
    requires
        0 <= n <= pairs.len(),
    ensures
        pairs_len(pairs.take(n)) <= pairs_len(pairs),
    decreases pairs.len(),
{
    if n < pairs.len() {
        assert(pairs.drop_last().take(n) =~= pairs.take(n));
        lemma_pairs_len(pairs.drop_last(), n);
    } else {
        assert(pairs.take(n) =~= pairs);
    }
}

/// Tells whether a text holds ASCII characters alone.
fn holds_ascii(s: &str) -> (r: bool)
    ensures
        r == is_ascii_text(s@),
{
    for c in it: s.chars()
        invariant
            it.seq() == s@,
            forall|i: int| 0 <= i < it.index() ==> #[trigger] s@[i] <= '\u{7f}',
    {
        if c > '\u{7f}' {
            assert(s@[it.index()] == c);
            return false;
        }
    }
    true
}

/// A shorter ASCII path without a fragment leaves an address short.
proof fn lemma_shorter_path(base: Seq<char>, path: Seq<char>, other: Seq<char>)
    requires
        is_short(base, path, seq![]),
        other.len() <= path.len(),
        is_ascii_text(other),
        !other.contains('#'),
    ensures
        is_short(base, other, seq![]),
{
    let less = char_bytes(base, other);
    let more = char_bytes(base, path);
    let a = base.len() + other.len() + SPARE_CHARS;
    let b = base.len() + path.len() + SPARE_CHARS;
    assert(less * a <= more * b) by (nonlinear_arith)
        requires
            0 <= less <= more,
            0 <= a <= b,
    ;
}

/// Tells whether an address is short enough to be built: the condition that the functions that build
/// one ask for.
pub fn is_short_address(base: &str, path: &str, pairs: &Vec<(String, String)>) -> (r: bool)
    ensures
        r == is_short(base@, path@, query::pair_views(pairs@)),
{
    let limit: u128 = MAX_BYTES as u128;
    let chars: u128 = base.unicode_len() as u128 + path.unicode_len() as u128 + SPARE_CHARS as u128;
    let weight: u128 = if holds_ascii(base) && holds_ascii(path) {
        ESCAPED_BYTES as u128
    } else {
        HOST_BYTES as u128
    };
    assert(0 <= weight * chars <= u128::MAX) by (nonlinear_arith)
        requires
            0 <= weight <= 64,
            0 <= chars <= 0x4_0000_0000_0000_0000u128,
    ;
    let mut total: u128 = weight * chars;
    proof {
        assert(weight == char_bytes(base@, path@));
        assert(chars == base@.len() + path@.len() + SPARE_CHARS);
    }
    if total > limit {
        return false;
    }
    proof {
        reveal_strlit("#");
        pattern::lemma_occurs_char(path@, "#"@);
    }
    if !contains(path, "#") {
        return true;
    }
    let ghost all = query::pair_views(pairs@);
    let ghost start = total as int;
    let mut i: usize = 0;
    proof {
        assert(all.take(0) =~= seq![]);
    }
    while i < pairs.len()
        invariant
            i <= pairs@.len(),
            limit == MAX_BYTES,
            all == query::pair_views(pairs@),
            start == char_bytes(base@, path@) * (base@.len() + path@.len() + SPARE_CHARS),
            path@.contains('#'),
            total == start + ESCAPED_BYTES * pairs_len(all.take(i as int)),
            total <= limit,
        decreases pairs@.len() - i,
    {
        let more: u128 = pairs[i].0.as_str().unicode_len() as u128
            + pairs[i].1.as_str().unicode_len() as u128 + 1;
        assert(0 <= ESCAPED_BYTES as u128 * more <= 0x100_0000_0000_0000_0000u128) by (nonlinear_arith)
            requires
                ESCAPED_BYTES == 12,
                0 <= more <= 0x4_0000_0000_0000_0000u128,
        ;
        total = total + ESCAPED_BYTES as u128 * more;
        proof {
            assert(all.take(i + 1).drop_last() =~= all.take(i as int));
            assert(all.take(i + 1).last() == (pairs@[i as int].0@, pairs@[i as int].1@));
            lemma_pairs_len(all, i + 1);
        }
        if total > limit {
            return false;
        }
        i = i + 1;
    }
    proof {
        assert(all.take(i as int) =~= all);
    }
    true
}

/// What `Url::parse` makes of a base, `Url::join` of that and a path, and `append_pair` of that and
/// pairs of names and values, in a row: the text of the address, or the message of the error.
pub uninterp spec fn request_address(
    base: Seq<char>,
    path: Seq<char>,
    pairs: Seq<(Seq<char>, Seq<char>)>,
) -> Result<Seq<char>, Seq<char>>;

/// The scheme of the address that `Url::parse` makes of a text, or the message of its error.
pub uninterp spec fn address_scheme(text: Seq<char>) -> Result<Seq<char>, Seq<char>>;

/// The text of the address that `Url::parse` makes of a text, or the message of its error.
pub uninterp spec fn normal_address(text: Seq<char>) -> Result<Seq<char>, Seq<char>>;

/// The text of the address that `Url::parse` makes of a text, once `Url::set_scheme` has given it a
/// scheme (none where that is refused), or the message of the error.
pub uninterp spec fn address_with_scheme(text: Seq<char>, scheme: Seq<char>) -> Result<
    Option<Seq<char>>,
    Seq<char>,
>;

/// `Url::parse` reads the base, `Url::join` resolves the path against it, `Url::query_pairs_mut` opens
/// the query, with its question mark, and `extend_pairs` appends each pair as `append_pair` does. The
/// text of the address, and the message of the error of the first two, depend on the base, the path
/// and the pairs alone. `query_pairs_mut` takes the position of the query where there is none yet, and
/// takes the fragment, which only the path can bring, away; that is put back behind the pairs. Both
/// panic where the position does not fit 32 bits.
#[verifier::external_body]
pub(crate) fn request_url(base: &str, path: &str, pairs: &Vec<(String, String)>) -> (r: Result<
    String,
    String,
>)
    requires
        is_short(base@, path@, query::pair_views(pairs@)),
    ensures
        match r {
            Ok(t) => request_address(base@, path@, query::pair_views(pairs@)) == Ok::<
                Seq<char>,
                Seq<char>,
            >(t@),
            Err(e) => request_address(base@, path@, query::pair_views(pairs@)) == Err::<
                Seq<char>,
                Seq<char>,
            >(e@),
        },
{
    let mut url = Url::parse(base).and_then(|u| u.join(path)).map_err(|e| e.to_string())?;
    url.query_pairs_mut().extend_pairs(pairs);
    Ok(url.to_string())
}

/// `Url::parse` reads an address and `Url::scheme` gives its scheme: the scheme, and the message of the
/// error, depend on the text alone. `Url::parse` counts characters in 32 bits.
#[verifier::external_body]
pub(crate) fn url_scheme(text: &str) -> (r: Result<String, String>)
    requires
        is_short(text@, seq![], seq![]),
    ensures
        match r {
            Ok(t) => address_scheme(text@) == Ok::<Seq<char>, Seq<char>>(t@),
            Err(e) => address_scheme(text@) == Err::<Seq<char>, Seq<char>>(e@),
        },
{
    Url::parse(text).map(|u| u.scheme().to_string()).map_err(|e| e.to_string())
}

/// `Url::parse` reads an address and `to_string` writes it: the text, and the message of the error,
/// depend on the text alone. `Url::parse` counts characters in 32 bits.
#[verifier::external_body]
pub(crate) fn normal_url(text: &str) -> (r: Result<String, String>)
    requires
        is_short(text@, seq![], seq![]),
    ensures
        match r {
            Ok(t) => normal_address(text@) == Ok::<Seq<char>, Seq<char>>(t@),
            Err(e) => normal_address(text@) == Err::<Seq<char>, Seq<char>>(e@),
        },
{
    Url::parse(text).map(|u| u.to_string()).map_err(|e| e.to_string())
}

/// `Url::parse` reads an address, `Url::set_scheme` changes its scheme, or refuses to, and `to_string`
/// writes it: what comes of it depends on the text and the scheme alone. `set_scheme` moves positions
/// of 32 bits by the difference of the schemes.
#[verifier::external_body]
pub(crate) fn url_with_scheme(text: &str, scheme: &str) -> (r: Result<Option<String>, String>)
    requires
        is_short(text@, scheme@, seq![]),
    ensures
        match r {
            Ok(Some(t)) => address_with_scheme(text@, scheme@) == Ok::<Option<Seq<char>>, Seq<char>>(
                Some(t@),
            ),
            Ok(None) => address_with_scheme(text@, scheme@) == Ok::<Option<Seq<char>>, Seq<char>>(
                None,
            ),
            Err(e) => address_with_scheme(text@, scheme@) == Err::<Option<Seq<char>>, Seq<char>>(e@),
        },
{
    let mut url = Url::parse(text).map_err(|e| e.to_string())?;
    Ok(url.set_scheme(scheme).ok().map(|_| url.to_string()))
}

/// The scheme of web sockets that stands for a scheme (none where it is one already), or the message
/// that there is none.
pub open spec fn socket_scheme(scheme: Seq<char>) -> Result<Option<Seq<char>>, Seq<char>> {
    if scheme == "https"@ {
        Ok(Some("wss"@))
    } else if scheme == "http"@ {
        Ok(Some("ws"@))
    } else if scheme == "wss"@ || scheme == "ws"@ {
        Ok(None)
    } else {
        Err("unsupported ws base url scheme"@)
    }
}

/// Finds the scheme of web sockets that stands for a scheme.
pub fn ws_scheme(scheme: &str) -> (r: Result<Option<&'static str>, CliError>)
    ensures
        match r {
            Ok(Some(s)) => socket_scheme(scheme@) == Ok::<Option<Seq<char>>, Seq<char>>(Some(s@)),
            Ok(None) => socket_scheme(scheme@) == Ok::<Option<Seq<char>>, Seq<char>>(None),
            Err(e) => socket_scheme(scheme@) == Err::<Option<Seq<char>>, Seq<char>>(e@),
        },
        r matches Ok(Some(s)) ==> s@ == "wss"@ || s@ == "ws"@,
{
    if same(scheme, "https") {
        Ok(Some("wss"))
    } else if same(scheme, "http") {
        Ok(Some("ws"))
    } else if same(scheme, "wss") || same(scheme, "ws") {
        Ok(None)
    } else {
        Err(CliError::new("unsupported ws base url scheme"))
    }
}

/// The address of web sockets that stands for a base, or the message of the fault.
pub open spec fn socket_base(base: Seq<char>) -> Result<Seq<char>, Seq<char>> {
    match address_scheme(base) {
        Err(e) => Err(e),
        Ok(scheme) => match socket_scheme(scheme) {
            Err(e) => Err(e),
            Ok(None) => normal_address(base),
            Ok(Some(new)) => match address_with_scheme(base, new) {
                Err(e) => Err(e),
                Ok(None) => Err("invalid ws scheme"@),
                Ok(Some(changed)) => Ok(changed),
            },
        },
    }
}

/// Finds the address of web sockets that stands for a base.
pub fn ws_base_url(base_url: &str) -> (r: Result<String, CliError>)
    requires
        is_short(base_url@, "wss"@, seq![]),
    ensures
        match r {
            Ok(t) => socket_base(base_url@) == Ok::<Seq<char>, Seq<char>>(t@),
            Err(e) => socket_base(base_url@) == Err::<Seq<char>, Seq<char>>(e@),
        },
{
    proof {
        lemma_shorter_path(base_url@, "wss"@, seq![]);
    }
    let scheme = match url_scheme(base_url) {
        Ok(scheme) => scheme,
        Err(e) => return Err(CliError::of(e)),
    };
    let changed = match ws_scheme(scheme.as_str()) {
        Err(e) => return Err(e),
        Ok(None) => {
            return match normal_url(base_url) {
                Ok(t) => Ok(t),
                Err(e) => Err(CliError::of(e)),
            };
        },
        Ok(Some(new)) => {
            proof {
                reveal_strlit("wss");
                reveal_strlit("ws");
                lemma_shorter_path(base_url@, "wss"@, new@);
            }
            url_with_scheme(base_url, new)
        },
    };
    match changed {
        Ok(Some(t)) => Ok(t),
        Ok(None) => Err(CliError::new("invalid ws scheme")),
        Err(e) => Err(CliError::of(e)),
    }
}

/// Web sockets are encrypted exactly where the address was: `https` and `wss` lead to the one, `http` and
/// `ws` to the other, and nothing else leads to a web socket.
pub proof fn law_socket_schemes(scheme: Seq<char>)
    ensures
        socket_scheme(scheme) == Ok::<Option<Seq<char>>, Seq<char>>(Some("wss"@)) <==> scheme
            == "https"@,
        socket_scheme(scheme) == Ok::<Option<Seq<char>>, Seq<char>>(Some("ws"@)) <==> scheme
            == "http"@,
        socket_scheme(scheme) == Ok::<Option<Seq<char>>, Seq<char>>(None) <==> scheme == "wss"@
            || scheme == "ws"@,
        socket_scheme(scheme) is Err <==> scheme != "https"@ && scheme != "http"@ && scheme != "wss"@
            && scheme != "ws"@,
{
    reveal_strlit("https");
    reveal_strlit("http");
    reveal_strlit("wss");
    reveal_strlit("ws");
    assert("https"@.len() == 5 && "http"@.len() == 4 && "wss"@.len() == 3 && "ws"@.len() == 2);
}

/// The base of web sockets that stands for a base: with the scheme of its kind where it has one of HTTP,
/// as it is where it has one of web sockets, and none where it has another.
pub proof fn law_socket_bases_keep_the_address(base: Seq<char>)
    ensures
        address_scheme(base) == Ok::<Seq<char>, Seq<char>>("https"@) ==> (match address_with_scheme(
            base,
            "wss"@,
        ) {
            Ok(Some(changed)) => socket_base(base) == Ok::<Seq<char>, Seq<char>>(changed),
            _ => socket_base(base) is Err,
        }),
        address_scheme(base) == Ok::<Seq<char>, Seq<char>>("http"@) ==> (match address_with_scheme(
            base,
            "ws"@,
        ) {
            Ok(Some(changed)) => socket_base(base) == Ok::<Seq<char>, Seq<char>>(changed),
            _ => socket_base(base) is Err,
        }),
        address_scheme(base) == Ok::<Seq<char>, Seq<char>>("wss"@) || address_scheme(base) == Ok::<
            Seq<char>,
            Seq<char>,
        >("ws"@) ==> socket_base(base) == normal_address(base),
        address_scheme(base) is Err ==> socket_base(base) == address_scheme(base),
{
    reveal_strlit("https");
    reveal_strlit("http");
    reveal_strlit("wss");
    reveal_strlit("ws");
    assert("https"@.len() == 5 && "http"@.len() == 4 && "wss"@.len() == 3 && "ws"@.len() == 2);
}

} // verus!
