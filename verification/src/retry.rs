//! HTTP replies: what a status means, and when a request is sent again.

use crate::error::CliError;
use crate::json::{Json, JsonView};
use crate::json_text::{self, read_json};
use crate::text::same;
use vstd::prelude::*;
use vstd::string::StringExecFns;
use vstd::utf8;

verus! {

broadcast use crate::json::lemma_view;

/// Whether a status says that a request succeeded.
pub fn is_success(status: u16) -> (r: bool)
    ensures
        r == (200 <= status < 300),
{
    200 <= status && status < 300
}

/// Whether a status says that a request may succeed later: too many requests, or a server error.
pub open spec fn is_retryable(status: u16) -> bool {
    status == 429 || 500 <= status < 600
}

/// Whether a request with this status is worth sending again.
pub fn retryable_status(status: u16) -> (r: bool)
    ensures
        r == is_retryable(status),
{
    status == 429 || (500 <= status && status < 600)
}

/// What is said beside a status that refuses a client, by the resource that it was refused.
pub open spec fn refusal_hint(resource: Seq<char>, status: u16) -> Seq<char> {
    if status != 401 && status != 403 {
        ""@
    } else if resource == "export"@ || resource == "insights"@ {
        " \u{2014} Export/Insights require an OpenPanel read or root client. Frontend/write clients can track events but cannot read analytics."@
    } else if resource == "manage"@ {
        " \u{2014} Manage endpoints require an OpenPanel root client with organization-wide access."@
    } else {
        ""@
    }
}

/// Explains a status that refuses a client.
pub fn auth_error_hint(resource_name: &str, status: u16) -> (r: &'static str)
    ensures
        r@ == refusal_hint(resource_name@, status),
{
    if status != 401 && status != 403 {
        return "";
    }
    if same(resource_name, "export") || same(resource_name, "insights") {
        " \u{2014} Export/Insights require an OpenPanel read or root client. Frontend/write clients can track events but cannot read analytics."
    } else if same(resource_name, "manage") {
        " \u{2014} Manage endpoints require an OpenPanel root client with organization-wide access."
    } else {
        ""
    }
}

/// The number of bytes of a reply that an error message quotes.
pub const QUOTED_BYTES: usize = 500;

/// Whether a text can be cut after the quoted bytes: it is no longer, or a character begins there.
pub open spec fn can_cut(text: Seq<char>) -> bool {
    let bytes = utf8::encode_utf8(text);
    bytes.len() <= QUOTED_BYTES || utf8::is_char_boundary(bytes, QUOTED_BYTES as int)
}

/// A text, cut after the quoted bytes with a mark where it is longer.
pub open spec fn cut(text: Seq<char>) -> Seq<char> {
    let bytes = utf8::encode_utf8(text);
    if bytes.len() <= QUOTED_BYTES {
        text
    } else {
        utf8::decode_utf8(bytes.subrange(0, QUOTED_BYTES as int)) + "\u{2026}"@
    }
}

/// Whether a text can be cut after the quoted bytes: the condition that `truncate` asks for.
pub fn can_truncate(text: &str) -> (r: bool)
    ensures
        r == can_cut(text@),
{
    text.as_bytes().len() <= QUOTED_BYTES || text.is_char_boundary(QUOTED_BYTES)
}

/// Cuts a text after the quoted bytes, with a mark where it is longer.
pub fn truncate(text: &str) -> (r: String)
    requires
        can_cut(text@),
    ensures
        r@ == cut(text@),
{
    if text.as_bytes().len() > QUOTED_BYTES {
        let (head, _) = text.split_at(QUOTED_BYTES);
        proof {
            utf8::encode_utf8_decode_utf8(head@);
        }
        let mut out = head.to_string();
        out.append("\u{2026}");
        out
    } else {
        text.to_string()
    }
}

/// A cut text begins the text that it was cut from, and a text of no more than the quoted bytes is not
/// cut.
pub proof fn law_cut_text_begins_the_text(text: Seq<char>)
    requires
        can_cut(text),
    ensures
        cut(text) == text || exists|rest: Seq<char>, head: Seq<char>|
            text == #[trigger] (head + rest) && cut(text) == head + "\u{2026}"@,
        utf8::encode_utf8(text).len() <= QUOTED_BYTES ==> cut(text) == text,
{
    let bytes = utf8::encode_utf8(text);
    if bytes.len() > QUOTED_BYTES {
        utf8::encode_utf8_valid_utf8(text);
        utf8::encode_utf8_decode_utf8(text);
        utf8::decode_utf8_split(bytes, QUOTED_BYTES as int);
        let head = utf8::decode_utf8(bytes.subrange(0, QUOTED_BYTES as int));
        let rest = utf8::decode_utf8(bytes.subrange(QUOTED_BYTES as int, bytes.len() as int));
        assert(text == head + rest);
    }
}

/// What a reply is, for the one who sent the request.
#[derive(Debug, PartialEq, Eq)]
pub enum Reply {
    /// Success, with a JSON value.
    Value(Json),
    /// Success, with a text that is no JSON, and why.
    Undecodable(String),
    /// A failure that may pass.
    Retryable,
    /// A failure that will not.
    Refused,
}

/// What a reply is.
pub enum ReplyView {
    Value(JsonView),
    Undecodable(Seq<char>),
    Retryable,
    Refused,
}

impl View for Reply {
    type V = ReplyView;

    open spec fn view(&self) -> ReplyView {
        match *self {
            Reply::Value(v) => ReplyView::Value(v@),
            Reply::Undecodable(e) => ReplyView::Undecodable(e@),
            Reply::Retryable => ReplyView::Retryable,
            Reply::Refused => ReplyView::Refused,
        }
    }
}

/// What a status and a text say.
pub open spec fn reply_of(status: u16, decoded: Result<JsonView, Seq<char>>) -> ReplyView {
    if 200 <= status < 300 {
        match decoded {
            Ok(v) => ReplyView::Value(v),
            Err(e) => ReplyView::Undecodable(e),
        }
    } else if is_retryable(status) {
        ReplyView::Retryable
    } else {
        ReplyView::Refused
    }
}

/// Tells what a reply is, from its status and what its text decodes to.
pub fn sort_reply(status: u16, decoded: Result<Json, String>) -> (r: Reply)
    ensures
        r@ == reply_of(
            status,
            match decoded {
                Ok(v) => Ok::<JsonView, Seq<char>>(v@),
                Err(e) => Err::<JsonView, Seq<char>>(e@),
            },
        ),
{
    if is_success(status) {
        match decoded {
            Ok(v) => Reply::Value(v),
            Err(e) => Reply::Undecodable(e),
        }
    } else if retryable_status(status) {
        Reply::Retryable
    } else {
        Reply::Refused
    }
}

/// Tells what a reply is, from its status and its text.
pub fn classify_reply(status: u16, text: &str) -> (r: Reply)
    ensures
        r@ == reply_of(status, json_text::json_value(text@)),
{
    sort_reply(status, read_json(text))
}

/// The number of times that a request is sent.
pub const MAX_SENDS: u64 = 3;

/// The sends of one request so far: how many, and the message of the last failure.
#[derive(Debug, PartialEq, Eq)]
pub struct Sends {
    pub made: u64,
    pub last_error: Option<String>,
}

/// What to do after a send.
#[derive(Debug, PartialEq, Eq)]
pub enum Verdict {
    /// The request succeeded with this value.
    Done(Json),
    /// The request failed for good.
    Fail(CliError),
    /// The request failed; wait this many milliseconds.
    Wait(u64),
}

/// What to do after a send.
pub enum VerdictView {
    Done(JsonView),
    Fail(Seq<char>),
    Wait(int),
}

impl View for Verdict {
    type V = VerdictView;

    open spec fn view(&self) -> VerdictView {
        match *self {
            Verdict::Done(v) => VerdictView::Done(v@),
            Verdict::Fail(e) => VerdictView::Fail(e@),
            Verdict::Wait(ms) => VerdictView::Wait(ms as int),
        }
    }
}

/// The message for a status with a text.
pub open spec fn status_message(status_text: Seq<char>, text: Seq<char>) -> Seq<char> {
    "http "@ + status_text + "; body="@ + cut(text)
}

/// The message for a text that is no JSON.
pub open spec fn decode_message(error: Seq<char>, text: Seq<char>) -> Seq<char> {
    "decode json: "@ + error + "; body="@ + cut(text)
}

/// Writes the message for a status with a text.
fn write_status_message(status_text: &str, text: &str) -> (r: String)
    requires
        can_cut(text@),
    ensures
        r@ == status_message(status_text@, text@),
{
    let mut out = "http ".to_string();
    out.append(status_text);
    out.append("; body=");
    out.append(truncate(text).as_str());
    out
}

impl Sends {
    /// A request that has not been sent.
    pub fn none() -> (r: Sends)
        ensures
            r.made == 0,
            r.last_error is None,
    {
        Sends { made: 0, last_error: None }
    }

    /// Whether the request may be sent, or sent again.
    pub fn may_send(&self) -> (r: bool)
        ensures
            r == (self.made < MAX_SENDS),
    {
        self.made < MAX_SENDS
    }

    /// Notes a failure, and tells how long to wait: a quarter of a second for each send so far.
    fn note(&mut self, message: String) -> (r: Verdict)
        requires
            old(self).made < MAX_SENDS,
        ensures
            r@ == VerdictView::Wait(250 * (old(self).made + 1)),
            final(self).made == old(self).made + 1,
            final(self).last_error matches Some(e) && e@ == message@,
    {
        self.made = self.made + 1;
        self.last_error = Some(message);
        Verdict::Wait(250 * self.made)
    }

    /// Takes in a reply. A value ends the matter, and so does a refusal; any other failure is noted, and
    /// calls for a wait.
    pub fn on_reply(&mut self, reply: Reply, status_text: &str, text: &str) -> (r: Verdict)
        requires
            old(self).made < MAX_SENDS,
            reply is Value || can_cut(text@),
        ensures
            match reply@ {
                ReplyView::Value(v) => r@ == VerdictView::Done(v) && *final(self) == *old(self),
                ReplyView::Refused => r@ == VerdictView::Fail(
                    status_message(status_text@, text@),
                ) && *final(self) == *old(self),
                ReplyView::Retryable => {
                    &&& r@ == VerdictView::Wait(250 * (old(self).made + 1))
                    &&& final(self).made == old(self).made + 1
                    &&& final(self).last_error matches Some(e) && e@ == status_message(
                        status_text@,
                        text@,
                    )
                },
                ReplyView::Undecodable(error) => {
                    &&& r@ == VerdictView::Wait(250 * (old(self).made + 1))
                    &&& final(self).made == old(self).made + 1
                    &&& final(self).last_error matches Some(e) && e@ == decode_message(error, text@)
                },
            },
    {
        match reply {
            Reply::Value(v) => Verdict::Done(v),
            Reply::Refused => Verdict::Fail(CliError::of(write_status_message(status_text, text))),
            Reply::Retryable => self.note(write_status_message(status_text, text)),
            Reply::Undecodable(error) => {
                let mut message = "decode json: ".to_string();
                message.append(error.as_str());
                message.append("; body=");
                message.append(truncate(text).as_str());
                self.note(message)
            },
        }
    }

    /// Takes in that a request could not be sent: noted, and calls for a wait.
    pub fn on_send_error(&mut self, error: &str) -> (r: Verdict)
        requires
            old(self).made < MAX_SENDS,
        ensures
            r@ == VerdictView::Wait(250 * (old(self).made + 1)),
            final(self).made == old(self).made + 1,
            final(self).last_error matches Some(e) && e@ == "send request: "@ + error@,
    {
        let mut message = "send request: ".to_string();
        message.append(error);
        self.note(message)
    }

    /// The error of a request that failed every time.
    pub fn give_up(self) -> (r: CliError)
        ensures
            r@ == match self.last_error {
                Some(e) => e@,
                None => "request failed"@,
            },
    {
        match self.last_error {
            Some(e) => CliError::of(e),
            None => CliError::new("request failed"),
        }
    }
}

/// What a status says of a reply: from 200 to 299 it is a success, with the JSON value of its text or why
/// there is none; 429 and from 500 to 599 it may pass; any other is a refusal.
pub proof fn law_statuses(status: u16, decoded: Result<JsonView, Seq<char>>)
    ensures
        reply_of(status, decoded) matches ReplyView::Value(v) ==> decoded == Ok::<
            JsonView,
            Seq<char>,
        >(v),
        reply_of(status, decoded) matches ReplyView::Undecodable(e) ==> decoded == Err::<
            JsonView,
            Seq<char>,
        >(e),
        200 <= status <= 299 <==> reply_of(status, decoded) is Value || reply_of(
            status,
            decoded,
        ) is Undecodable,
        status == 429 || 500 <= status <= 599 <==> reply_of(status, decoded) is Retryable,
        is_retryable(status) <==> status == 429 || 500 <= status <= 599,
{
}

/// A hint is given exactly for a status of 401 or 403 at one of the three resources that need a client of
/// their own; reading needs one, whichever of the two ways it goes.
pub proof fn law_hints(resource: Seq<char>, status: u16)
    ensures
        refusal_hint(resource, status).len() > 0 <==> (status == 401 || status == 403) && (resource
            == "export"@ || resource == "insights"@ || resource == "manage"@),
        refusal_hint("export"@, status) == refusal_hint("insights"@, status),
        refusal_hint("export"@, 403)
            == " \u{2014} Export/Insights require an OpenPanel read or root client. Frontend/write clients can track events but cannot read analytics."@,
        refusal_hint("manage"@, 403)
            == " \u{2014} Manage endpoints require an OpenPanel root client with organization-wide access."@,
        refusal_hint(resource, 401) == refusal_hint(resource, 403),
{
    reveal_strlit("");
    reveal_strlit("export");
    reveal_strlit("insights");
    reveal_strlit("manage");
    assert("export"@.len() == 6 && "export"@[0] == 'e' && "insights"@.len() == 8);
    assert("manage"@.len() == 6 && "manage"@[0] == 'm');
    reveal_strlit(
        " \u{2014} Export/Insights require an OpenPanel read or root client. Frontend/write clients can track events but cannot read analytics.",
    );
    reveal_strlit(
        " \u{2014} Manage endpoints require an OpenPanel root client with organization-wide access.",
    );
}

/// What is quoted of a long text: its first 500 bytes and a mark.
pub proof fn law_quotes_have_their_length(text: Seq<char>) -> (head: Seq<char>)
    requires
        can_cut(text),
        utf8::encode_utf8(text).len() > 500,
    ensures
        cut(text) == head + "\u{2026}"@,
        head.is_prefix_of(text),
        utf8::encode_utf8(head) == utf8::encode_utf8(text).take(500),
{
    let bytes = utf8::encode_utf8(text);
    utf8::encode_utf8_valid_utf8(text);
    utf8::encode_utf8_decode_utf8(text);
    utf8::decode_utf8_split(bytes, QUOTED_BYTES as int);
    let head = utf8::decode_utf8(bytes.subrange(0, QUOTED_BYTES as int));
    let rest = utf8::decode_utf8(bytes.subrange(QUOTED_BYTES as int, bytes.len() as int));
    assert(text == head + rest);
    assert(bytes.subrange(0, 500) =~= bytes.take(500));
    utf8::valid_utf8_split(bytes, QUOTED_BYTES as int);
    utf8::decode_utf8_encode_utf8(bytes.subrange(0, QUOTED_BYTES as int));
    head
}

} // verus!
