//! Settings of the optional external model, and what is made of its replies.
//!
//! The model speaks a small chat-completions protocol and returns a
//! free-form rationale for a suspicious flow. Enforcement decisions always come
//! from the signal engine.

use vstd::prelude::*;

use crate::text;

verus! {

/// Model that is asked when none is configured.
pub const DEFAULT_MODEL: &'static str = "llama3.1";

/// Where and how to reach the model.
#[derive(Debug, Clone)]
pub struct LlmBackend {
    pub url: String,
    pub model: String,
    pub api_key: Option<String>,
}

/// What the model is told about its task.
pub const SYSTEM_PROMPT: &'static str =
    "You are the triage controller of a zero-trust eBPF firewall. Given a suspicious flow summary, output a terse security rationale (2-3 sentences) naming the observed signals, whether quarantine is warranted, and why. No preamble.";

/// Why a reply is refused.
#[derive(Debug, Clone, PartialEq, Eq)]
pub enum ReviewError {
    /// The model answered with this HTTP status.
    Status(u16),
    /// The reply is not JSON; what is wrong with it.
    Unparseable(String),
    /// The reply held no text.
    Empty,
}

/// The string that `serde_json` finds in a JSON document at `[a][i][b][c]`, if
/// there is one, or the message that says why the document cannot be read.
pub uninterp spec fn json_text_at(
    body: Seq<u8>,
    a: Seq<char>,
    i: nat,
    b: Seq<char>,
    c: Seq<char>,
) -> Result<Option<Seq<char>>, Seq<char>>;

/// `serde_json::from_slice` into a `serde_json::Value`, whose indexing gives null
/// for whatever is missing, and whose `as_str` gives the text of a string value.
/// Claimed: what is found is a function of the document and the path.
#[verifier::external_body]
fn text_at(body: &[u8], a: &str, i: usize, b: &str, c: &str) -> (r: Result<
    Option<String>,
    String,
>)
    ensures
        match r {
            Ok(Some(t)) => json_text_at(body@, a@, i as nat, b@, c@) == Ok::<
                Option<Seq<char>>,
                Seq<char>,
            >(Some(t@)),
            Ok(None) => json_text_at(body@, a@, i as nat, b@, c@) == Ok::<
                Option<Seq<char>>,
                Seq<char>,
            >(None),
            Err(e) => json_text_at(body@, a@, i as nat, b@, c@) == Err::<
                Option<Seq<char>>,
                Seq<char>,
            >(e@),
        },
{
    match serde_json::from_slice::<serde_json::Value>(body) {
        Ok(v) => Ok(v[a][i][b][c].as_str().map(str::to_string)),
        Err(e) => Err(e.to_string()),
    }
}

/// The text of a reply without the white space around it; a missing text counts
/// as an empty one.
pub open spec fn said(content: Option<Seq<char>>) -> Seq<char> {
    match content {
        Some(c) => text::trim_end(text::trim_start(c)),
        None => Seq::empty(),
    }
}

/// What comes of a reply with the given status and content.
pub open spec fn judged(
    r: Result<String, ReviewError>,
    status: u16,
    content: Result<Option<Seq<char>>, Seq<char>>,
) -> bool {
    match r {
        Ok(t) => {
            &&& 200 <= status < 300
            &&& content matches Ok(c)
            &&& said(c).len() > 0
            &&& t@ == said(c)
        },
        Err(ReviewError::Status(s)) => !(200 <= status < 300) && s == status,
        Err(ReviewError::Unparseable(m)) => {
            &&& 200 <= status < 300
            &&& content matches Err(e)
            &&& m@ == e
        },
        Err(ReviewError::Empty) => {
            &&& 200 <= status < 300
            &&& content matches Ok(c)
            &&& said(c).len() == 0
        },
    }
}

/// The contents of a content reading.
pub open spec fn content_view(content: Result<Option<String>, String>) -> Result<
    Option<Seq<char>>,
    Seq<char>,
> {
    match content {
        Ok(Some(t)) => Ok(Some(t@)),
        Ok(None) => Ok(None),
        Err(e) => Err(e@),
    }
}

impl LlmBackend {
    /// The backend that the environment describes; without an address there is
    /// none.
    pub fn from_env(url: Option<String>, model: Option<String>, api_key: Option<String>) -> (r:
        Option<Self>)
        ensures
            match r {
                Some(b) => {
                    &&& url == Some(b.url)
                    &&& b.model@ == match model {
                        Some(m) => m@,
                        None => DEFAULT_MODEL@,
                    }
                    &&& model is None ==> b.model@ == "llama3.1"@
                    &&& b.api_key == api_key
                },
                None => url is None,
            },
    {
        match url {
            Some(url) => {
                let model: String = match model {
                    Some(m) => m,
                    None => DEFAULT_MODEL.to_owned(),
                };
                Some(LlmBackend { url, model, api_key })
            },
            None => None,
        }
    }

    /// The rationale in a reply: the trimmed text of a successful answer that is
    /// not blank. `content` is what was found where the message text belongs.
    pub fn accept(status: u16, content: Result<Option<String>, String>) -> (r: Result<
        String,
        ReviewError,
    >)
        ensures
            judged(r, status, content_view(content)),
    {
        if status < 200 || status >= 300 {
            return Err(ReviewError::Status(status));
        }
        let said: String = match content {
            Ok(Some(c)) => text::trimmed(c.as_str()),
            Ok(None) => String::new(),
            Err(e) => {
                return Err(ReviewError::Unparseable(e));
            },
        };
        if said.as_str().is_empty() {
            Err(ReviewError::Empty)
        } else {
            Ok(said)
        }
    }

    /// The rationale in an answer of the model, from its status and body.
    pub fn review(&self, status: u16, body: &[u8]) -> (r: Result<String, ReviewError>)
        ensures
            judged(
                r,
                status,
                json_text_at(body@, "choices"@, 0, "message"@, "content"@),
            ),
    {
        LlmBackend::accept(status, text_at(body, "choices", 0, "message", "content"))
    }
}

/// A rationale is taken from a reply exactly if the reply succeeded, could be
/// read, and says something besides white space. It is then a part of what the
/// model said, without white space at either end, and all that is cut off is
/// white space.
pub proof fn law_rationale_is_what_the_model_said(
    r: Result<String, ReviewError>,
    status: u16,
    said_text: Seq<char>,
)
    requires
        judged(r, status, Ok(Some(said_text))),
    ensures
        r is Ok <==> 200 <= status <= 299 && exists|i: int|
            0 <= i < said_text.len() && !text::white_space(#[trigger] said_text[i]),
        r matches Ok(t) ==> {
            &&& !text::white_space(t@[0]) && !text::white_space(t@.last())
            &&& exists|i: int, j: int|
                0 <= i < j <= said_text.len() && t@ == #[trigger] said_text.subrange(i, j)
                    && forall|k: int|
                    (0 <= k < i || j <= k < said_text.len()) ==> text::white_space(
                        #[trigger] said_text[k],
                    )
        },
        r matches Err(e) ==> {
            &&& !(200 <= status <= 299) ==> e == ReviewError::Status(status)
            &&& 200 <= status <= 299 ==> e is Empty
        },
{
    let a = text::trim_start(said_text);
    let b = text::trim_end(a);
    text::law_trim_start(said_text);
    text::law_trim_end(a);
    let i = said_text.len() - a.len();
    let j = i + b.len();
    assert(b =~= said_text.subrange(i, j));
    assert forall|k: int| (0 <= k < i || j <= k < said_text.len()) implies text::white_space(
        #[trigger] said_text[k],
    ) by {
        if k >= j {
            assert(a[k - i] == said_text[k]);
        }
    }
    if b.len() > 0 {
        assert(said_text[i] == a[0]);
        assert(a[0] == b[0]);
    }
    if exists|k: int| 0 <= k < said_text.len() && !text::white_space(#[trigger] said_text[k]) {
        let k = choose|k: int| 0 <= k < said_text.len() && !text::white_space(#[trigger] said_text[k]);
        assert(i <= k < j);
    }
}

/// A reply without a text, one that cannot be read and one that failed give no
/// rationale, each for its own reason; a failure is reported before anything
/// else.
pub proof fn law_other_replies_are_refused(
    r: Result<String, ReviewError>,
    status: u16,
    problem: Seq<char>,
)
    ensures
        judged(r, status, Ok(None)) && 200 <= status <= 299 ==> (r matches Err(e) && e is Empty),
        judged(r, status, Err(problem)) && 200 <= status <= 299 ==> (r matches Err(
            ReviewError::Unparseable(m),
        ) && m@ == problem),
        (judged(r, status, Ok(None)) || judged(r, status, Err(problem))) && !(200 <= status <= 299)
            ==> (r matches Err(e) && e == ReviewError::Status(status)),
{
}

} // verus!
