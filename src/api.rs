//! The ingestion endpoint of menu records and the reading of its answers.

use vstd::prelude::*;

verus! {

/// Where menu records are delivered: a base address ending in `/`.
pub struct MenuAPI {
    url: String,
}

/// `s` with a `/` appended unless it already ends in one.
pub open spec fn with_trailing_slash(s: Seq<char>) -> Seq<char> {
    if s.len() > 0 && s.last() == '/' {
        s
    } else {
        s.push('/')
    }
}

impl MenuAPI {
    /// The base address records are delivered under.
    pub closed spec fn base_url(&self) -> Seq<char> {
        self.url@
    }

    /// An endpoint rooted at `url`, with a `/` appended when it lacks one.
    pub fn new(url: String) -> (r: MenuAPI)
        ensures
            r.base_url() == with_trailing_slash(url@),
    {
        let ghost given = url@;
        let mut url = url;
        let n = url.as_str().unicode_len();
        if n == 0 || url.as_str().get_char(n - 1) != '/' {
            proof {
                reveal_strlit("/");
            }
            url.append("/");
            assert(url@ =~= given.push('/'));
        }
        MenuAPI { url }
    }

    /// The address a single record is posted to: the base followed by `menu`.
    pub fn menu_endpoint(&self) -> (r: String)
        ensures
            r@ == self.base_url() + "menu"@,
    {
        let mut s = self.url.clone();
        s.append("menu");
        s
    }
}

/// How the delivery of one record turned out.
#[derive(Clone, Copy, Debug, PartialEq, Eq, Structural)]
pub enum SubmitOutcome {
    /// A 2xx answer.
    Success,
    /// A 5xx answer.
    ServerError,
    /// A 403 answer: submissions are not allowed from here.
    Restricted,
    /// A 409 answer: the record was delivered before.
    Duplicate,
    /// Any other status, kept as it came.
    Unexpected(u16),
    /// No answer: the request failed on the way.
    Transport,
}

/// How loudly an outcome is reported.
#[derive(Clone, Copy, Debug, PartialEq, Eq, Structural)]
pub enum Severity {
    Info,
    Warning,
    Error,
}

/// The outcome an HTTP status stands for.
pub open spec fn outcome_of_status(code: u16) -> SubmitOutcome {
    if 200 <= code <= 299 {
        SubmitOutcome::Success
    } else if 500 <= code <= 599 {
        SubmitOutcome::ServerError
    } else if code == 403 {
        SubmitOutcome::Restricted
    } else if code == 409 {
        SubmitOutcome::Duplicate
    } else {
        SubmitOutcome::Unexpected(code)
    }
}

/// The outcome of a delivery attempt: its status, or `None` when no answer came.
pub open spec fn outcome_of_response(status: Option<u16>) -> SubmitOutcome {
    match status {
        Some(code) => outcome_of_status(code),
        None => SubmitOutcome::Transport,
    }
}

/// The severity each outcome is reported at: a duplicate is benign.
pub open spec fn severity_of(o: SubmitOutcome) -> Severity {
    match o {
        SubmitOutcome::Success => Severity::Info,
        SubmitOutcome::Duplicate => Severity::Warning,
        _ => Severity::Error,
    }
}

/// Reads the status of an answer.
pub fn classify_status(code: u16) -> (r: SubmitOutcome)
    ensures
        r == outcome_of_status(code),
{
    if 200 <= code && code <= 299 {
        SubmitOutcome::Success
    } else if 500 <= code && code <= 599 {
        SubmitOutcome::ServerError
    } else if code == 403 {
        SubmitOutcome::Restricted
    } else if code == 409 {
        SubmitOutcome::Duplicate
    } else {
        SubmitOutcome::Unexpected(code)
    }
}

/// Reads the result of a delivery attempt.
pub fn classify_response(status: Option<u16>) -> (r: SubmitOutcome)
    ensures
        r == outcome_of_response(status),
{
    match status {
        Some(code) => classify_status(code),
        None => SubmitOutcome::Transport,
    }
}

impl SubmitOutcome {
    /// The severity this outcome is reported at.
    pub fn severity(&self) -> (r: Severity)
        ensures
            r == severity_of(*self),
    {
        match self {
            SubmitOutcome::Success => Severity::Info,
            SubmitOutcome::Duplicate => Severity::Warning,
            _ => Severity::Error,
        }
    }
}

} // verus!
