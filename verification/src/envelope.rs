//! The inbox side of the client: the envelope fields fetched for one
//! message and their rendering. The IMAP session itself is network I/O
//! and lives with the caller, which hands the already-decoded header
//! values in; a header the message lacks renders as an empty string,
//! never as a failure.
use vstd::prelude::*;

verus! {

/// What can end an inbox fetch: a failed or refused connection, a
/// rejected login, a mailbox that could not be selected, or a fetch the
/// server answered badly.
#[derive(Clone, Copy, Debug, PartialEq, Eq, Structural)]
pub enum FetchError {
    Connection,
    Authentication,
    Select,
    Fetch,
}

impl FetchError {
    /// A single human-readable line naming the failure.
    pub fn message(&self) -> (out: String)
        ensures
            *self is Connection ==> out@ == "the mail server could not be reached"@,
            *self is Authentication ==> out@ == "the mail server rejected the credentials"@,
            *self is Select ==> out@ == "the mailbox could not be selected"@,
            *self is Fetch ==> out@ == "the messages could not be fetched"@,
    {
        match self {
            FetchError::Connection => String::from_str("the mail server could not be reached"),
            FetchError::Authentication => String::from_str(
                "the mail server rejected the credentials",
            ),
            FetchError::Select => String::from_str("the mailbox could not be selected"),
            FetchError::Fetch => String::from_str("the messages could not be fetched"),
        }
    }
}

/// The envelope fields read for one fetched message: the first sender's
/// mailbox name, the subject, and the date, each absent when the message
/// carries no such header.
pub struct EnvelopeSummary {
    pub from: Option<String>,
    pub subject: Option<String>,
    pub date: Option<String>,
}

/// The mathematical value of an `EnvelopeSummary`.
pub struct EnvelopeSummaryView {
    pub from: Option<Seq<char>>,
    pub subject: Option<Seq<char>>,
    pub date: Option<Seq<char>>,
}

impl View for EnvelopeSummary {
    type V = EnvelopeSummaryView;

    open spec fn view(&self) -> EnvelopeSummaryView {
        EnvelopeSummaryView {
            from: match self.from {
                Some(ref s) => Some(s@),
                None => None,
            },
            subject: match self.subject {
                Some(ref s) => Some(s@),
                None => None,
            },
            date: match self.date {
                Some(ref s) => Some(s@),
                None => None,
            },
        }
    }
}

/// A present header's text, or the empty string for an absent one.
pub open spec fn text_or_empty(o: Option<Seq<char>>) -> Seq<char> {
    match o {
        Some(s) => s,
        None => Seq::empty(),
    }
}

/// The line printed for one fetched message.
pub open spec fn summary_line(v: EnvelopeSummaryView) -> Seq<char> {
    "\nFrom: "@ + text_or_empty(v.from) + "\nSubject: "@ + text_or_empty(v.subject) + "\nDate: "@
        + text_or_empty(v.date)
}

/// Renders one fetched message's envelope for display; an absent
/// header — a missing date, say — appears as an empty string.
pub fn render_summary(e: &EnvelopeSummary) -> (out: String)
    ensures
        out@ == summary_line(e@),
{
    let mut out = String::from_str("\nFrom: ");
    match &e.from {
        Some(s) => out.append(s.as_str()),
        None => (),
    }
    out.append("\nSubject: ");
    match &e.subject {
        Some(s) => out.append(s.as_str()),
        None => (),
    }
    out.append("\nDate: ");
    match &e.date {
        Some(s) => out.append(s.as_str()),
        None => (),
    }
    proof {
        assert(out@ =~= summary_line(e@));
    }
    out
}

/// Renders every fetched envelope, in fetch order: zero messages give
/// zero lines, which is a successful, empty result.
pub fn render_inbox(list: &Vec<EnvelopeSummary>) -> (out: Vec<String>)
    ensures
        out@.len() == list@.len(),
        forall|i: int| 0 <= i < list@.len() ==> out@[i]@ == summary_line(list@[i]@),
{
    let mut out: Vec<String> = Vec::new();
    let mut i: usize = 0;
    while i < list.len()
        invariant
            i <= list@.len(),
            out@.len() == i,
            forall|k: int| 0 <= k < i ==> out@[k]@ == summary_line(list@[k]@),
        decreases list@.len() - i,
    {
        out.push(render_summary(&list[i]));
        i = i + 1;
    }
    out
}

} // verus!
