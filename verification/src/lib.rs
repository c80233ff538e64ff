//! A small mail-client core: a persisted ledger of sent messages with a
//! verified JSON codec, recipient validation for the SMTP transport,
//! inbox-envelope rendering, and the console controller's state machine.
use vstd::prelude::*;

pub mod controller;
pub mod envelope;
pub mod json;
pub mod ledger;
pub mod transport;

verus! {

/// One outbound mail record: constructed after a successful send,
/// immutable thereafter.
pub struct SentMessage {
    pub recipient: String,
    pub subject: String,
    pub body: String,
}

/// The mathematical value of a `SentMessage`: its three fields as
/// character sequences.
pub struct SentMessageView {
    pub recipient: Seq<char>,
    pub subject: Seq<char>,
    pub body: Seq<char>,
}

impl View for SentMessage {
    type V = SentMessageView;

    open spec fn view(&self) -> SentMessageView {
        SentMessageView { recipient: self.recipient@, subject: self.subject@, body: self.body@ }
    }
}

impl Clone for SentMessage {
    fn clone(&self) -> (r: Self)
        ensures
            r@ == self@,
    {
        SentMessage {
            recipient: self.recipient.clone(),
            subject: self.subject.clone(),
            body: self.body.clone(),
        }
    }
}

impl SentMessage {
    /// Builds a record from its three fields.
    pub fn new(recipient: String, subject: String, body: String) -> (r: SentMessage)
        ensures
            r@ == (SentMessageView { recipient: recipient@, subject: subject@, body: body@ }),
    {
        SentMessage { recipient, subject, body }
    }
}

} // verus!
