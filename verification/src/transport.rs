//! The send side of the client: recipient and sender validation before
//! any network work, and the record that a successful send leaves
//! behind. The SMTP relay call itself is network I/O and lives with the
//! caller; a send only proceeds on a message this module has accepted.
use vstd::prelude::*;
use crate::SentMessage;
use crate::SentMessageView;

verus! {

/// Whether lettre's address parser accepts the string: a user@domain
/// mail address with a valid local part and domain.
pub uninterp spec fn valid_address(s: Seq<char>) -> bool;

/// Relies on lettre's `Address` parser (`<Address as FromStr>::from_str`):
/// it accepts or rejects a string by its characters alone, and only
/// accepts strings that split on a `@` into a user and a domain part.
#[verifier::external_body]
fn address_parses(s: &str) -> (r: bool)
    ensures
        r == valid_address(s@),
        r ==> exists|k: int| 0 <= k < s@.len() && s@[k] == '@',
{
    s.parse::<lettre::Address>().is_ok()
}

/// What can end a send: a malformed address (caught before any network
/// call), a rejected login, a failed connection to the relay, or a
/// delivery the relay refused.
#[derive(Clone, Copy, Debug, PartialEq, Eq, Structural)]
pub enum SendError {
    AddressParse,
    Authentication,
    Connection,
    Delivery,
}

impl SendError {
    /// A single human-readable line naming the failure.
    pub fn message(&self) -> (out: String)
        ensures
            *self is AddressParse ==> out@ == "the mail address could not be parsed"@,
            *self is Authentication ==> out@ == "the relay rejected the credentials"@,
            *self is Connection ==> out@ == "the relay could not be reached"@,
            *self is Delivery ==> out@ == "the relay refused the message"@,
    {
        match self {
            SendError::AddressParse => String::from_str("the mail address could not be parsed"),
            SendError::Authentication => String::from_str("the relay rejected the credentials"),
            SendError::Connection => String::from_str("the relay could not be reached"),
            SendError::Delivery => String::from_str("the relay refused the message"),
        }
    }
}

/// Checks one recipient address as the transport's parser would, without
/// touching the network.
pub fn validate_recipient(to: &str) -> (r: Result<(), SendError>)
    ensures
        r is Ok <==> valid_address(to@),
        r is Err ==> r == Err::<(), SendError>(SendError::AddressParse),
{
    if address_parses(to) {
        Ok(())
    } else {
        Err(SendError::AddressParse)
    }
}

/// Validates both addresses of an outgoing message and, when they parse,
/// builds the record that a successful send will append to the ledger.
/// A malformed address fails here, before any network call, and leaves
/// the ledger untouched.
pub fn prepare_send(from: &str, to: &str, subject: &str, body: &str) -> (r: Result<
    SentMessage,
    SendError,
>)
    ensures
        r is Ok <==> valid_address(from@) && valid_address(to@),
        r matches Ok(m) ==> m@ == (SentMessageView {
            recipient: to@,
            subject: subject@,
            body: body@,
        }),
        r is Err ==> r == Err::<SentMessage, SendError>(SendError::AddressParse),
{
    if !address_parses(from) {
        return Err(SendError::AddressParse);
    }
    if !address_parses(to) {
        return Err(SendError::AddressParse);
    }
    Ok(SentMessage { recipient: to.to_owned(), subject: subject.to_owned(), body: body.to_owned() })
}

} // verus!
