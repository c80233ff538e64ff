//! The sent-mail ledger: the in-memory ordered list of sent messages
//! that is the source of truth during a run, loaded from the persisted
//! text at startup and rewritten in full after every successful send.
use vstd::prelude::*;
use crate::SentMessage;
use crate::SentMessageView;
use crate::json::json_ledger;
use crate::json::lemma_parse_round_trip;
use crate::json::message_views;
use crate::json::parse_ledger;
use crate::json::serialize_ledger;
use crate::json::spec_parse_ledger;

verus! {

/// What can go wrong around the persisted ledger: text that does not
/// read back as a ledger, or a failure to write the file.
#[derive(Clone, Copy, Debug, PartialEq, Eq, Structural)]
pub enum LedgerError {
    Deserialize,
    Persist,
}

impl LedgerError {
    /// A single human-readable line naming the failure.
    pub fn message(&self) -> (out: String)
        ensures
            *self is Deserialize ==> out@ == "the saved ledger file is malformed"@,
            *self is Persist ==> out@ == "the ledger file could not be written"@,
    {
        match self {
            LedgerError::Deserialize => String::from_str("the saved ledger file is malformed"),
            LedgerError::Persist => String::from_str("the ledger file could not be written"),
        }
    }
}

/// The ordered record of sent messages; insertion order is send order.
pub struct Ledger {
    entries: Vec<SentMessage>,
}

impl View for Ledger {
    type V = Seq<SentMessageView>;

    closed spec fn view(&self) -> Seq<SentMessageView> {
        message_views(self.entries@)
    }
}

impl Ledger {
    /// An empty ledger: the state of a first run.
    pub fn new() -> (r: Ledger)
        ensures
            r@ == Seq::<SentMessageView>::empty(),
    {
        let r = Ledger { entries: Vec::new() };
        proof {
            assert(r@ =~= Seq::<SentMessageView>::empty());
        }
        r
    }

    /// Restores the ledger from the persisted text. An absent file
    /// (`None`) is the normal first-run state and yields an empty
    /// ledger; text that does not read back as a ledger is reported,
    /// never guessed at.
    pub fn load(content: Option<&str>) -> (r: Result<Ledger, LedgerError>)
        ensures
            match content {
                None => r matches Ok(l) && l@ == Seq::<SentMessageView>::empty(),
                Some(text) => match spec_parse_ledger(text@) {
                    Some(v) => r matches Ok(l) && l@ == v,
                    None => r == Err::<Ledger, LedgerError>(LedgerError::Deserialize),
                },
            },
    {
        match content {
            None => Ok(Ledger::new()),
            Some(text) => match parse_ledger(text) {
                Some(entries) => Ok(Ledger { entries }),
                None => Err(LedgerError::Deserialize),
            },
        }
    }

    /// How many messages have been sent.
    pub fn len(&self) -> (n: usize)
        ensures
            n == self@.len(),
    {
        self.entries.len()
    }

    /// The message at a position, in send order.
    pub fn get(&self, i: usize) -> (m: &SentMessage)
        requires
            i < self@.len(),
        ensures
            m@ == self@[i as int],
    {
        &self.entries[i]
    }

    /// The persisted text for the current state.
    pub fn serialize(&self) -> (out: String)
        ensures
            out@ == json_ledger(self@),
    {
        serialize_ledger(&self.entries)
    }

    /// Appends one sent message and hands back the full persisted text
    /// to be written in its place; the caller reports a write failure as
    /// `LedgerError::Persist`.
    pub fn append(&mut self, m: SentMessage) -> (out: String)
        ensures
            final(self)@ == old(self)@.push(m@),
            out@ == json_ledger(final(self)@),
    {
        let ghost mv = m@;
        let ghost old_entries = self.entries@;
        self.entries.push(m);
        proof {
            assert(message_views(self.entries@) =~= message_views(old_entries).push(mv));
        }
        serialize_ledger(&self.entries)
    }
}

/// Relies on std's `u64` `Display` through `ToString`: the decimal
/// digits of `n`, a function of `n` alone.
#[verifier::external_body]
fn u64_to_string(n: u64) -> (r: String)
    ensures
        r@ == decimal_of(n),
{
    n.to_string()
}

/// The decimal rendering of a number, as std writes it.
pub uninterp spec fn decimal_of(n: u64) -> Seq<char>;

/// The text displayed for the sent message at a position, numbered from
/// one.
pub open spec fn sent_entry_text(number: u64, m: SentMessageView) -> Seq<char> {
    "Email #"@ + decimal_of(number) + "\nRecipient: "@ + m.recipient + "\nSubject: "@ + m.subject
        + "\nBody: "@ + m.body + "\n----------------------------"@
}

impl Ledger {
    /// Renders every sent message for display, in send order, numbered
    /// from one.
    pub fn render_sent(&self) -> (out: Vec<String>)
        ensures
            out@.len() == self@.len(),
            forall|i: int|
                0 <= i < self@.len() ==> out@[i]@ == sent_entry_text((i + 1) as u64, self@[i]),
    {
        let n = self.len();
        let mut out: Vec<String> = Vec::new();
        let mut i: usize = 0;
        while i < n
            invariant
                n == self@.len(),
                i <= n,
                out@.len() == i,
                forall|k: int|
                    0 <= k < i ==> out@[k]@ == sent_entry_text((k + 1) as u64, self@[k]),
            decreases self@.len() - i,
        {
            let m = self.get(i);
            let mut line = String::from_str("Email #");
            line.append(u64_to_string((i + 1) as u64).as_str());
            line.append("\nRecipient: ");
            line.append(m.recipient.as_str());
            line.append("\nSubject: ");
            line.append(m.subject.as_str());
            line.append("\nBody: ");
            line.append(m.body.as_str());
            line.append("\n----------------------------");
            proof {
                assert(line@ =~= sent_entry_text((i + 1) as u64, self@[i as int]));
            }
            out.push(line);
            i = i + 1;
        }
        out
    }
}

/// The ledger after appending the given records one at a time, in order.
pub open spec fn after_appends(
    init: Seq<SentMessageView>,
    msgs: Seq<SentMessageView>,
) -> Seq<SentMessageView>
    decreases msgs.len(),
{
    if msgs.len() == 0 {
        init
    } else {
        after_appends(init.push(msgs[0]), msgs.skip(1))
    }
}

/// Law: appending records one at a time leaves exactly those records
/// after the old ones, in order — so after N appends onto an empty
/// ledger there are exactly N entries in send order — and the text the
/// last append writes reads back to exactly that state.
pub proof fn lemma_append_monotonicity(init: Seq<SentMessageView>, msgs: Seq<SentMessageView>)
    ensures
        after_appends(init, msgs) == init + msgs,
        after_appends(init, msgs).len() == init.len() + msgs.len(),
        spec_parse_ledger(json_ledger(after_appends(init, msgs))) == Some(init + msgs),
    decreases msgs.len(),
{
    if msgs.len() == 0 {
        assert(after_appends(init, msgs) =~= init + msgs);
    } else {
        lemma_append_monotonicity(init.push(msgs[0]), msgs.skip(1));
        assert(init.push(msgs[0]) + msgs.skip(1) =~= init + msgs);
    }
    lemma_parse_round_trip(init + msgs);
}

} // verus!
