//! The console controller's state machine: from the current mode and
//! one trimmed input line to the next mode and the action to perform.
//! The caller runs the loop around it — printing prompts, reading
//! lines, sending, persisting — and feeds each line back in.
use vstd::prelude::*;

verus! {

/// Where the controller stands: at the menu, or partway through
/// gathering the three inputs of a send.
pub enum Mode {
    Menu,
    AwaitRecipient,
    AwaitSubject { recipient: String },
    AwaitBody { recipient: String, subject: String },
}

/// What the caller is to do next: show a prompt, perform a send with
/// the gathered inputs, list the sent or inbox mail, quit, or report an
/// unrecognized menu choice and show the menu again.
pub enum Action {
    PromptRecipient,
    PromptSubject,
    PromptBody,
    Send { recipient: String, subject: String, body: String },
    ShowSent,
    ShowInbox,
    Quit,
    Invalid,
}

/// The action a menu line selects: `1` starts a send, `2` lists sent
/// mail, `3` lists the inbox, `4` quits, and anything else is invalid.
pub open spec fn menu_action(line: Seq<char>) -> Action {
    if line == "1"@ {
        Action::PromptRecipient
    } else if line == "2"@ {
        Action::ShowSent
    } else if line == "3"@ {
        Action::ShowInbox
    } else if line == "4"@ {
        Action::Quit
    } else {
        Action::Invalid
    }
}

/// The mode a menu line leads to: only `1` leaves the menu, for the
/// send flow's first prompt.
pub open spec fn menu_mode(line: Seq<char>) -> Mode {
    if line == "1"@ {
        Mode::AwaitRecipient
    } else {
        Mode::Menu
    }
}

/// Whether two strings hold the same characters.
fn text_eq(a: &str, b: &str) -> (r: bool)
    ensures
        r == (a@ == b@),
{
    let n = a.unicode_len();
    let m = b.unicode_len();
    if n != m {
        return false;
    }
    let mut i: usize = 0;
    while i < n
        invariant
            n == a@.len(),
            n == b@.len(),
            i <= n,
            forall|k: int| 0 <= k < i ==> a@[k] == b@[k],
        decreases n - i,
    {
        if a.get_char(i) != b.get_char(i) {
            return false;
        }
        i = i + 1;
    }
    proof {
        assert(a@ =~= b@);
    }
    true
}

/// One step of the console loop: consumes the mode and the line just
/// read (already trimmed) and yields the next mode and the action to
/// perform before the next read.
pub fn step(mode: Mode, line: String) -> (r: (Mode, Action))
    ensures
        mode is Menu ==> r.0 == menu_mode(line@) && r.1 == menu_action(line@),
        mode is AwaitRecipient ==> r.1 is PromptSubject && (r.0 matches Mode::AwaitSubject {
            recipient,
        } && recipient == line),
        mode matches Mode::AwaitSubject { recipient: r0 } ==> r.1 is PromptBody && (
        r.0 matches Mode::AwaitBody { recipient, subject } && recipient == r0 && subject == line),
        mode matches Mode::AwaitBody { recipient: r0, subject: s0 } ==> r.0 is Menu && (
        r.1 matches Action::Send { recipient, subject, body } && recipient == r0 && subject == s0
            && body == line),
{
    match mode {
        Mode::Menu => {
            if text_eq(line.as_str(), "1") {
                (Mode::AwaitRecipient, Action::PromptRecipient)
            } else if text_eq(line.as_str(), "2") {
                (Mode::Menu, Action::ShowSent)
            } else if text_eq(line.as_str(), "3") {
                (Mode::Menu, Action::ShowInbox)
            } else if text_eq(line.as_str(), "4") {
                (Mode::Menu, Action::Quit)
            } else {
                (Mode::Menu, Action::Invalid)
            }
        },
        Mode::AwaitRecipient => (Mode::AwaitSubject { recipient: line }, Action::PromptSubject),
        Mode::AwaitSubject { recipient } => (
            Mode::AwaitBody { recipient, subject: line },
            Action::PromptBody,
        ),
        Mode::AwaitBody { recipient, subject } => (
            Mode::Menu,
            Action::Send { recipient, subject, body: line },
        ),
    }
}

} // verus!
