use email_client::ledger::Ledger;
use email_client::transport::{prepare_send, validate_recipient, SendError};
use email_client::SentMessage;

fn msg(recipient: &str, subject: &str, body: &str) -> SentMessage {
    SentMessage::new(recipient.to_string(), subject.to_string(), body.to_string())
}

#[test]
fn load_absent_file_yields_empty() {
    let ledger = Ledger::load(None).unwrap();
    assert_eq!(ledger.len(), 0);
}

#[test]
fn append_monotonicity() {
    let mut ledger = Ledger::new();
    let recipients = ["a@x.com", "b@y.org", "c@z.net"];
    let mut last = String::new();
    for (i, r) in recipients.iter().enumerate() {
        last = ledger.append(msg(r, "s", "b"));
        assert_eq!(ledger.len(), i + 1);
    }
    for (i, r) in recipients.iter().enumerate() {
        assert_eq!(ledger.get(i).recipient, *r);
    }
    let reloaded = Ledger::load(Some(&last)).unwrap();
    assert_eq!(reloaded.len(), recipients.len());
    for (i, r) in recipients.iter().enumerate() {
        assert_eq!(reloaded.get(i).recipient, *r);
    }
}

#[test]
fn render_sent_numbers_entries_from_one() {
    let mut ledger = Ledger::new();
    ledger.append(msg("a@x.com", "Hi", "Test"));
    ledger.append(msg("b@y.org", "Again", "More"));
    let lines = ledger.render_sent();
    assert_eq!(lines.len(), 2);
    assert_eq!(
        lines[0],
        "Email #1\nRecipient: a@x.com\nSubject: Hi\nBody: Test\n----------------------------"
    );
    assert_eq!(
        lines[1],
        "Email #2\nRecipient: b@y.org\nSubject: Again\nBody: More\n----------------------------"
    );
}

#[test]
fn scenario_single_send_persists_exact_text() {
    let mut ledger = Ledger::new();
    assert_eq!(ledger.len(), 0);
    // A stub transport accepts the prepared message; only the record and
    // the persisted text are in question here.
    let prepared = prepare_send("me@example.com", "a@x.com", "Hi", "Test").unwrap();
    let text = ledger.append(prepared);
    assert_eq!(ledger.len(), 1);
    assert_eq!(ledger.get(0).recipient, "a@x.com");
    assert_eq!(ledger.get(0).subject, "Hi");
    assert_eq!(ledger.get(0).body, "Test");
    assert_eq!(
        text,
        "[{\"recipient\":\"a@x.com\",\"subject\":\"Hi\",\"body\":\"Test\"}]"
    );
}

#[test]
fn scenario_malformed_recipient_fails_before_send() {
    let ledger = Ledger::new();
    let outcome = prepare_send("me@example.com", "not-an-email", "Hi", "Test");
    match outcome {
        Err(SendError::AddressParse) => {}
        _ => panic!("a malformed recipient was accepted"),
    }
    assert_eq!(ledger.len(), 0);
}

#[test]
fn scenario_two_sends_reload_in_order() {
    let mut ledger = Ledger::new();
    let first = prepare_send("me@example.com", "a@x.com", "one", "1").unwrap();
    ledger.append(first);
    let second = prepare_send("me@example.com", "b@y.org", "two", "2").unwrap();
    let text = ledger.append(second);
    assert_eq!(ledger.len(), 2);
    assert_eq!(ledger.get(0).subject, "one");
    assert_eq!(ledger.get(1).subject, "two");
    let reloaded = Ledger::load(Some(&text)).unwrap();
    assert_eq!(reloaded.len(), 2);
    assert_eq!(reloaded.get(0).recipient, "a@x.com");
    assert_eq!(reloaded.get(0).subject, "one");
    assert_eq!(reloaded.get(1).recipient, "b@y.org");
    assert_eq!(reloaded.get(1).subject, "two");
}

#[test]
fn recipient_validation_matches_transport() {
    assert!(validate_recipient("user@example.com").is_ok());
    match validate_recipient("not-an-email") {
        Err(SendError::AddressParse) => {}
        _ => panic!("a malformed recipient was accepted"),
    }
    match validate_recipient("") {
        Err(SendError::AddressParse) => {}
        _ => panic!("an empty recipient was accepted"),
    }
    assert_eq!(
        SendError::AddressParse.message(),
        "the mail address could not be parsed"
    );
    assert_eq!(
        SendError::Authentication.message(),
        "the relay rejected the credentials"
    );
    assert_eq!(
        SendError::Connection.message(),
        "the relay could not be reached"
    );
    assert_eq!(SendError::Delivery.message(), "the relay refused the message");
}
