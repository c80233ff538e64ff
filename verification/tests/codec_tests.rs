use email_client::json::{parse_ledger, serialize_ledger};
use email_client::ledger::{Ledger, LedgerError};
use email_client::SentMessage;

fn msg(recipient: &str, subject: &str, body: &str) -> SentMessage {
    SentMessage::new(recipient.to_string(), subject.to_string(), body.to_string())
}

#[test]
fn empty_ledger_serializes_to_empty_array() {
    let ledger = Ledger::new();
    assert_eq!(ledger.serialize(), "[]");
    let back = parse_ledger("[]").unwrap();
    assert_eq!(back.len(), 0);
}

#[test]
fn round_trip_preserves_all_records() {
    let records = vec![
        msg("a@x.com", "Hi", "Test"),
        msg("b@y.org", "", "second body"),
        msg("c@z.net", "subject three", ""),
    ];
    let text = serialize_ledger(&records);
    let back = parse_ledger(&text).unwrap();
    assert_eq!(back.len(), records.len());
    for (orig, parsed) in records.iter().zip(back.iter()) {
        assert_eq!(orig.recipient, parsed.recipient);
        assert_eq!(orig.subject, parsed.subject);
        assert_eq!(orig.body, parsed.body);
    }
}

#[test]
fn escaped_characters_round_trip() {
    let records = vec![msg(
        "quote\"and\\slash@x.com",
        "tab\there",
        "line\nbreak and \u{1} control",
    )];
    let text = serialize_ledger(&records);
    let back = parse_ledger(&text).unwrap();
    assert_eq!(back.len(), 1);
    assert_eq!(back[0].recipient, "quote\"and\\slash@x.com");
    assert_eq!(back[0].subject, "tab\there");
    assert_eq!(back[0].body, "line\nbreak and \u{1} control");
}

#[test]
fn serialized_output_is_json_for_serde() {
    let records = vec![
        msg("a@x.com", "Hi \"there\"", "back\\slash"),
        msg("b@y.org", "tab\tsubject", "plain"),
    ];
    let text = serialize_ledger(&records);
    let value: serde_json::Value = serde_json::from_str(&text).unwrap();
    let array = value.as_array().unwrap();
    assert_eq!(array.len(), 2);
    assert_eq!(array[0]["recipient"].as_str().unwrap(), "a@x.com");
    assert_eq!(array[0]["subject"].as_str().unwrap(), "Hi \"there\"");
    assert_eq!(array[0]["body"].as_str().unwrap(), "back\\slash");
    assert_eq!(array[1]["recipient"].as_str().unwrap(), "b@y.org");
    assert_eq!(array[1]["subject"].as_str().unwrap(), "tab\tsubject");
    assert_eq!(array[1]["body"].as_str().unwrap(), "plain");
}

#[test]
fn malformed_text_is_rejected() {
    for bad in ["not json", "[", "{}", "[{\"recipient\":\"a\"}]", "[]]"] {
        match Ledger::load(Some(bad)) {
            Err(LedgerError::Deserialize) => {}
            _ => panic!("malformed text was accepted: {bad}"),
        }
    }
    assert_eq!(
        LedgerError::Deserialize.message(),
        "the saved ledger file is malformed"
    );
    assert_eq!(
        LedgerError::Persist.message(),
        "the ledger file could not be written"
    );
}
