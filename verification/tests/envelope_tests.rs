use email_client::envelope::{render_inbox, render_summary, EnvelopeSummary, FetchError};

#[test]
fn missing_date_renders_as_empty_string() {
    let summary = EnvelopeSummary {
        from: Some("alice".to_string()),
        subject: Some("Hello".to_string()),
        date: None,
    };
    assert_eq!(render_summary(&summary), "\nFrom: alice\nSubject: Hello\nDate: ");
}

#[test]
fn all_fields_render_in_place() {
    let summary = EnvelopeSummary {
        from: Some("bob".to_string()),
        subject: Some("Re: plans".to_string()),
        date: Some("Mon, 1 Jan 2024 10:00:00 +0000".to_string()),
    };
    assert_eq!(
        render_summary(&summary),
        "\nFrom: bob\nSubject: Re: plans\nDate: Mon, 1 Jan 2024 10:00:00 +0000"
    );
}

#[test]
fn absent_fields_all_render_empty() {
    let summary = EnvelopeSummary {
        from: None,
        subject: None,
        date: None,
    };
    assert_eq!(render_summary(&summary), "\nFrom: \nSubject: \nDate: ");
}

#[test]
fn empty_inbox_renders_no_lines() {
    let lines = render_inbox(&Vec::new());
    assert!(lines.is_empty());
}

#[test]
fn inbox_lines_keep_fetch_order() {
    let list = vec![
        EnvelopeSummary {
            from: Some("first".to_string()),
            subject: Some("one".to_string()),
            date: Some("d1".to_string()),
        },
        EnvelopeSummary {
            from: Some("second".to_string()),
            subject: Some("two".to_string()),
            date: None,
        },
    ];
    let lines = render_inbox(&list);
    assert_eq!(lines.len(), 2);
    assert_eq!(lines[0], "\nFrom: first\nSubject: one\nDate: d1");
    assert_eq!(lines[1], "\nFrom: second\nSubject: two\nDate: ");
}

#[test]
fn fetch_errors_have_distinct_messages() {
    assert_eq!(
        FetchError::Connection.message(),
        "the mail server could not be reached"
    );
    assert_eq!(
        FetchError::Authentication.message(),
        "the mail server rejected the credentials"
    );
    assert_eq!(
        FetchError::Select.message(),
        "the mailbox could not be selected"
    );
    assert_eq!(
        FetchError::Fetch.message(),
        "the messages could not be fetched"
    );
}
