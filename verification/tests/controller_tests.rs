use email_client::controller::{step, Action, Mode};

#[test]
fn menu_choices_dispatch() {
    let (mode, action) = step(Mode::Menu, "1".to_string());
    assert!(matches!(mode, Mode::AwaitRecipient));
    assert!(matches!(action, Action::PromptRecipient));

    let (mode, action) = step(Mode::Menu, "2".to_string());
    assert!(matches!(mode, Mode::Menu));
    assert!(matches!(action, Action::ShowSent));

    let (mode, action) = step(Mode::Menu, "3".to_string());
    assert!(matches!(mode, Mode::Menu));
    assert!(matches!(action, Action::ShowInbox));

    let (mode, action) = step(Mode::Menu, "4".to_string());
    assert!(matches!(mode, Mode::Menu));
    assert!(matches!(action, Action::Quit));
}

#[test]
fn unrecognized_choice_stays_at_menu() {
    for bad in ["", "5", "12", "quit", "one"] {
        let (mode, action) = step(Mode::Menu, bad.to_string());
        assert!(matches!(mode, Mode::Menu));
        assert!(matches!(action, Action::Invalid));
    }
}

#[test]
fn send_flow_gathers_inputs_in_order() {
    let (mode, action) = step(Mode::Menu, "1".to_string());
    assert!(matches!(action, Action::PromptRecipient));

    let (mode, action) = step(mode, "a@x.com".to_string());
    assert!(matches!(action, Action::PromptSubject));
    match &mode {
        Mode::AwaitSubject { recipient } => assert_eq!(recipient, "a@x.com"),
        _ => panic!("wrong mode after the recipient line"),
    }

    let (mode, action) = step(mode, "Hi".to_string());
    assert!(matches!(action, Action::PromptBody));
    match &mode {
        Mode::AwaitBody { recipient, subject } => {
            assert_eq!(recipient, "a@x.com");
            assert_eq!(subject, "Hi");
        }
        _ => panic!("wrong mode after the subject line"),
    }

    let (mode, action) = step(mode, "Test".to_string());
    assert!(matches!(mode, Mode::Menu));
    match action {
        Action::Send {
            recipient,
            subject,
            body,
        } => {
            assert_eq!(recipient, "a@x.com");
            assert_eq!(subject, "Hi");
            assert_eq!(body, "Test");
        }
        _ => panic!("the body line did not produce a send"),
    }
}
