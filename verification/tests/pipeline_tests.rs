use notify_relay::consumer::{ConsumerLoop, FetchEvent, LoopStep, Phase, StopCause};
use notify_relay::dispatch::{
    classify_send, prepare_dispatch, DispatchError, DispatchOutcome, SkipReason,
};
use notify_relay::notify::{extract, NotificationRequest};
use notify_relay::payload::{MessagePayload, Parameter};

fn event_with(parameters: Vec<Parameter>) -> MessagePayload {
    MessagePayload {
        timestamp: "t1".to_string(),
        action: "signup".to_string(),
        text: "New signup".to_string(),
        description: "d".to_string(),
        parameters,
    }
}

fn param(name: &str, value: &str) -> Parameter {
    Parameter {
        name: name.to_string(),
        description: None,
        required: false,
        value: value.to_string(),
    }
}

const SIGNUP_PAYLOAD: &[u8] = br#"{"timestamp":"t1","action":"signup","text":"New signup","description":"d","parameters":[{"name":"email","value":"a@b.com"}]}"#;
const NO_RECIPIENT_PAYLOAD: &[u8] = br#"{"timestamp":"t1","action":"signup","text":"New signup","description":"d","parameters":[]}"#;

#[test]
fn format_exact_body() {
    let event = event_with(vec![param("email", "a@b.com")]);
    assert_eq!(
        notify_relay::notify::format(&event),
        "Action: signup\nTitle: New signup\nDescription: d\nParameters:\nemail: a@b.com\nTimestamp: t1"
    );
}

#[test]
fn extract_without_recipient_yields_nothing() {
    assert!(extract(&event_with(vec![])).is_none());
    assert!(extract(&event_with(vec![param("phone", "123")])).is_none());
}

#[test]
fn extract_single_recipient_among_others() {
    let event = event_with(vec![
        param("phone", "123"),
        param("email", "a@b.com"),
        param("plan", "pro"),
    ]);
    let req = extract(&event).unwrap();
    assert_eq!(req.recipient, "a@b.com");
    assert_eq!(req.subject, "New signup");
    assert_eq!(req.body, notify_relay::notify::format(&event));
}

#[test]
fn extract_prefers_first_recipient() {
    let event = event_with(vec![
        param("email", "first@b.com"),
        param("email", "second@b.com"),
    ]);
    assert_eq!(extract(&event).unwrap().recipient, "first@b.com");
}

#[test]
fn prepare_dispatch_builds_message() {
    let req = NotificationRequest {
        recipient: "a@b.com".to_string(),
        subject: "New signup".to_string(),
        body: "hello".to_string(),
    };
    let mail = prepare_dispatch(req, "sender@example.com").unwrap();
    assert_eq!(mail.from, "sender@example.com");
    assert_eq!(mail.to, "a@b.com");
    assert_eq!(mail.subject, "New signup");
    assert_eq!(mail.body, "hello");
}

#[test]
fn prepare_dispatch_rejects_malformed_recipient() {
    let req = NotificationRequest {
        recipient: "not an address".to_string(),
        subject: "s".to_string(),
        body: "b".to_string(),
    };
    assert_eq!(
        prepare_dispatch(req, "sender@example.com").unwrap_err(),
        DispatchError::AddressError
    );
}

#[test]
fn prepare_dispatch_rejects_malformed_sender() {
    let req = NotificationRequest {
        recipient: "a@b.com".to_string(),
        subject: "s".to_string(),
        body: "b".to_string(),
    };
    assert_eq!(
        prepare_dispatch(req, "no-at-sign").unwrap_err(),
        DispatchError::AddressError
    );
}

#[test]
fn classify_send_outcomes() {
    assert_eq!(classify_send(true), DispatchOutcome::Sent);
    assert_eq!(
        classify_send(false),
        DispatchOutcome::Failed(DispatchError::TransportError)
    );
}

#[test]
fn signup_message_is_dispatched_once() {
    let mut machine = ConsumerLoop::new("sender@example.com".to_string());
    let step = machine.on_fetch(FetchEvent::Payload(SIGNUP_PAYLOAD.to_vec()));
    match step {
        LoopStep::Deliver(mail) => {
            assert_eq!(mail.to, "a@b.com");
            assert_eq!(mail.subject, "New signup");
            assert_eq!(mail.from, "sender@example.com");
        }
        _ => panic!("expected a delivery"),
    }
    assert_eq!(machine.phase, Phase::Dispatching);
    assert_eq!(machine.on_send_result(true), DispatchOutcome::Sent);
    assert_eq!(machine.phase, Phase::Fetching);
}

#[test]
fn message_without_recipient_is_skipped() {
    let mut machine = ConsumerLoop::new("sender@example.com".to_string());
    let step = machine.on_fetch(FetchEvent::Payload(NO_RECIPIENT_PAYLOAD.to_vec()));
    assert!(matches!(step, LoopStep::Skip(SkipReason::NoRecipient)));
    assert_eq!(machine.phase, Phase::Fetching);
}

#[test]
fn invalid_text_is_skipped_as_encoding_error() {
    let mut machine = ConsumerLoop::new("sender@example.com".to_string());
    let step = machine.on_fetch(FetchEvent::Payload(vec![0xff, 0xfe]));
    assert!(matches!(step, LoopStep::Skip(SkipReason::EncodingError)));
    assert_eq!(machine.phase, Phase::Fetching);
}

#[test]
fn malformed_message_does_not_block_neighbours() {
    let mut machine = ConsumerLoop::new("sender@example.com".to_string());

    let first = machine.on_fetch(FetchEvent::Payload(SIGNUP_PAYLOAD.to_vec()));
    assert!(matches!(first, LoopStep::Deliver(_)));
    assert_eq!(machine.on_send_result(true), DispatchOutcome::Sent);

    let bad = machine.on_fetch(FetchEvent::Payload(vec![0xff]));
    assert!(matches!(bad, LoopStep::Skip(SkipReason::EncodingError)));

    let second = machine.on_fetch(FetchEvent::Payload(SIGNUP_PAYLOAD.to_vec()));
    match second {
        LoopStep::Deliver(mail) => assert_eq!(mail.to, "a@b.com"),
        _ => panic!("the message after a malformed one must still be processed"),
    }
}

#[test]
fn send_failure_does_not_block_next_message() {
    let mut machine = ConsumerLoop::new("sender@example.com".to_string());

    let first = machine.on_fetch(FetchEvent::Payload(SIGNUP_PAYLOAD.to_vec()));
    assert!(matches!(first, LoopStep::Deliver(_)));
    assert_eq!(
        machine.on_send_result(false),
        DispatchOutcome::Failed(DispatchError::TransportError)
    );
    assert_eq!(machine.phase, Phase::Fetching);

    let second = machine.on_fetch(FetchEvent::Payload(SIGNUP_PAYLOAD.to_vec()));
    match second {
        LoopStep::Deliver(mail) => assert_eq!(mail.to, "a@b.com"),
        _ => panic!("the message after a failed send must still be processed"),
    }
}

#[test]
fn malformed_recipient_is_rejected_not_fatal() {
    let raw = br#"{"timestamp":"t1","action":"signup","text":"New signup","description":"d","parameters":[{"name":"email","value":"not an address"}]}"#.to_vec();
    let mut machine = ConsumerLoop::new("sender@example.com".to_string());
    let step = machine.on_fetch(FetchEvent::Payload(raw));
    assert!(matches!(step, LoopStep::Reject(DispatchError::AddressError)));
    assert_eq!(machine.phase, Phase::Fetching);
}

#[test]
fn broker_events_stop_the_loop() {
    let mut machine = ConsumerLoop::new("sender@example.com".to_string());
    let step = machine.on_fetch(FetchEvent::EndOfStream);
    assert!(matches!(step, LoopStep::Stop(StopCause::EndOfStream)));
    assert_eq!(machine.phase, Phase::Stopped);

    let mut machine = ConsumerLoop::new("sender@example.com".to_string());
    let step = machine.on_fetch(FetchEvent::BrokerError);
    assert!(matches!(step, LoopStep::Stop(StopCause::ConnectionError)));
    assert_eq!(machine.phase, Phase::Stopped);
}
