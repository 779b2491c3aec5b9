use notify_relay::codec::{decode, encode, DecodeError};
use notify_relay::payload::{MessagePayload, Parameter};

fn sample_event() -> MessagePayload {
    MessagePayload {
        timestamp: "t1".to_string(),
        action: "signup".to_string(),
        text: "New signup".to_string(),
        description: "d".to_string(),
        parameters: vec![Parameter {
            name: "email".to_string(),
            description: None,
            required: false,
            value: "a@b.com".to_string(),
        }],
    }
}

fn assert_same_payload(a: &MessagePayload, b: &MessagePayload) {
    assert_eq!(a.timestamp, b.timestamp);
    assert_eq!(a.action, b.action);
    assert_eq!(a.text, b.text);
    assert_eq!(a.description, b.description);
    assert_eq!(a.parameters.len(), b.parameters.len());
    for (p, q) in a.parameters.iter().zip(b.parameters.iter()) {
        assert_eq!(p.name, q.name);
        assert_eq!(p.description, q.description);
        assert_eq!(p.required, q.required);
        assert_eq!(p.value, q.value);
    }
}

#[test]
fn decode_valid_payload() {
    let raw = br#"{"timestamp":"t1","action":"signup","text":"New signup","description":"d","parameters":[{"name":"email","value":"a@b.com"}]}"#.to_vec();
    let event = decode(&raw).unwrap();
    assert_eq!(event.timestamp, "t1");
    assert_eq!(event.action, "signup");
    assert_eq!(event.text, "New signup");
    assert_eq!(event.description, "d");
    assert_eq!(event.parameters.len(), 1);
    assert_eq!(event.parameters[0].name, "email");
    assert_eq!(event.parameters[0].description, None);
    assert!(!event.parameters[0].required);
    assert_eq!(event.parameters[0].value, "a@b.com");
}

#[test]
fn decode_full_parameter() {
    let raw = br#"{"timestamp":"t","action":"a","text":"x","description":"d","parameters":[{"name":"email","description":"where to write","required":true,"value":"a@b.com"}]}"#.to_vec();
    let event = decode(&raw).unwrap();
    assert_eq!(
        event.parameters[0].description,
        Some("where to write".to_string())
    );
    assert!(event.parameters[0].required);
}

#[test]
fn decode_empty_parameters() {
    let raw = br#"{"timestamp":"t1","action":"signup","text":"New signup","description":"d","parameters":[]}"#.to_vec();
    let event = decode(&raw).unwrap();
    assert!(event.parameters.is_empty());
}

#[test]
fn decode_invalid_utf8_is_encoding_error() {
    let raw = vec![0xff, 0xfe, b'{'];
    assert_eq!(decode(&raw).unwrap_err(), DecodeError::EncodingError);
}

#[test]
fn decode_malformed_record_is_schema_error() {
    assert_eq!(
        decode(&b"{}".to_vec()).unwrap_err(),
        DecodeError::SchemaError
    );
    assert_eq!(
        decode(&br#"{"timestamp":"t1"}"#.to_vec()).unwrap_err(),
        DecodeError::SchemaError
    );
    assert_eq!(decode(&Vec::new()).unwrap_err(), DecodeError::SchemaError);
}

#[test]
fn encode_exact_text() {
    let bytes = encode(&sample_event());
    assert_eq!(
        String::from_utf8(bytes).unwrap(),
        r#"{"timestamp":"t1","action":"signup","text":"New signup","description":"d","parameters":[{"name":"email","required":false,"value":"a@b.com"}]}"#
    );
}

#[test]
fn round_trip_preserves_fields() {
    let event = sample_event();
    let again = decode(&encode(&event)).unwrap();
    assert_same_payload(&event, &again);
}

#[test]
fn round_trip_with_escapes_and_many_parameters() {
    let event = MessagePayload {
        timestamp: "2024-01-01T00:00:00Z".to_string(),
        action: "say \"hi\"".to_string(),
        text: "line one\nline two\ttabbed".to_string(),
        description: "back\\slash and \r return".to_string(),
        parameters: vec![
            Parameter {
                name: "email".to_string(),
                description: Some("first \"quoted\"".to_string()),
                required: true,
                value: "a@b.com".to_string(),
            },
            Parameter {
                name: "note".to_string(),
                description: None,
                required: false,
                value: "with, commas: and {braces}".to_string(),
            },
        ],
    };
    let again = decode(&encode(&event)).unwrap();
    assert_same_payload(&event, &again);
}

#[test]
fn decode_rejects_unescaped_control_character() {
    let raw = b"{\"timestamp\":\"t\x01\",\"action\":\"a\",\"text\":\"x\",\"description\":\"d\",\"parameters\":[]}".to_vec();
    assert_eq!(decode(&raw).unwrap_err(), DecodeError::SchemaError);
}

#[test]
fn decode_rejects_trailing_text() {
    let raw = br#"{"timestamp":"t","action":"a","text":"x","description":"d","parameters":[]} "#.to_vec();
    assert_eq!(decode(&raw).unwrap_err(), DecodeError::SchemaError);
}

#[test]
fn get_parameter_value_uses_first_match() {
    let event = MessagePayload {
        timestamp: "t".to_string(),
        action: "a".to_string(),
        text: "x".to_string(),
        description: "d".to_string(),
        parameters: vec![
            Parameter {
                name: "email".to_string(),
                description: None,
                required: false,
                value: "first@b.com".to_string(),
            },
            Parameter {
                name: "email".to_string(),
                description: None,
                required: false,
                value: "second@b.com".to_string(),
            },
        ],
    };
    assert_eq!(
        event.get_parameter_value("email"),
        Some("first@b.com".to_string())
    );
    assert_eq!(event.get_parameter_value("phone"), None);
}

#[test]
fn encode_writes_description_and_required() {
    let event = MessagePayload {
        timestamp: "t".to_string(),
        action: "a".to_string(),
        text: "x".to_string(),
        description: "d".to_string(),
        parameters: vec![Parameter {
            name: "email".to_string(),
            description: Some("where".to_string()),
            required: true,
            value: "a@b.com".to_string(),
        }],
    };
    assert_eq!(
        String::from_utf8(encode(&event)).unwrap(),
        r#"{"timestamp":"t","action":"a","text":"x","description":"d","parameters":[{"name":"email","description":"where","required":true,"value":"a@b.com"}]}"#
    );
}

#[test]
fn encode_separates_parameters_with_commas() {
    let event = MessagePayload {
        timestamp: "t".to_string(),
        action: "a".to_string(),
        text: "x".to_string(),
        description: "d".to_string(),
        parameters: vec![
            Parameter {
                name: "email".to_string(),
                description: None,
                required: false,
                value: "a@b.com".to_string(),
            },
            Parameter {
                name: "plan".to_string(),
                description: None,
                required: false,
                value: "pro".to_string(),
            },
        ],
    };
    let text = String::from_utf8(encode(&event)).unwrap();
    assert_eq!(
        text,
        r#"{"timestamp":"t","action":"a","text":"x","description":"d","parameters":[{"name":"email","required":false,"value":"a@b.com"},{"name":"plan","required":false,"value":"pro"}]}"#
    );
    let again = decode(&text.into_bytes()).unwrap();
    assert_eq!(again.parameters.len(), 2);
    assert_eq!(again.parameters[1].name, "plan");
    assert_eq!(again.parameters[1].value, "pro");
}
