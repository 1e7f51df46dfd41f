use std::str::FromStr;

use waybar_module_pomodoro::message::{Message, TimeValue};

#[test]
fn test_time_value_from_str() {
    // Absolute values
    assert_eq!(TimeValue::from_str("25").unwrap(), TimeValue::Absolute(25));
    assert_eq!(TimeValue::from_str("0").unwrap(), TimeValue::Absolute(0));
    assert_eq!(TimeValue::from_str("999").unwrap(), TimeValue::Absolute(999));

    // Prefix notation
    assert_eq!(TimeValue::from_str("+5").unwrap(), TimeValue::Add(5));
    assert_eq!(TimeValue::from_str("-3").unwrap(), TimeValue::Subtract(3));

    // Suffix notation
    assert_eq!(TimeValue::from_str("5+").unwrap(), TimeValue::Add(5));
    assert_eq!(TimeValue::from_str("3-").unwrap(), TimeValue::Subtract(3));

    // Errors
    assert!(TimeValue::from_str("").is_err());
    assert!(TimeValue::from_str("abc").is_err());
    assert!(TimeValue::from_str("+").is_err());
    assert!(TimeValue::from_str("-").is_err());
    assert!(TimeValue::from_str("+-5").is_err());
    assert!(TimeValue::from_str("-+5").is_err());
    assert!(TimeValue::from_str("+abc").is_err());
    assert!(TimeValue::from_str("5+-").is_err());
    assert!(TimeValue::from_str("+5+").is_err());
    assert!(TimeValue::from_str("-5-").is_err());
    assert!(TimeValue::from_str("++5").is_err());
    assert!(TimeValue::from_str("--5").is_err());
}

#[test]
fn test_encode_set_work() {
    let message = Message::SetWork {
        time: TimeValue::Absolute(25),
    };
    assert_eq!(message.encode(), r#"{"set-work":{"time":"25"}}"#);
}

#[test]
fn test_encode_delta() {
    let message = Message::SetWork {
        time: TimeValue::Add(5),
    };
    assert_eq!(message.encode(), r#"{"set-work":{"time":"+5"}}"#);

    let message = Message::SetWork {
        time: TimeValue::Subtract(5),
    };
    assert_eq!(message.encode(), r#"{"set-work":{"time":"-5"}}"#);
}

#[test]
fn test_decode_set_work() {
    let input = r#"{"set-work":{"time":"25"}}"#;
    let result = Message::decode(input);
    assert!(result.is_ok());
    let message = result.unwrap();
    assert_eq!(
        message,
        Message::SetWork {
            time: TimeValue::Absolute(25)
        }
    );
}

#[test]
fn test_decode_positive_delta() {
    let input = r#"{"set-work":{"time":"+5"}}"#;
    let result = Message::decode(input);
    assert!(result.is_ok());
    let message = result.unwrap();
    assert_eq!(
        message,
        Message::SetWork {
            time: TimeValue::Add(5)
        }
    );
}

#[test]
fn test_decode_negative_delta() {
    let input = r#"{"set-work":{"time":"-5"}}"#;
    let result = Message::decode(input);
    assert!(result.is_ok());
    let message = result.unwrap();
    assert_eq!(
        message,
        Message::SetWork {
            time: TimeValue::Subtract(5)
        }
    );
}

#[test]
fn test_decode_backward_compat() {
    // Plain strings are accepted for simple commands
    assert_eq!(Message::decode("start").unwrap(), Message::Start);
    assert_eq!(Message::decode("stop").unwrap(), Message::Stop);
    assert_eq!(Message::decode("toggle").unwrap(), Message::Toggle);
    assert_eq!(Message::decode("reset").unwrap(), Message::Reset);
    assert_eq!(Message::decode("next-state").unwrap(), Message::NextState);

    // With trailing whitespace (like from echo)
    assert_eq!(Message::decode("start\n").unwrap(), Message::Start);
    assert_eq!(Message::decode("stop\n").unwrap(), Message::Stop);
    assert_eq!(Message::decode("toggle\n").unwrap(), Message::Toggle);
    assert_eq!(Message::decode("reset\n").unwrap(), Message::Reset);
    assert_eq!(Message::decode("next-state\n").unwrap(), Message::NextState);
    assert_eq!(Message::decode("  start  \n").unwrap(), Message::Start);

    // Invalid commands still fail
    assert!(Message::decode("invalid").is_err());
    assert!(Message::decode("invalid\n").is_err());
}

#[test]
fn test_decode_failure_invalid_json() {
    let input = "not json";
    let result = Message::decode(input);
    assert!(result.is_err());
}

#[test]
fn test_decode_failure_empty() {
    let input = "";
    let result = Message::decode(input);
    assert!(result.is_err());
}

#[test]
fn test_encode_simple_commands() {
    assert_eq!(Message::Start.encode(), r#""start""#);
    assert_eq!(Message::Stop.encode(), r#""stop""#);
    assert_eq!(Message::Toggle.encode(), r#""toggle""#);
    assert_eq!(Message::Reset.encode(), r#""reset""#);
    assert_eq!(Message::NextState.encode(), r#""next-state""#);
}

#[test]
fn test_decode_string_values_prefix() {
    // Prefix notation (+5, -5)
    let input = r#"{"set-work":{"time":"+5"}}"#;
    let result = Message::decode(input);
    assert!(result.is_ok());
    assert_eq!(
        result.unwrap(),
        Message::SetWork {
            time: TimeValue::Add(5)
        }
    );

    let input = r#"{"set-work":{"time":"-3"}}"#;
    let result = Message::decode(input);
    assert!(result.is_ok());
    assert_eq!(
        result.unwrap(),
        Message::SetWork {
            time: TimeValue::Subtract(3)
        }
    );

    let input = r#"{"set-current":{"time":"+10"}}"#;
    let result = Message::decode(input);
    assert!(result.is_ok());
    assert_eq!(
        result.unwrap(),
        Message::SetCurrent {
            time: TimeValue::Add(10)
        }
    );
}

#[test]
fn test_decode_string_values_suffix() {
    // Suffix notation (5+, 3-)
    let input = r#"{"set-work":{"time":"5+"}}"#;
    let result = Message::decode(input);
    assert!(result.is_ok());
    assert_eq!(
        result.unwrap(),
        Message::SetWork {
            time: TimeValue::Add(5)
        }
    );

    let input = r#"{"set-short":{"time":"3-"}}"#;
    let result = Message::decode(input);
    assert!(result.is_ok());
    assert_eq!(
        result.unwrap(),
        Message::SetShort {
            time: TimeValue::Subtract(3)
        }
    );
}

#[test]
fn test_decode_string_values_absolute() {
    // Plain number strings
    let input = r#"{"set-work":{"time":"25"}}"#;
    let result = Message::decode(input);
    assert!(result.is_ok());
    assert_eq!(
        result.unwrap(),
        Message::SetWork {
            time: TimeValue::Absolute(25)
        }
    );

    let input = r#"{"set-long":{"time":"15"}}"#;
    let result = Message::decode(input);
    assert!(result.is_ok());
    assert_eq!(
        result.unwrap(),
        Message::SetLong {
            time: TimeValue::Absolute(15)
        }
    );
}

#[test]
fn test_serde_roundtrip() {
    let messages = vec![
        Message::Start,
        Message::Stop,
        Message::Toggle,
        Message::Reset,
        Message::NextState,
        Message::SetWork {
            time: TimeValue::Absolute(25),
        },
        Message::SetShort {
            time: TimeValue::Absolute(5),
        },
        Message::SetLong {
            time: TimeValue::Absolute(15),
        },
        Message::SetWork {
            time: TimeValue::Add(5),
        },
        Message::SetWork {
            time: TimeValue::Subtract(5),
        },
        Message::SetCurrent {
            time: TimeValue::Absolute(30),
        },
        Message::SetCurrent {
            time: TimeValue::Add(5),
        },
    ];

    for msg in messages {
        let encoded = msg.encode();
        let decoded = Message::decode(&encoded).unwrap();
        assert_eq!(msg, decoded);
    }
}

#[test]
fn test_decode_quoted_keyword() {
    assert_eq!(Message::decode(r#""start""#).unwrap(), Message::Start);
    assert_eq!(Message::decode(r#" "toggle" "#).unwrap(), Message::Toggle);
    assert!(Message::decode(r#""started""#).is_err());
}

#[test]
fn test_decode_value_out_of_range() {
    // A value past sixteen bits does not parse.
    let input = r#"{"set-work":{"time":"70000"}}"#;
    assert!(Message::decode(input).is_err());

    // The largest sixteen-bit value still does.
    let input = r#"{"set-work":{"time":"65535"}}"#;
    assert_eq!(
        Message::decode(input).unwrap(),
        Message::SetWork {
            time: TimeValue::Absolute(65535)
        }
    );
}
