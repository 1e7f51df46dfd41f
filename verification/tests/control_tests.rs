use waybar_module_pomodoro::control_cli::{parse_time_value, Operation, TimeValue};
use waybar_module_pomodoro::message;
use waybar_module_pomodoro::message::Message;

#[test]
fn test_parse_time_value() {
    assert_eq!(parse_time_value("25").unwrap(), TimeValue::Absolute(25));
    assert_eq!(parse_time_value("5+").unwrap(), TimeValue::Add(5));
    assert_eq!(parse_time_value("3-").unwrap(), TimeValue::Subtract(3));

    assert!(parse_time_value("").is_err());
    assert!(parse_time_value("abc").is_err());
    assert!(parse_time_value("+").is_err());
    assert!(parse_time_value("-5").is_err());
    assert!(parse_time_value("70000").is_err());
}

#[test]
fn test_operation_to_message() {
    assert_eq!(Operation::Start.to_message(), Message::Start);
    assert_eq!(Operation::Stop.to_message(), Message::Stop);
    assert_eq!(Operation::Toggle.to_message(), Message::Toggle);
    assert_eq!(Operation::Reset.to_message(), Message::Reset);
    assert_eq!(Operation::NextState.to_message(), Message::NextState);

    let op = Operation::SetWork {
        value: TimeValue::Absolute(25),
    };
    assert_eq!(
        op.to_message(),
        Message::SetWork {
            time: message::TimeValue::Absolute(25)
        }
    );

    let op = Operation::SetShort {
        value: TimeValue::Add(2),
    };
    assert_eq!(
        op.to_message(),
        Message::SetShort {
            time: message::TimeValue::Add(2)
        }
    );

    let op = Operation::SetCurrent {
        value: TimeValue::Subtract(3),
    };
    assert_eq!(
        op.to_message(),
        Message::SetCurrent {
            time: message::TimeValue::Subtract(3)
        }
    );
}

#[test]
fn test_operation_round_trip_over_wire() {
    // What the control tool sends is what the daemon's decoder reads back.
    let op = Operation::SetLong {
        value: TimeValue::Subtract(2),
    };
    let sent = op.to_message().encode();
    assert_eq!(sent, r#"{"set-long":{"time":"-2"}}"#);
    assert_eq!(
        Message::decode(&sent).unwrap(),
        Message::SetLong {
            time: message::TimeValue::Subtract(2)
        }
    );
}
