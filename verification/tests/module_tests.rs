use waybar_module_pomodoro::config::Config;
use waybar_module_pomodoro::consts::MINUTE;
use waybar_module_pomodoro::module::{
    build_status, create_message, extract_socket_number, find_next_instance_number, format_time,
    process_message, session_tooltip,
};
use waybar_module_pomodoro::timer::{CycleType, Timer};

fn create_timer() -> Timer {
    Timer::new(1500, 300, 900, 0)
}

fn get_time(timer: &Timer, cycle: CycleType) -> u16 {
    match cycle {
        CycleType::Work => timer.times[0],
        CycleType::ShortBreak => timer.times[1],
        CycleType::LongBreak => timer.times[2],
    }
}

#[test]
fn test_format_time() {
    assert_eq!(format_time(300, 600), "05:00");
    assert_eq!(format_time(59, 60), "00:01");
    assert_eq!(format_time(0, 120), "02:00");
}

#[test]
fn test_format_time_with_hours() {
    assert_eq!(format_time(0, 3700), "01:01:40");
    assert_eq!(format_time(100, 3700), "01:00:00");
    assert_eq!(format_time(0, 3600), "01:00:00");
    assert_eq!(format_time(1, 3600), "59:59");
}

#[test]
fn test_create_message() {
    let message = "Pomodoro";
    let tooltip = "Tooltip";
    let class = "Class";

    let result = create_message(message.to_string(), tooltip, class);
    let expected =
        r#"{"text": "Pomodoro", "tooltip": "Tooltip", "class": "Class", "alt": "Class"}"#;
    assert!(result == expected);
}

#[test]
fn test_process_message_set_work() {
    let mut timer = create_timer();
    let config = Config::default();
    process_message(&mut timer, r#"{"set-work":{"time":"30"}}"#, &config);
    assert_eq!(get_time(&timer, CycleType::Work), 30 * MINUTE);
}

#[test]
fn test_process_message_set_short() {
    let mut timer = create_timer();
    let config = Config::default();
    process_message(&mut timer, r#"{"set-short":{"time":"3"}}"#, &config);
    assert_eq!(get_time(&timer, CycleType::ShortBreak), 3 * MINUTE);
}

#[test]
fn test_process_message_set_long() {
    let mut timer = create_timer();
    let config = Config::default();
    process_message(&mut timer, r#"{"set-long":{"time":"10"}}"#, &config);
    assert_eq!(get_time(&timer, CycleType::LongBreak), 10 * MINUTE);
}

#[test]
fn test_process_message_start() {
    let mut timer = create_timer();
    // Backward compatibility: a plain string works
    let config = Config::default();
    process_message(&mut timer, "start", &config);
    assert!(timer.running);
}

#[test]
fn test_process_message_stop() {
    let mut timer = create_timer();
    timer.running = true;
    // Backward compatibility: a plain string works
    let config = Config::default();
    process_message(&mut timer, "stop", &config);
    assert!(!timer.running);
}

#[test]
fn test_process_message_set_current() {
    let mut timer = create_timer();
    let config = Config::default();

    // Setting the current cycle's duration overrides it for this cycle only,
    // leaving the base table untouched.
    timer.current_index = 0;
    process_message(&mut timer, r#"{"set-current":{"time":"30"}}"#, &config);
    assert_eq!(timer.current_override, Some(30 * 60));
    assert_eq!(timer.times[0], 1500);
    assert_eq!(timer.get_current_time(), 30 * 60);

    // A relative value adjusts the override
    process_message(&mut timer, r#"{"set-current":{"time":"+5"}}"#, &config);
    assert_eq!(timer.get_current_time(), 35 * 60);

    // A negative relative value adjusts it down
    process_message(&mut timer, r#"{"set-current":{"time":"-2"}}"#, &config);
    assert_eq!(timer.get_current_time(), 33 * 60);
}

#[test]
fn test_process_message_delta_suffix_decreases() {
    let mut timer = create_timer();
    let config = Config::default();

    // The subtract form carries its magnitude; applying it decreases the
    // duration.
    process_message(&mut timer, r#"{"set-work":{"time":"-5"}}"#, &config);
    assert_eq!(timer.times[0], 1500 - 5 * 60);
}

#[test]
fn test_process_message_toggle_and_reset() {
    let mut timer = create_timer();
    let config = Config::default();

    process_message(&mut timer, "toggle", &config);
    assert!(timer.running);
    process_message(&mut timer, "toggle", &config);
    assert!(!timer.running);

    timer.elapsed_time = 100;
    timer.running = true;
    process_message(&mut timer, "reset", &config);
    assert_eq!(timer.elapsed_time, 0);
    assert!(!timer.running);
}

#[test]
fn test_process_message_next_state_notifies() {
    let mut timer = create_timer();
    let config = Config::default();

    let note = process_message(&mut timer, "next-state", &config);
    assert_eq!(timer.current_index, 1);
    assert_eq!(note, Some(CycleType::ShortBreak));

    // Another instance does not notify
    let mut timer = Timer::new(1500, 300, 900, 1);
    let note = process_message(&mut timer, "next-state", &config);
    assert_eq!(timer.current_index, 1);
    assert_eq!(note, None);
}

#[test]
fn test_process_message_invalid_is_dropped() {
    let mut timer = create_timer();
    let before = timer;
    let config = Config::default();

    let note = process_message(&mut timer, "no such command", &config);
    assert_eq!(note, None);
    assert_eq!(timer, before);

    // An absolute value too large for the duration range is dropped whole.
    let note = process_message(&mut timer, r#"{"set-work":{"time":"2000"}}"#, &config);
    assert_eq!(note, None);
    assert_eq!(timer, before);
}

#[test]
fn test_session_tooltip() {
    assert_eq!(session_tooltip(0), "0 pomodoros completed this session");
    assert_eq!(session_tooltip(1), "1 pomodoro completed this session");
    assert_eq!(session_tooltip(8), "8 pomodoros completed this session");
}

#[test]
fn test_build_status() {
    let timer = create_timer();
    let config = Config::default();

    let status = build_status(&timer, &config);
    let expected = format!(
        r#"{{"text": "{} 25:00 {}", "tooltip": "0 pomodoros completed this session", "class": "", "alt": ""}}"#,
        waybar_module_pomodoro::config::PLAY_ICON,
        waybar_module_pomodoro::config::WORK_ICON,
    );
    assert_eq!(status, expected);
}

#[test]
fn test_build_status_no_icons() {
    let timer = create_timer();
    let config = Config {
        no_icons: true,
        no_work_icons: true,
        ..Default::default()
    };

    let status = build_status(&timer, &config);
    let expected =
        r#"{"text": "25:00", "tooltip": "0 pomodoros completed this session", "class": "", "alt": ""}"#;
    assert_eq!(status, expected);
}

#[test]
fn test_find_next_instance_number() {
    // With no sockets the first instance number is zero.
    let none: Vec<String> = Vec::new();
    assert_eq!(find_next_instance_number(&none), 0);

    // With sockets present, the next number is one past the largest taken.
    let taken = vec![
        String::from("/run/user/1000/pomodoro/module0.socket"),
        String::from("/run/user/1000/pomodoro/module2.socket"),
    ];
    assert_eq!(find_next_instance_number(&taken), 3);

    // Sockets without a readable number count as zero.
    let odd = vec![String::from("/run/user/1000/pomodoro/other.socket")];
    assert_eq!(find_next_instance_number(&odd), 1);
}

#[test]
fn test_extract_socket_number() {
    // Just a filename: valid module names
    assert_eq!(extract_socket_number("module0.socket"), 0);
    assert_eq!(extract_socket_number("module1.socket"), 1);
    assert_eq!(extract_socket_number("module123.socket"), 123);

    // Full paths
    assert_eq!(
        extract_socket_number("/run/user/1000/waybar-module-pomodoro/module0.socket"),
        0
    );
    assert_eq!(extract_socket_number("/var/tmp/module42.socket"), 42);

    // Paths containing numbers
    assert_eq!(
        extract_socket_number("/run/user/1000/waybar-module-pomodoro/module5.socket"),
        5
    );
    assert_eq!(
        extract_socket_number("/home/user123/sockets/module7.socket"),
        7
    );

    // Edge cases: all return 0 because they do not match the pattern
    assert_eq!(extract_socket_number("module.socket"), 0); // No number at end
    assert_eq!(extract_socket_number("custom99name88.socket"), 0); // Not "module" prefix
    assert_eq!(extract_socket_number("99module.socket"), 0); // Wrong pattern
    assert_eq!(extract_socket_number("/path/to/nowhere"), 0); // No extension
    assert_eq!(extract_socket_number(""), 0); // Empty string

    // Filenames that do not match the pattern
    assert_eq!(extract_socket_number("socket1.socket"), 0); // Wrong prefix
    assert_eq!(extract_socket_number("my-socket-15.socket"), 0); // Wrong prefix
    assert_eq!(extract_socket_number("test_socket_999.socket"), 0); // Wrong prefix
    assert_eq!(extract_socket_number("modules123.socket"), 0); // Wrong prefix (plural)
    assert_eq!(extract_socket_number("module_123.socket"), 0); // Has underscore
}
