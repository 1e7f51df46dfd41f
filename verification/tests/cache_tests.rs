use waybar_module_pomodoro::cache::{match_timers, restore, store};
use waybar_module_pomodoro::config::Config;
use waybar_module_pomodoro::timer::Timer;

fn create_timer(work_time: Option<u16>, short_break: Option<u16>, long_break: Option<u16>) -> Timer {
    Timer {
        current_index: 1,
        elapsed_millis: 950,
        elapsed_time: 300,
        times: [
            work_time.unwrap_or(25),
            short_break.unwrap_or(5),
            long_break.unwrap_or(15),
        ],
        iterations: 2,
        session_completed: 8,
        running: false,
        socket_nr: 0,
        current_override: None,
    }
}

#[test]
fn test_store_and_restore() {
    // Create a timer with running=true and store it
    let mut timer = create_timer(None, None, None);
    timer.running = true;

    let stored = store(&timer);

    // A timer with different values to restore into
    let mut restored_timer = create_timer(Some(30), Some(10), Some(20));

    // Config that matches the stored timer
    let config = Config {
        work_time: 25,
        short_break: 5,
        long_break: 15,
        ..Default::default()
    };

    restore(&mut restored_timer, &config, &stored);

    // Every persisted field was restored
    assert_eq!(restored_timer.current_index, timer.current_index);
    assert_eq!(restored_timer.elapsed_millis, timer.elapsed_millis);
    assert_eq!(restored_timer.elapsed_time, timer.elapsed_time);
    assert_eq!(restored_timer.times, timer.times);
    assert_eq!(restored_timer.iterations, timer.iterations);
    assert_eq!(restored_timer.session_completed, timer.session_completed);
    assert_eq!(restored_timer.running, timer.running);
}

#[test]
fn test_store_and_restore_mismatched_config() {
    let timer = create_timer(Some(25), Some(5), Some(15));
    let stored = store(&timer);

    // A timer with different times to restore into
    let mut restored_timer = create_timer(Some(30), Some(10), Some(20));
    let original_times = restored_timer.times;

    // Config with mismatched times
    let config = Config {
        work_time: 30,
        short_break: 10,
        long_break: 20,
        ..Default::default()
    };

    restore(&mut restored_timer, &config, &stored);

    // Times do not match, so the timer stays unchanged
    assert_eq!(restored_timer.times, original_times);
}

#[test]
fn test_persist_running_state() {
    let mut timer = create_timer(None, None, None);
    timer.running = true;
    let stored = store(&timer);

    let mut restored_timer = create_timer(None, None, None);
    assert!(
        !restored_timer.running,
        "New timer should not be running by default"
    );

    let config = Config {
        work_time: 25,
        short_break: 5,
        long_break: 15,
        ..Default::default()
    };

    restore(&mut restored_timer, &config, &stored);

    assert!(
        restored_timer.running,
        "Running state should be restored to true"
    );
}

#[test]
fn test_match_timers_match() {
    let config = Config {
        work_time: 25,
        short_break: 5,
        long_break: 15,
        ..Default::default()
    };

    let times = [25, 5, 15];

    assert!(match_timers(&config, &times));
}

#[test]
fn test_match_timers_mismatch() {
    let config = Config {
        work_time: 30,
        short_break: 10,
        long_break: 20,
        ..Default::default()
    };

    let times = [25, 5, 15];

    assert!(!match_timers(&config, &times));
}

#[test]
fn test_store_format() {
    let timer = Timer::new(1500, 300, 900, 0);
    let expected = r#"{"current_index":0,"elapsed_millis":0,"elapsed_time":0,"times":[1500,300,900],"iterations":0,"session_completed":0,"running":false,"socket_nr":0}"#;
    assert_eq!(store(&timer), expected);
}

#[test]
fn test_restore_rejects_garbage() {
    let mut timer = Timer::new(1500, 300, 900, 0);
    let before = timer;
    let config = Config {
        work_time: 1500,
        short_break: 300,
        long_break: 900,
        ..Default::default()
    };

    assert!(!restore(&mut timer, &config, "not a frame"));
    assert_eq!(timer, before);

    assert!(!restore(&mut timer, &config, ""));
    assert_eq!(timer, before);
}

#[test]
fn test_restore_rejects_bad_index() {
    // A frame whose cycle index is out of range never applies.
    let mut stored_timer = Timer::new(1500, 300, 900, 0);
    stored_timer.current_index = 7;
    let stored = store(&stored_timer);

    let mut timer = Timer::new(1500, 300, 900, 0);
    let before = timer;
    let config = Config {
        work_time: 1500,
        short_break: 300,
        long_break: 900,
        ..Default::default()
    };

    assert!(!restore(&mut timer, &config, &stored));
    assert_eq!(timer, before);
}

#[test]
fn test_restore_keeps_socket_and_override() {
    let stored_timer = Timer::new(1500, 300, 900, 9);
    let stored = store(&stored_timer);

    let mut timer = Timer::new(1500, 300, 900, 3);
    timer.current_override = Some(42);
    let config = Config {
        work_time: 1500,
        short_break: 300,
        long_break: 900,
        ..Default::default()
    };

    assert!(restore(&mut timer, &config, &stored));
    assert_eq!(timer.socket_nr, 3);
    assert_eq!(timer.current_override, Some(42));
}
