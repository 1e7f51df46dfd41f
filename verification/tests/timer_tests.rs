use waybar_module_pomodoro::config::Config;
use waybar_module_pomodoro::consts::{
    LONG_BREAK_TIME, MAX_ITERATIONS, SHORT_BREAK_TIME, SLEEP_TIME, WORK_TIME,
};
use waybar_module_pomodoro::timer::{CycleType, Timer};

fn create_timer() -> Timer {
    Timer::new(WORK_TIME, SHORT_BREAK_TIME, LONG_BREAK_TIME, 0)
}

#[test]
fn test_new_timer() {
    let timer = create_timer();

    assert_eq!(timer.current_index, 0);
    assert_eq!(timer.elapsed_millis, 0);
    assert_eq!(timer.elapsed_time, 0);
    assert_eq!(timer.times, [WORK_TIME, SHORT_BREAK_TIME, LONG_BREAK_TIME]);
    assert_eq!(timer.iterations, 0);
    assert_eq!(timer.session_completed, 0);
    assert!(!timer.running);
}

#[test]
fn test_reset_timer() {
    let mut timer = create_timer();
    timer.current_index = 2;
    timer.elapsed_millis = 999;
    timer.elapsed_time = WORK_TIME - 1;
    timer.iterations = 4;
    timer.session_completed = 3;
    timer.running = true;

    timer.reset();

    assert_eq!(timer.current_index, 0);
    assert_eq!(timer.elapsed_millis, 0);
    assert_eq!(timer.elapsed_time, 0);
    assert_eq!(timer.iterations, 0);
    assert!(!timer.running);
}

#[test]
fn test_is_break() {
    let mut timer = create_timer();

    assert!(!timer.is_break());

    timer.current_index = 1;
    assert!(timer.is_break());
}

#[test]
fn test_set_time() {
    let mut timer = create_timer();

    timer.set_time(CycleType::Work, 30);
    assert_eq!(timer.times[0], 30 * 60);

    timer.set_time(CycleType::ShortBreak, 10);
    assert_eq!(timer.times[1], 10 * 60);

    timer.set_time(CycleType::LongBreak, 20);
    assert_eq!(timer.times[2], 20 * 60);
}

#[test]
fn test_get_class() {
    let mut timer = create_timer();

    assert_eq!(timer.get_class(), "");

    timer.running = true;
    timer.elapsed_millis = 1;
    assert_eq!(timer.get_class(), "work");

    timer.current_index = 1;
    assert_eq!(timer.get_class(), "break");

    timer.running = false;
    assert_eq!(timer.get_class(), "pause");
}

#[test]
fn test_increment_elapsed_time() {
    let mut timer = create_timer();

    assert_eq!(timer.elapsed_millis, 0);
    assert_eq!(timer.elapsed_time, 0);

    timer.increment_time();
    assert_eq!(timer.elapsed_millis, SLEEP_TIME);
    assert_eq!(timer.elapsed_time, 0);

    for _ in 1..SLEEP_TIME {
        timer.increment_time();
    }
    assert_eq!(timer.elapsed_millis, 0);
    assert_eq!(timer.elapsed_time, 10);
}

#[test]
fn test_next_state() {
    let mut timer = create_timer();
    let config = Config::default();

    // Transitioning from work to short break
    assert_eq!(timer.current_index, 0);
    timer.next_state(&config);
    assert_eq!(timer.current_index, 1);
    assert_eq!(timer.elapsed_time, 0);

    // Transitioning from short break to work
    timer.next_state(&config);
    assert_eq!(timer.current_index, 0);
    assert_eq!(timer.iterations, 1);

    // Set up for the long break transition
    timer.iterations = MAX_ITERATIONS - 1;
    timer.next_state(&config);
    assert_eq!(timer.current_index, 2);

    // Transitioning from the long break back to work
    timer.next_state(&config);
    assert_eq!(timer.current_index, 0);
    assert_eq!(timer.iterations, 0);
    assert_eq!(timer.session_completed, 1);
}

#[test]
fn test_set_time_resets_progress() {
    let mut timer = create_timer();
    timer.current_index = 1;
    timer.elapsed_time = 42;
    timer.elapsed_millis = 500;
    timer.iterations = 2;
    timer.running = true;
    timer.current_override = Some(120);

    timer.set_time(CycleType::ShortBreak, 7);

    assert_eq!(timer.current_index, 0);
    assert_eq!(timer.elapsed_time, 0);
    assert_eq!(timer.elapsed_millis, 0);
    assert_eq!(timer.iterations, 0);
    assert!(!timer.running);
    assert_eq!(timer.current_override, None);
    assert_eq!(timer.times[1], 7 * 60);
}

#[test]
fn test_add_delta_time_adjusts_duration() {
    let mut timer = create_timer();

    timer.add_delta_time(CycleType::Work, 5);
    assert_eq!(timer.times[0], WORK_TIME + 5 * 60);

    timer.add_delta_time(CycleType::Work, -5);
    assert_eq!(timer.times[0], WORK_TIME);
}

#[test]
fn test_add_delta_time_clamps_at_zero() {
    let mut timer = create_timer();

    // A delta far below the configured duration floors it at zero seconds.
    timer.add_delta_time(CycleType::LongBreak, -30000);
    assert_eq!(timer.times[2], 0);
}

#[test]
fn test_add_delta_time_fast_forwards_active_cycle() {
    let mut timer = create_timer();
    timer.elapsed_time = 120;
    timer.elapsed_millis = 300;

    // Shrinking the active work cycle below the elapsed time pulls the
    // elapsed time down to the new duration so the next tick transitions.
    timer.add_delta_time(CycleType::Work, -25);
    assert_eq!(timer.times[0], 0);
    assert_eq!(timer.elapsed_time, 0);
    assert_eq!(timer.elapsed_millis, 0);
}

#[test]
fn test_set_current_duration() {
    let mut timer = create_timer();
    timer.elapsed_time = 20 * 60;

    timer.set_current_duration(10);

    // The override replaces the effective duration without touching the base
    // table, and elapsed time is clamped down to it.
    assert_eq!(timer.current_override, Some(10 * 60));
    assert_eq!(timer.times[0], WORK_TIME);
    assert_eq!(timer.get_current_time(), 10 * 60);
    assert_eq!(timer.elapsed_time, 10 * 60);
    assert_eq!(timer.elapsed_millis, 0);
}

#[test]
fn test_add_current_delta_time() {
    let mut timer = create_timer();

    timer.add_current_delta_time(5);
    assert_eq!(timer.current_override, Some(WORK_TIME + 5 * 60));
    assert_eq!(timer.times[0], WORK_TIME);

    timer.add_current_delta_time(-30);
    assert_eq!(timer.current_override, Some(0));
}

#[test]
fn test_update_state_only_fires_when_complete() {
    let mut timer = create_timer();
    let config = Config::default();
    timer.elapsed_time = WORK_TIME - 1;

    let note = timer.update_state(&config);
    assert_eq!(timer.current_index, 0);
    assert_eq!(note, None);

    timer.elapsed_time = WORK_TIME;
    let note = timer.update_state(&config);
    assert_eq!(timer.current_index, 1);
    assert_eq!(note, Some(CycleType::ShortBreak));
    assert_eq!(timer.elapsed_time, 0);
    assert!(!timer.running);
}

#[test]
fn test_update_state_clears_override() {
    let mut timer = create_timer();
    let config = Config::default();
    timer.current_override = Some(60);
    timer.elapsed_time = 60;

    timer.update_state(&config);

    assert_eq!(timer.current_override, None);
    assert_eq!(timer.current_index, 1);
}

#[test]
fn test_update_state_auto_continue() {
    let mut timer = create_timer();
    let config = Config {
        autob: true,
        ..Default::default()
    };
    timer.running = true;
    timer.elapsed_time = WORK_TIME;

    timer.update_state(&config);

    // The new state is a break and auto-continue-break keeps it running.
    assert_eq!(timer.current_index, 1);
    assert!(timer.running);
}

#[test]
fn test_full_cycle_progression() {
    // A full tick-cycle with one-second durations: work, short break, and
    // back to work counts one iteration.
    let mut timer = Timer::new(1, 1, 1, 0);
    let config = Config {
        autow: true,
        autob: true,
        ..Default::default()
    };
    timer.running = true;

    for _ in 0..10 {
        timer.increment_time();
    }
    timer.update_state(&config);
    assert_eq!(timer.current_index, 1);
    assert_eq!(timer.iterations, 0);

    for _ in 0..10 {
        timer.increment_time();
    }
    timer.update_state(&config);
    assert_eq!(timer.current_index, 0);
    assert_eq!(timer.iterations, 1);

    // At one work cycle short of the long break, completing work moves to
    // the long break with the iteration counter full.
    timer.iterations = MAX_ITERATIONS - 1;
    for _ in 0..10 {
        timer.increment_time();
    }
    timer.update_state(&config);
    assert_eq!(timer.current_index, 2);
    assert_eq!(timer.iterations, MAX_ITERATIONS);

    // Completing the long break returns to work, clears the iterations, and
    // counts one completed session.
    for _ in 0..10 {
        timer.increment_time();
    }
    timer.update_state(&config);
    assert_eq!(timer.current_index, 0);
    assert_eq!(timer.iterations, 0);
    assert_eq!(timer.session_completed, 1);
}

#[test]
fn test_next_state_twice_matches_ticking() {
    // Skipping twice from work equals ticking through work and the short
    // break to completion.
    let config = Config {
        autow: true,
        autob: true,
        ..Default::default()
    };

    let mut skipped = Timer::new(3, 2, 5, 0);
    skipped.next_state(&config);
    skipped.next_state(&config);

    let mut ticked = Timer::new(3, 2, 5, 0);
    ticked.running = true;
    for _ in 0..30 {
        ticked.increment_time();
    }
    ticked.update_state(&config);
    for _ in 0..20 {
        ticked.increment_time();
    }
    ticked.update_state(&config);

    assert_eq!(skipped, ticked);
}

#[test]
fn test_check_wf() {
    let mut timer = create_timer();
    assert!(timer.check_wf());

    timer.current_index = 5;
    assert!(!timer.check_wf());

    let mut timer = create_timer();
    timer.elapsed_time = WORK_TIME + 1;
    assert!(!timer.check_wf());
}
