use waybar_module_pomodoro::cli::ModuleCli;
use waybar_module_pomodoro::config::{Config, BREAK_ICON, PAUSE_ICON, PLAY_ICON, WORK_ICON};
use waybar_module_pomodoro::consts::{LONG_BREAK_TIME, MINUTE, SHORT_BREAK_TIME, WORK_TIME};

fn bare_cli() -> ModuleCli {
    ModuleCli {
        work: None,
        shortbreak: None,
        longbreak: None,
        play: None,
        pause: None,
        work_icon: None,
        break_icon: None,
        work_sound: None,
        break_sound: None,
        no_icons: false,
        no_work_icons: false,
        autow: false,
        autob: false,
        persist: false,
        with_notifications: false,
        log: None,
        instance: None,
    }
}

#[test]
fn test_get_play_pause_icon_running() {
    let config = Config::default();
    let icon = config.get_play_pause_icon(true);

    assert_eq!(icon, PAUSE_ICON);
}

#[test]
fn test_get_play_pause_icon_not_running() {
    let config = Config::default();
    let icon = config.get_play_pause_icon(false);

    assert_eq!(icon, PLAY_ICON);
}

#[test]
fn test_get_play_pause_icon_no_icons() {
    let config = Config {
        no_icons: true,
        ..Default::default()
    };
    let icon = config.get_play_pause_icon(true);

    assert_eq!(icon, "");
}

#[test]
fn test_get_cycle_icon() {
    let config = Config::default();
    assert_eq!(config.get_cycle_icon(false), WORK_ICON);
    assert_eq!(config.get_cycle_icon(true), BREAK_ICON);

    let config = Config {
        no_work_icons: true,
        ..Default::default()
    };
    assert_eq!(config.get_cycle_icon(false), "");
}

#[test]
fn test_config_from_module_cli_defaults() {
    let cli = bare_cli();
    let config = Config::from_module_cli(&cli, String::from("waybar-module-pomodoro"));

    assert_eq!(config.work_time, WORK_TIME);
    assert_eq!(config.short_break, SHORT_BREAK_TIME);
    assert_eq!(config.long_break, LONG_BREAK_TIME);
    assert!(!config.no_icons);
    assert!(!config.no_work_icons);
    assert_eq!(config.play_icon, PLAY_ICON.to_string());
    assert_eq!(config.pause_icon, PAUSE_ICON.to_string());
    assert_eq!(config.work_icon, WORK_ICON.to_string());
    assert_eq!(config.break_icon, BREAK_ICON.to_string());
    assert!(!config.autow);
    assert!(!config.autob);
    assert!(!config.persist);
}

#[test]
fn test_config_from_module_cli_with_options() {
    let cli = ModuleCli {
        work: Some(30),
        shortbreak: Some(10),
        autow: true,
        persist: true,
        ..bare_cli()
    };
    let config = Config::from_module_cli(&cli, String::from("waybar-module-pomodoro"));

    assert_eq!(config.work_time, 30 * MINUTE);
    assert_eq!(config.short_break, 10 * MINUTE);
    assert_eq!(config.long_break, LONG_BREAK_TIME);
    assert!(config.autow);
    assert!(!config.autob);
    assert!(config.persist);
}
