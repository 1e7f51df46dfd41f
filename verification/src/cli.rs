use vstd::prelude::*;

use crate::config::{Config, BREAK_ICON, PAUSE_ICON, PLAY_ICON, WORK_ICON};
use crate::consts::{LONG_BREAK_TIME, MINUTE, SHORT_BREAK_TIME, WORK_TIME};

verus! {

/// Where the daemon writes its log: the system journal, or a file.
#[derive(Debug)]
pub enum LogOption {
    Journald,
    File { path: String },
}

/// The daemon's parsed command line. Durations arrive in minutes; icon and
/// sound options override the built-in defaults.
#[derive(Debug)]
pub struct ModuleCli {
    pub work: Option<u16>,
    pub shortbreak: Option<u16>,
    pub longbreak: Option<u16>,
    pub play: Option<String>,
    pub pause: Option<String>,
    pub work_icon: Option<String>,
    pub break_icon: Option<String>,
    pub work_sound: Option<String>,
    pub break_sound: Option<String>,
    pub no_icons: bool,
    pub no_work_icons: bool,
    pub autow: bool,
    pub autob: bool,
    pub persist: bool,
    pub with_notifications: bool,
    pub log: Option<LogOption>,
    pub instance: Option<u16>,
}

/// The duration in seconds that a command-line minute option selects, with
/// its built-in default.
pub open spec fn cli_time(opt: Option<u16>, default: u16) -> u16 {
    match opt {
        Some(m) => ((m * 60) as u16),
        None => default,
    }
}

/// The string an optional command-line text selects, with its default.
pub open spec fn cli_text(opt: Option<String>, default: &str) -> Seq<char> {
    match opt {
        Some(s) => s@,
        None => default@,
    }
}

fn pick_text(opt: &Option<String>, default: &str) -> (r: String)
    ensures
        r@ == cli_text(*opt, default),
{
    match opt {
        Some(s) => String::from_str(s.as_str()),
        None => String::from_str(default),
    }
}

fn clone_opt_text(opt: &Option<String>) -> (r: Option<String>)
    ensures
        (match r {
            Some(s) => opt is Some && s@ == opt->0@,
            None => opt is None,
        }),
{
    match opt {
        Some(s) => Some(String::from_str(s.as_str())),
        None => None,
    }
}

impl Config {
    /// Build the runtime configuration from the parsed command line and the
    /// name this program runs under.
    pub fn from_module_cli(cli: &ModuleCli, binary_name: String) -> (c: Config)
        requires
            (cli.work is Some ==> cli.work->0 * 60 <= u16::MAX),
            (cli.shortbreak is Some ==> cli.shortbreak->0 * 60 <= u16::MAX),
            (cli.longbreak is Some ==> cli.longbreak->0 * 60 <= u16::MAX),
        ensures
            c.work_time == cli_time(cli.work, WORK_TIME),
            c.short_break == cli_time(cli.shortbreak, SHORT_BREAK_TIME),
            c.long_break == cli_time(cli.longbreak, LONG_BREAK_TIME),
            c.no_icons == cli.no_icons,
            c.no_work_icons == cli.no_work_icons,
            c.play_icon@ == cli_text(cli.play, PLAY_ICON),
            c.pause_icon@ == cli_text(cli.pause, PAUSE_ICON),
            c.work_icon@ == cli_text(cli.work_icon, WORK_ICON),
            c.break_icon@ == cli_text(cli.break_icon, BREAK_ICON),
            (c.work_sound is Some <==> cli.work_sound is Some),
            (c.work_sound is Some ==> c.work_sound->0@ == cli.work_sound->0@),
            (c.break_sound is Some <==> cli.break_sound is Some),
            (c.break_sound is Some ==> c.break_sound->0@ == cli.break_sound->0@),
            c.autow == cli.autow,
            c.autob == cli.autob,
            c.persist == cli.persist,
            c.with_notifications == cli.with_notifications,
            c.binary_name == binary_name,
    {
        let work_time: u16 = match cli.work {
            Some(w) => w * MINUTE,
            None => WORK_TIME,
        };
        let short_break: u16 = match cli.shortbreak {
            Some(s) => s * MINUTE,
            None => SHORT_BREAK_TIME,
        };
        let long_break: u16 = match cli.longbreak {
            Some(l) => l * MINUTE,
            None => LONG_BREAK_TIME,
        };
        Config {
            work_time,
            short_break,
            long_break,
            no_icons: cli.no_icons,
            no_work_icons: cli.no_work_icons,
            play_icon: pick_text(&cli.play, PLAY_ICON),
            pause_icon: pick_text(&cli.pause, PAUSE_ICON),
            work_icon: pick_text(&cli.work_icon, WORK_ICON),
            break_icon: pick_text(&cli.break_icon, BREAK_ICON),
            work_sound: clone_opt_text(&cli.work_sound),
            break_sound: clone_opt_text(&cli.break_sound),
            autow: cli.autow,
            autob: cli.autob,
            persist: cli.persist,
            with_notifications: cli.with_notifications,
            binary_name,
        }
    }
}

} // verus!
