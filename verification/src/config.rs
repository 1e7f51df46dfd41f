use vstd::prelude::*;

verus! {

/// Default icon shown when the timer is paused and can be started.
pub const PLAY_ICON: &'static str = "\u{25b6}";

/// Default icon shown when the timer is running and can be paused.
pub const PAUSE_ICON: &'static str = "\u{23f8}";

/// Default icon shown during a work cycle.
pub const WORK_ICON: &'static str = "\u{25cf}";

/// Default icon shown during a break cycle.
pub const BREAK_ICON: &'static str = "\u{25cb}";

/// Runtime configuration of one timer instance.
pub struct Config {
    pub work_time: u16,
    pub short_break: u16,
    pub long_break: u16,
    pub no_icons: bool,
    pub no_work_icons: bool,
    pub play_icon: String,
    pub pause_icon: String,
    pub work_icon: String,
    pub break_icon: String,
    pub work_sound: Option<String>,
    pub break_sound: Option<String>,
    pub autow: bool,
    pub autob: bool,
    pub persist: bool,
    pub with_notifications: bool,
    pub binary_name: String,
}

impl Default for Config {
    fn default() -> (c: Config)
        ensures
            c.work_time == 0 && c.short_break == 0 && c.long_break == 0,
            !c.no_icons && !c.no_work_icons,
            c.play_icon@ == PLAY_ICON@ && c.pause_icon@ == PAUSE_ICON@,
            c.work_icon@ == WORK_ICON@ && c.break_icon@ == BREAK_ICON@,
            c.work_sound is None && c.break_sound is None,
            !c.autow && !c.autob && !c.persist && !c.with_notifications,
            c.binary_name@ == Seq::<char>::empty(),
    {
        Config {
            work_time: 0,
            short_break: 0,
            long_break: 0,
            no_icons: false,
            no_work_icons: false,
            play_icon: String::from_str(PLAY_ICON),
            pause_icon: String::from_str(PAUSE_ICON),
            work_icon: String::from_str(WORK_ICON),
            break_icon: String::from_str(BREAK_ICON),
            work_sound: None,
            break_sound: None,
            autow: false,
            autob: false,
            persist: false,
            with_notifications: false,
            binary_name: String::new(),
        }
    }
}

impl Config {
    /// Icon for the play/pause slot: the pause icon while running, the play
    /// icon while stopped, and nothing when icons are disabled.
    pub open spec fn play_pause_icon_spec(self, running: bool) -> Seq<char> {
        if self.no_icons {
            Seq::<char>::empty()
        } else if !running {
            self.play_icon@
        } else {
            self.pause_icon@
        }
    }

    pub fn get_play_pause_icon(&self, running: bool) -> (r: &str)
        ensures
            r@ == self.play_pause_icon_spec(running),
    {
        if self.no_icons {
            proof {
                reveal_strlit("");
                assert(""@ =~= Seq::<char>::empty());
            }
            return "";
        }
        if !running {
            self.play_icon.as_str()
        } else {
            self.pause_icon.as_str()
        }
    }

    /// Icon for the cycle slot: the break icon on a break, the work icon
    /// otherwise, and nothing when cycle icons are disabled.
    pub open spec fn cycle_icon_spec(self, is_break: bool) -> Seq<char> {
        if self.no_work_icons {
            Seq::<char>::empty()
        } else if !is_break {
            self.work_icon@
        } else {
            self.break_icon@
        }
    }

    pub fn get_cycle_icon(&self, is_break: bool) -> (r: &str)
        ensures
            r@ == self.cycle_icon_spec(is_break),
    {
        if self.no_work_icons {
            proof {
                reveal_strlit("");
                assert(""@ =~= Seq::<char>::empty());
            }
            return "";
        }
        if !is_break {
            self.work_icon.as_str()
        } else {
            self.break_icon.as_str()
        }
    }
}

} // verus!
