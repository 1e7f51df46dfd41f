use vstd::prelude::*;

use crate::config::Config;
use crate::message::{decode_spec, Message, TimeValue};
use crate::strutil::{
    all_digits, collapse_spaces, dec_rep, dec_val, dq, dq_exec, last_index, lemma_last_index_is,
    lb, lb_exec, match_at, parse_num_range, push_char, push_two_digits, rb, rb_exec, rscan_char,
    trim_spec, trim_whitespace, two_digit_rep,
};
use crate::timer::{cycle_index_spec, cycle_of_index, clamp_duration, CycleType, Timer};

verus! {

// ---------------------------------------------------------------------------
// Applying control messages
// ---------------------------------------------------------------------------

/// The duration table with one slot overwritten.
pub open spec fn arr_upd(ts: [u16; 3], i: int, v: u16) -> [u16; 3] {
    [
        (if i == 0 { v } else { ts@[0] }),
        (if i == 1 { v } else { ts@[1] }),
        (if i == 2 { v } else { ts@[2] }),
    ]
}

pub proof fn lemma_arr_upd(ts: [u16; 3], i: int, v: u16)
    requires
        0 <= i < 3,
    ensures
        arr_upd(ts, i, v)@ == ts@.update(i, v),
{
    assert(arr_upd(ts, i, v)@ =~= ts@.update(i, v));
}

/// Negation that stays inside the 16-bit range; any clamped difference is
/// swallowed by the duration clamp, since sixty times the largest value
/// already passes every representable duration.
pub open spec fn neg_sat(d: i16) -> i16 {
    if d == i16::MIN {
        i16::MAX
    } else {
        (-d) as i16
    }
}

/// The timer after a base-duration command: an absolute value restarts the
/// cycle with the slot overwritten when it fits, and is dropped otherwise; a
/// relative value adjusts the slot in place.
pub open spec fn duration_applied(t: Timer, i: int, tv: TimeValue) -> Timer {
    match tv {
        TimeValue::Absolute(v) => if v * 60 <= 0xffff {
            Timer {
                current_index: 0usize,
                elapsed_millis: 0u16,
                elapsed_time: 0u16,
                iterations: 0u8,
                running: false,
                current_override: None,
                times: arr_upd(t.times, i, ((v * 60) as u16)),
                ..t
            }
        } else {
            t
        },
        TimeValue::Add(d) => delta_applied(t, i, d),
        TimeValue::Subtract(d) => delta_applied(t, i, neg_sat(d)),
    }
}

/// The timer after a relative base-duration adjustment, as `add_delta_time`
/// leaves it.
pub open spec fn delta_applied(t: Timer, i: int, d: i16) -> Timer {
    let nt = clamp_duration(t.times@[i] + d * 60);
    let ff = i == t.current_index && t.current_override is None && nt <= t.elapsed_time;
    Timer {
        times: arr_upd(t.times, i, nt),
        elapsed_time: if ff { nt } else { t.elapsed_time },
        elapsed_millis: if ff { 0u16 } else { t.elapsed_millis },
        ..t
    }
}

/// The timer after an override command, as the override operations leave it.
pub open spec fn current_applied(t: Timer, tv: TimeValue) -> Timer {
    match tv {
        TimeValue::Absolute(v) => if v * 60 <= 0xffff {
            override_set(t, ((v * 60) as u16))
        } else {
            t
        },
        TimeValue::Add(d) => override_set(t, clamp_duration(t.effective_spec() + d * 60)),
        TimeValue::Subtract(d) => override_set(
            t,
            clamp_duration(t.effective_spec() + neg_sat(d) * 60),
        ),
    }
}

/// The timer with its override set to `nd` and elapsed time clamped down.
pub open spec fn override_set(t: Timer, nd: u16) -> Timer {
    let clip = t.elapsed_time > nd;
    Timer {
        current_override: Some(nd),
        elapsed_time: if clip { nd } else { t.elapsed_time },
        elapsed_millis: if clip { 0u16 } else { t.elapsed_millis },
        ..t
    }
}

/// The timer after a decoded message is applied.
pub open spec fn msg_applied(t: Timer, m: Message, autow: bool, autob: bool) -> Timer {
    match m {
        Message::Start => Timer { running: true, ..t },
        Message::Stop => Timer { running: false, ..t },
        Message::Toggle => Timer { running: !t.running, ..t },
        Message::Reset => Timer {
            current_index: 0usize,
            elapsed_millis: 0u16,
            elapsed_time: 0u16,
            iterations: 0u8,
            running: false,
            current_override: None,
            ..t
        },
        Message::NextState => t.skipped(autow, autob),
        Message::SetWork { time } => duration_applied(t, 0, time),
        Message::SetShort { time } => duration_applied(t, 1, time),
        Message::SetLong { time } => duration_applied(t, 2, time),
        Message::SetCurrent { time } => current_applied(t, time),
    }
}

/// The cycle type to announce after a decoded message is applied: only a
/// forced transition on the notifying instance announces anything.
pub open spec fn msg_notify(t: Timer, m: Message, autow: bool, autob: bool) -> Option<CycleType> {
    match m {
        Message::NextState => if t.socket_nr == 0 {
            Some(cycle_of_index(t.skipped(autow, autob).current_index as int))
        } else {
            None
        },
        _ => None,
    }
}

fn apply_duration(state: &mut Timer, cycle: CycleType, tv: &TimeValue)
    requires
        old(state).wf(),
    ensures
        final(state).wf(),
        *final(state) == duration_applied(*old(state), cycle_index_spec(cycle), *tv),
{
    match tv {
        TimeValue::Absolute(v) => {
            if *v <= 1092 {
                state.set_time(cycle, *v);
                proof {
                    lemma_arr_upd(old(state).times, cycle_index_spec(cycle), ((*v * 60) as u16));
                    assert(*state =~= duration_applied(
                        *old(state),
                        cycle_index_spec(cycle),
                        *tv,
                    ));
                }
            } else {
                proof {
                    assert(*state =~= duration_applied(*old(state), cycle_index_spec(cycle), *tv));
                }
            }
        },
        TimeValue::Add(d) => {
            state.add_delta_time(cycle, *d);
            proof {
                lemma_arr_upd(
                    old(state).times,
                    cycle_index_spec(cycle),
                    clamp_duration(old(state).times@[cycle_index_spec(cycle)] + *d * 60),
                );
                assert(*state =~= duration_applied(*old(state), cycle_index_spec(cycle), *tv));
            }
        },
        TimeValue::Subtract(d) => {
            let nd: i16 = if *d == i16::MIN {
                i16::MAX
            } else {
                -*d
            };
            state.add_delta_time(cycle, nd);
            proof {
                lemma_arr_upd(
                    old(state).times,
                    cycle_index_spec(cycle),
                    clamp_duration(old(state).times@[cycle_index_spec(cycle)] + neg_sat(*d) * 60),
                );
                assert(*state =~= duration_applied(*old(state), cycle_index_spec(cycle), *tv));
            }
        },
    }
}

fn apply_current(state: &mut Timer, tv: &TimeValue)
    requires
        old(state).wf(),
    ensures
        final(state).wf(),
        *final(state) == current_applied(*old(state), *tv),
{
    match tv {
        TimeValue::Absolute(v) => {
            if *v <= 1092 {
                state.set_current_duration(*v);
                proof {
                    assert(*state =~= current_applied(*old(state), *tv));
                }
            } else {
                proof {
                    assert(*state =~= current_applied(*old(state), *tv));
                }
            }
        },
        TimeValue::Add(d) => {
            state.add_current_delta_time(*d);
            proof {
                assert(*state =~= current_applied(*old(state), *tv));
            }
        },
        TimeValue::Subtract(d) => {
            let nd: i16 = if *d == i16::MIN {
                i16::MAX
            } else {
                -*d
            };
            state.add_current_delta_time(nd);
            proof {
                assert(*state =~= current_applied(*old(state), *tv));
            }
        },
    }
}

/// Decode one control frame and apply it to the timer; an unreadable frame
/// leaves the timer untouched. Returns the cycle type to announce, if any.
pub fn process_message(state: &mut Timer, message: &str, config: &Config) -> (r: Option<
    CycleType,
>)
    requires
        old(state).wf(),
    ensures
        final(state).wf(),
        (match decode_spec(message@) {
            Some(m) => *final(state) == msg_applied(
                *old(state),
                m,
                config.autow,
                config.autob,
            ) && r == msg_notify(*old(state), m, config.autow, config.autob),
            None => *final(state) == *old(state) && r is None,
        }),
{
    let msg = match Message::decode(message) {
        Ok(m) => m,
        Err(_) => {
            return None;
        },
    };
    match msg {
        Message::Start => {
            state.running = true;
            proof {
                assert(*state =~= msg_applied(*old(state), msg, config.autow, config.autob));
            }
            None
        },
        Message::Stop => {
            state.running = false;
            proof {
                assert(*state =~= msg_applied(*old(state), msg, config.autow, config.autob));
            }
            None
        },
        Message::Toggle => {
            state.running = !state.running;
            proof {
                assert(*state =~= msg_applied(*old(state), msg, config.autow, config.autob));
            }
            None
        },
        Message::Reset => {
            state.reset();
            None
        },
        Message::NextState => state.next_state(config),
        Message::SetWork { time } => {
            apply_duration(state, CycleType::Work, &time);
            None
        },
        Message::SetShort { time } => {
            apply_duration(state, CycleType::ShortBreak, &time);
            None
        },
        Message::SetLong { time } => {
            apply_duration(state, CycleType::LongBreak, &time);
            None
        },
        Message::SetCurrent { time } => {
            apply_current(state, &time);
            None
        },
    }
}

// ---------------------------------------------------------------------------
// The status snapshot
// ---------------------------------------------------------------------------

/// The remaining time as the bar shows it: minutes and seconds, with the
/// hours in front only when a whole hour remains.
pub open spec fn format_time_spec(elapsed: u16, max_time: u16) -> Seq<char> {
    let time = max_time - elapsed;
    let hour = time / 3600;
    let minute = (time % 3600) / 60;
    let second = time % 60;
    if hour > 0 {
        two_digit_rep(hour as nat) + seq![':'] + two_digit_rep(minute as nat) + seq![':']
            + two_digit_rep(second as nat)
    } else {
        two_digit_rep(minute as nat) + seq![':'] + two_digit_rep(second as nat)
    }
}

pub fn format_time(elapsed_time: u16, max_time: u16) -> (r: String)
    requires
        elapsed_time <= max_time,
    ensures
        r@ == format_time_spec(elapsed_time, max_time),
{
    let time: u16 = max_time - elapsed_time;
    let hour: u16 = time / 3600;
    let minute: u16 = (time % 3600) / 60;
    let second: u16 = time % 60;
    let mut out = String::new();
    if hour > 0 {
        push_two_digits(&mut out, hour);
        push_char(&mut out, ':');
    }
    push_two_digits(&mut out, minute);
    push_char(&mut out, ':');
    push_two_digits(&mut out, second);
    proof {
        assert(out@ =~= format_time_spec(elapsed_time, max_time));
    }
    out
}

/// One quoted field of the status record, value included.
pub open spec fn status_field(name: Seq<char>, content: Seq<char>) -> Seq<char> {
    seq![dq()] + name + seq![dq(), ':', ' ', dq()] + content + seq![dq()]
}

/// The status record handed to the bar: text, tooltip, and the display class
/// twice, as class and as alt.
pub open spec fn status_line(text: Seq<char>, tooltip: Seq<char>, class: Seq<char>) -> Seq<char> {
    seq![lb()] + status_field("text"@, text) + seq![',', ' '] + status_field("tooltip"@, tooltip)
        + seq![',', ' '] + status_field("class"@, class) + seq![',', ' '] + status_field(
        "alt"@,
        class,
    ) + seq![rb()]
}

fn push_status_field(out: &mut String, name: &str, content: &str)
    ensures
        final(out)@ == old(out)@ + status_field(name@, content@),
{
    push_char(out, dq_exec());
    out.append(name);
    push_char(out, dq_exec());
    push_char(out, ':');
    push_char(out, ' ');
    push_char(out, dq_exec());
    out.append(content);
    push_char(out, dq_exec());
    proof {
        assert(out@ =~= old(out)@ + status_field(name@, content@));
    }
}

/// Wrap a rendered value, tooltip, and class into the status record.
#[verifier::rlimit(30)]
pub fn create_message(value: String, tooltip: &str, class: &str) -> (r: String)
    ensures
        r@ == status_line(value@, tooltip@, class@),
{
    let mut out = String::new();
    push_char(&mut out, lb_exec());
    push_status_field(&mut out, "text", value.as_str());
    push_char(&mut out, ',');
    push_char(&mut out, ' ');
    push_status_field(&mut out, "tooltip", tooltip);
    push_char(&mut out, ',');
    push_char(&mut out, ' ');
    push_status_field(&mut out, "class", class);
    push_char(&mut out, ',');
    push_char(&mut out, ' ');
    push_status_field(&mut out, "alt", class);
    push_char(&mut out, rb_exec());
    proof {
        assert(out@ =~= status_line(value@, tooltip@, class@));
    }
    out
}

/// The tooltip: how many sessions were completed, pluralised for any count
/// but one.
pub open spec fn tooltip_spec(n: u8) -> Seq<char> {
    dec_rep(n as nat) + " pomodoro"@ + (if n == 1 {
        Seq::<char>::empty()
    } else {
        "s"@
    }) + " completed this session"@
}

pub fn session_tooltip(n: u8) -> (r: String)
    ensures
        r@ == tooltip_spec(n),
{
    let mut out = String::new();
    crate::strutil::push_u64(&mut out, n as u64);
    out.append(" pomodoro");
    if n != 1 {
        out.append("s");
    }
    out.append(" completed this session");
    proof {
        assert(out@ =~= tooltip_spec(n));
    }
    out
}

/// The status snapshot of a timer under a configuration.
pub open spec fn status_spec(t: Timer, c: Config) -> Seq<char> {
    let text = collapse_spaces(
        trim_spec(
            c.play_pause_icon_spec(t.running) + seq![' '] + format_time_spec(
                t.elapsed_time,
                t.effective_spec(),
            ) + seq![' '] + c.cycle_icon_spec(t.current_index != 0),
        ),
    );
    status_line(text, tooltip_spec(t.session_completed), t.class_spec())
}

/// Render the status record for one tick.
pub fn build_status(timer: &Timer, config: &Config) -> (r: String)
    requires
        timer.wf(),
    ensures
        r@ == status_spec(*timer, *config),
{
    let value = format_time(timer.elapsed_time, timer.get_current_time());
    let mut text = String::from_str(config.get_play_pause_icon(timer.running));
    push_char(&mut text, ' ');
    text.append(value.as_str());
    push_char(&mut text, ' ');
    text.append(config.get_cycle_icon(timer.is_break()));
    proof {
        assert(text@ =~= config.play_pause_icon_spec(timer.running) + seq![' ']
            + format_time_spec(timer.elapsed_time, timer.effective_spec()) + seq![' ']
            + config.cycle_icon_spec(timer.current_index != 0));
    }
    let trimmed = trim_whitespace(text.as_str());
    let tooltip = session_tooltip(timer.session_completed);
    let class = timer.get_class();
    create_message(trimmed, tooltip.as_str(), class)
}

// ---------------------------------------------------------------------------
// Socket names
// ---------------------------------------------------------------------------

/// The instance number a socket path carries: the file stem must read
/// `module` followed by nothing but digits, whose value must fit `bound`.
pub open spec fn socket_num_opt(s: Seq<char>, bound: nat) -> Option<nat> {
    let name = s.skip(last_index(s, '/') + 1);
    let ld = last_index(name, '.');
    let stem = if ld >= 1 {
        name.take(ld)
    } else {
        name
    };
    if stem.len() > 6 && stem.subrange(0, 6) == "module"@ && all_digits(stem.skip(6)) && dec_val(
        stem.skip(6),
    ) <= bound {
        Some(dec_val(stem.skip(6)))
    } else {
        None
    }
}

fn stem_number(s: &str, bound: u64) -> (r: Option<u64>)
    requires
        bound <= 0x1_0000_0000u64,
    ensures
        (match r {
            Some(v) => socket_num_opt(s@, bound as nat) == Some(v as nat),
            None => socket_num_opt(s@, bound as nat) is None,
        }),
{
    let len = s.unicode_len();
    let j = rscan_char(s, 0, len, '/');
    proof {
        lemma_last_index_is(s@, '/', j - 1);
    }
    let ghost name = s@.skip(j as int);
    let d = rscan_char(s, j, len, '.');
    proof {
        assert forall|i: int| d - 1 - j < i < name.len() implies name[i] != '.' by {
            assert(name[i] == s@[i + j]);
        }
        if d > j {
            assert(name[d - 1 - j] == s@[d - 1]);
        }
        lemma_last_index_is(name, '.', d - 1 - j);
    }
    let e: usize = if d > j && d - 1 > j {
        d - 1
    } else {
        len
    };
    proof {
        if d > j && d - 1 > j {
            assert(name.take(d - 1 - j) =~= s@.subrange(j as int, d - 1));
        } else {
            assert(name =~= s@.subrange(j as int, len as int));
        }
    }
    let ghost stem = (if d - 1 - j >= 1 { name.take(d - 1 - j) } else { name });
    proof {
        assert(stem.len() == e - j);
        reveal_strlit("module");
    }
    if e - j <= 6 {
        return None;
    }
    if !match_at(s, j, "module") {
        proof {
            assert(stem.subrange(0, 6) =~= s@.subrange(j as int, j + 6));
        }
        return None;
    }
    proof {
        assert(stem.subrange(0, 6) =~= s@.subrange(j as int, j + 6));
        assert(stem.skip(6) =~= s@.subrange(j + 6, e as int));
    }
    parse_num_range(s, j + 6, e, bound)
}

/// The instance number encoded in a socket path, zero when the path carries
/// none that fits a signed 32-bit number.
pub fn extract_socket_number(socket_path: &str) -> (r: i32)
    ensures
        r as int == (match socket_num_opt(socket_path@, 0x7fff_ffffnat) {
            Some(v) => v as int,
            None => 0,
        }),
{
    match stem_number(socket_path, 0x7fff_ffffu64) {
        Some(v) => v as i32,
        None => 0,
    }
}

/// The largest instance number among a set of socket paths, counting paths
/// without one as zero.
pub open spec fn max_socket_num(names: Seq<Seq<char>>) -> nat
    decreases names.len(),
{
    if names.len() == 0 {
        0
    } else {
        let rest = max_socket_num(names.drop_last());
        let cur = (match socket_num_opt(names.last(), 0xffffnat) {
            Some(v) => v,
            None => 0nat,
        });
        if cur > rest {
            cur
        } else {
            rest
        }
    }
}

/// The instance number for a new daemon: zero when no sockets exist, and one
/// past the largest taken number otherwise, capped at the 16-bit maximum.
pub fn find_next_instance_number(socket_paths: &Vec<String>) -> (r: u16)
    ensures
        r as nat == (if socket_paths@.len() == 0 {
            0nat
        } else if max_socket_num(socket_paths.deep_view()) + 1 > 0xffff {
            0xffffnat
        } else {
            max_socket_num(socket_paths.deep_view()) + 1
        }),
{
    if socket_paths.len() == 0 {
        return 0;
    }
    let mut best: u16 = 0;
    let mut i: usize = 0;
    while i < socket_paths.len()
        invariant
            0 <= i <= socket_paths@.len(),
            best as nat == max_socket_num(socket_paths.deep_view().take(i as int)),
        decreases socket_paths@.len() - i,
    {
        let cur: u16 = match stem_number(socket_paths[i].as_str(), 0xffffu64) {
            Some(v) => v as u16,
            None => 0,
        };
        proof {
            let dv = socket_paths.deep_view();
            assert(dv.take(i + 1).drop_last() =~= dv.take(i as int));
            assert(dv.take(i + 1).last() == dv[i as int]);
            assert(dv[i as int] == socket_paths@[i as int]@);
        }
        if cur > best {
            best = cur;
        }
        i = i + 1;
    }
    proof {
        assert(socket_paths.deep_view().take(socket_paths@.len() as int) =~= socket_paths
            .deep_view());
    }
    if best == 0xffff {
        0xffff
    } else {
        best + 1
    }
}

} // verus!
