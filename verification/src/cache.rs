use vstd::prelude::*;

use crate::config::Config;
use crate::consts::MAX_ITERATIONS;
use crate::strutil::{
    all_digits, dec_rep, dec_val, digits_len, dq, dq_exec, int_rep, is_digit_char, lb, lb_exec,
    lemma_dec_rep_props, lemma_digits_len_is, match_at, parse_num_range, push_char, push_i64,
    push_u64, rb, rb_exec, scan_digits,
};
use crate::timer::Timer;

verus! {

// ---------------------------------------------------------------------------
// The persisted frame
// ---------------------------------------------------------------------------

/// A field key in the persisted frame, with its closing colon.
pub open spec fn key_frame(name: Seq<char>) -> Seq<char> {
    seq![dq()] + name + seq![dq(), ':']
}

/// A field key preceded by the separating comma.
pub open spec fn sep_key(name: Seq<char>) -> Seq<char> {
    seq![','] + key_frame(name)
}

/// The textual form of a boolean field.
pub open spec fn bool_frame(b: bool) -> Seq<char> {
    if b {
        "true"@
    } else {
        "false"@
    }
}

/// The persisted frame of a timer. Every field but the one-shot override is
/// written; the override never outlives the process.
pub open spec fn timer_frame(t: Timer) -> Seq<char> {
    let s_sock = sep_key("socket_nr"@) + (int_rep(t.socket_nr as int) + seq![rb()]);
    let s_run = sep_key("running"@) + (bool_frame(t.running) + s_sock);
    let s_sc = sep_key("session_completed"@) + (dec_rep(t.session_completed as nat) + s_run);
    let s_it = sep_key("iterations"@) + (dec_rep(t.iterations as nat) + s_sc);
    let s_t2 = dec_rep(t.times@[2] as nat) + (seq![']'] + s_it);
    let s_t1 = dec_rep(t.times@[1] as nat) + (seq![','] + s_t2);
    let s_t0 = dec_rep(t.times@[0] as nat) + (seq![','] + s_t1);
    let s_times = sep_key("times"@) + (seq!['['] + s_t0);
    let s_et = sep_key("elapsed_time"@) + (dec_rep(t.elapsed_time as nat) + s_times);
    let s_em = sep_key("elapsed_millis"@) + (dec_rep(t.elapsed_millis as nat) + s_et);
    let s_ci = key_frame("current_index"@) + (dec_rep(t.current_index as nat) + s_em);
    seq![lb()] + s_ci
}

// ---------------------------------------------------------------------------
// Front-consuming readers
// ---------------------------------------------------------------------------

/// Consume an exact literal from the front of the string.
pub open spec fn take_lit(s: Seq<char>, lit: Seq<char>) -> Option<Seq<char>> {
    if s.len() >= lit.len() && s.subrange(0, lit.len() as int) == lit {
        Some(s.skip(lit.len() as int))
    } else {
        None
    }
}

/// Consume a run of digits from the front of the string, as a number up to
/// `bound`.
pub open spec fn take_num(s: Seq<char>, bound: nat) -> Option<(nat, Seq<char>)> {
    let k = digits_len(s);
    if k > 0 && dec_val(s.subrange(0, k)) <= bound {
        Some((dec_val(s.subrange(0, k)), s.skip(k)))
    } else {
        None
    }
}

/// Consume a boolean literal from the front of the string.
pub open spec fn take_bool(s: Seq<char>) -> Option<(bool, Seq<char>)> {
    match take_lit(s, "true"@) {
        Some(r) => Some((true, r)),
        None => match take_lit(s, "false"@) {
            Some(r) => Some((false, r)),
            None => None,
        },
    }
}

/// Consume an optionally negated number in 32-bit signed range from the
/// front of the string.
pub open spec fn take_int(s: Seq<char>) -> Option<(int, Seq<char>)> {
    if s.len() > 0 && s[0] == '-' {
        match take_num(s.skip(1), 0x8000_0000nat) {
            Some((v, r)) => Some((-(v as int), r)),
            None => None,
        }
    } else {
        match take_num(s, 0x7fff_ffffnat) {
            Some((v, r)) => Some((v as int, r)),
            None => None,
        }
    }
}

// ---------------------------------------------------------------------------
// Reading a frame back
// ---------------------------------------------------------------------------

/// The persisted fields of a timer as read back from a frame.
#[derive(Debug, Clone, Copy, PartialEq, Eq, Structural)]
pub struct ParsedTimer {
    pub current_index: u16,
    pub elapsed_millis: u16,
    pub elapsed_time: u16,
    pub t0: u16,
    pub t1: u16,
    pub t2: u16,
    pub iterations: u8,
    pub session_completed: u8,
    pub running: bool,
    pub socket_nr: i32,
}

/// The three leading count fields of a frame, after the opening brace.
pub open spec fn parse_counts(s: Seq<char>) -> Option<((nat, nat, nat), Seq<char>)> {
    match take_lit(s, key_frame("current_index"@)) {
        None => None,
        Some(s1) => match take_num(s1, 0xffffnat) {
            None => None,
            Some((ci, s2)) => match take_lit(s2, sep_key("elapsed_millis"@)) {
                None => None,
                Some(s3) => match take_num(s3, 0xffffnat) {
                    None => None,
                    Some((em, s4)) => match take_lit(s4, sep_key("elapsed_time"@)) {
                        None => None,
                        Some(s5) => match take_num(s5, 0xffffnat) {
                            None => None,
                            Some((et, s6)) => Some(((ci, em, et), s6)),
                        },
                    },
                },
            },
        },
    }
}

/// The three-entry duration table of a frame.
pub open spec fn parse_times(s: Seq<char>) -> Option<((nat, nat, nat), Seq<char>)> {
    match take_lit(s, sep_key("times"@) + seq!['[']) {
        None => None,
        Some(s1) => match take_num(s1, 0xffffnat) {
            None => None,
            Some((t0, s2)) => match take_lit(s2, seq![',']) {
                None => None,
                Some(s3) => match take_num(s3, 0xffffnat) {
                    None => None,
                    Some((t1, s4)) => match take_lit(s4, seq![',']) {
                        None => None,
                        Some(s5) => match take_num(s5, 0xffffnat) {
                            None => None,
                            Some((t2, s6)) => match take_lit(s6, seq![']']) {
                                None => None,
                                Some(s7) => Some(((t0, t1, t2), s7)),
                            },
                        },
                    },
                },
            },
        },
    }
}

/// The trailing bookkeeping fields of a frame, up to the closing brace.
pub open spec fn parse_tail(s: Seq<char>) -> Option<((nat, nat, bool, int), Seq<char>)> {
    match take_lit(s, sep_key("iterations"@)) {
        None => None,
        Some(s1) => match take_num(s1, 255nat) {
            None => None,
            Some((it, s2)) => match take_lit(s2, sep_key("session_completed"@)) {
                None => None,
                Some(s3) => match take_num(s3, 255nat) {
                    None => None,
                    Some((sc, s4)) => match take_lit(s4, sep_key("running"@)) {
                        None => None,
                        Some(s5) => match take_bool(s5) {
                            None => None,
                            Some((run, s6)) => match take_lit(s6, sep_key("socket_nr"@)) {
                                None => None,
                                Some(s7) => match take_int(s7) {
                                    None => None,
                                    Some((sock, s8)) => match take_lit(s8, seq![rb()]) {
                                        None => None,
                                        Some(s9) => Some(((it, sc, run, sock), s9)),
                                    },
                                },
                            },
                        },
                    },
                },
            },
        },
    }
}

/// What a persisted frame reads back to: exactly the canonical frame of some
/// timer, field by field, with nothing before or after.
pub open spec fn timer_parse(s: Seq<char>) -> Option<ParsedTimer> {
    match take_lit(s, seq![lb()]) {
        None => None,
        Some(s1) => match parse_counts(s1) {
            None => None,
            Some(((ci, em, et), s2)) => match parse_times(s2) {
                None => None,
                Some(((t0, t1, t2), s3)) => match parse_tail(s3) {
                    None => None,
                    Some(((it, sc, run, sock), s4)) => if s4.len() == 0 {
                        Some(ParsedTimer {
                            current_index: (ci as u16),
                            elapsed_millis: (em as u16),
                            elapsed_time: (et as u16),
                            t0: (t0 as u16),
                            t1: (t1 as u16),
                            t2: (t2 as u16),
                            iterations: (it as u8),
                            session_completed: (sc as u8),
                            running: run,
                            socket_nr: (sock as i32),
                        })
                    } else {
                        None
                    },
                },
            },
        },
    }
}

// ---------------------------------------------------------------------------
// Executable readers
// ---------------------------------------------------------------------------

proof fn lemma_skip_parts(s: Seq<char>, i: int, l: int)
    requires
        0 <= i,
        0 <= l,
        i + l <= s.len(),
    ensures
        s.skip(i).subrange(0, l) == s.subrange(i, i + l),
        s.skip(i).skip(l) == s.skip(i + l),
{
    assert(s.skip(i).subrange(0, l) =~= s.subrange(i, i + l));
    assert(s.skip(i).skip(l) =~= s.skip(i + l));
}

fn take_lit_exec(s: &str, i: usize, lit: &str) -> (r: Option<usize>)
    requires
        i <= s@.len(),
    ensures
        (match r {
            Some(j) => i <= j <= s@.len() && take_lit(s@.skip(i as int), lit@) == Some(
                s@.skip(j as int),
            ),
            None => take_lit(s@.skip(i as int), lit@) is None,
        }),
{
    let slen = s.unicode_len();
    let ll = lit.unicode_len();
    if match_at(s, i, lit) {
        proof {
            lemma_skip_parts(s@, i as int, lit@.len() as int);
        }
        Some(i + ll)
    } else {
        proof {
            if s@.skip(i as int).len() >= lit@.len() {
                lemma_skip_parts(s@, i as int, lit@.len() as int);
            }
        }
        None
    }
}

fn take_num_exec(s: &str, i: usize, bound: u64) -> (r: Option<(u64, usize)>)
    requires
        i <= s@.len(),
        bound <= 0x1_0000_0000u64,
    ensures
        (match r {
            Some(p) => i < p.1 <= s@.len() && take_num(s@.skip(i as int), bound as nat) == Some(
                ((p.0 as nat), s@.skip(p.1 as int)),
            ),
            None => take_num(s@.skip(i as int), bound as nat) is None,
        }),
{
    let e = scan_digits(s, i);
    proof {
        lemma_skip_parts(s@, i as int, (e - i) as int);
    }
    match parse_num_range(s, i, e, bound) {
        Some(v) => {
            proof {
                assert(s@.skip(i as int).subrange(0, e - i) == s@.subrange(i as int, e as int));
            }
            Some((v, e))
        },
        None => {
            proof {
                assert(s@.skip(i as int).subrange(0, e - i) == s@.subrange(i as int, e as int));
            }
            None
        },
    }
}

fn take_bool_exec(s: &str, i: usize) -> (r: Option<(bool, usize)>)
    requires
        i <= s@.len(),
    ensures
        (match r {
            Some(p) => i <= p.1 <= s@.len() && take_bool(s@.skip(i as int)) == Some(
                (p.0, s@.skip(p.1 as int)),
            ),
            None => take_bool(s@.skip(i as int)) is None,
        }),
{
    match take_lit_exec(s, i, "true") {
        Some(j) => Some((true, j)),
        None => match take_lit_exec(s, i, "false") {
            Some(j) => Some((false, j)),
            None => None,
        },
    }
}

fn take_int_exec(s: &str, i: usize) -> (r: Option<(i32, usize)>)
    requires
        i <= s@.len(),
    ensures
        (match r {
            Some(p) => i < p.1 <= s@.len() && take_int(s@.skip(i as int)) == Some(
                ((p.0 as int), s@.skip(p.1 as int)),
            ),
            None => take_int(s@.skip(i as int)) is None,
        }),
{
    let len = s.unicode_len();
    if i < len && s.get_char(i) == '-' {
        proof {
            assert(s@.skip(i as int)[0] == s@[i as int]);
            assert(s@.skip(i as int).skip(1) =~= s@.skip(i + 1));
        }
        match take_num_exec(s, i + 1, 0x8000_0000u64) {
            Some(p) => {
                let sv: i64 = -(p.0 as i64);
                Some((sv as i32, p.1))
            },
            None => None,
        }
    } else {
        proof {
            if s@.skip(i as int).len() > 0 {
                assert(s@.skip(i as int)[0] == s@[i as int]);
            }
        }
        match take_num_exec(s, i, 0x7fff_ffffu64) {
            Some(p) => Some((p.0 as i32, p.1)),
            None => None,
        }
    }
}

fn make_char(c: char) -> (r: String)
    ensures
        r@ == seq![c],
{
    let mut out = String::new();
    push_char(&mut out, c);
    proof {
        assert(out@ =~= seq![c]);
    }
    out
}

fn push_key(out: &mut String, name: &str)
    ensures
        final(out)@ == old(out)@ + key_frame(name@),
{
    push_char(out, dq_exec());
    out.append(name);
    push_char(out, dq_exec());
    push_char(out, ':');
    proof {
        assert(out@ =~= old(out)@ + key_frame(name@));
    }
}

fn make_key(name: &str) -> (r: String)
    ensures
        r@ == key_frame(name@),
{
    let mut out = String::new();
    push_key(&mut out, name);
    proof {
        assert(out@ =~= key_frame(name@));
    }
    out
}

fn make_sep_key(name: &str) -> (r: String)
    ensures
        r@ == sep_key(name@),
{
    let mut out = String::new();
    push_char(&mut out, ',');
    push_key(&mut out, name);
    proof {
        assert(out@ =~= sep_key(name@));
    }
    out
}

fn parse_counts_exec(s: &str, i: usize) -> (r: Option<(u64, u64, u64, usize)>)
    requires
        i <= s@.len(),
    ensures
        (match r {
            Some(p) => p.3 <= s@.len() && parse_counts(s@.skip(i as int)) == Some(
                (((p.0 as nat), (p.1 as nat), (p.2 as nat)), s@.skip(p.3 as int)),
            ),
            None => parse_counts(s@.skip(i as int)) is None,
        }),
{
    let k = make_key("current_index");
    let j1 = match take_lit_exec(s, i, k.as_str()) {
        Some(j) => j,
        None => {
            return None;
        },
    };
    let (ci, j2) = match take_num_exec(s, j1, 0xffffu64) {
        Some(p) => p,
        None => {
            return None;
        },
    };
    let k2 = make_sep_key("elapsed_millis");
    let j3 = match take_lit_exec(s, j2, k2.as_str()) {
        Some(j) => j,
        None => {
            return None;
        },
    };
    let (em, j4) = match take_num_exec(s, j3, 0xffffu64) {
        Some(p) => p,
        None => {
            return None;
        },
    };
    let k3 = make_sep_key("elapsed_time");
    let j5 = match take_lit_exec(s, j4, k3.as_str()) {
        Some(j) => j,
        None => {
            return None;
        },
    };
    let (et, j6) = match take_num_exec(s, j5, 0xffffu64) {
        Some(p) => p,
        None => {
            return None;
        },
    };
    Some((ci, em, et, j6))
}

fn parse_times_exec(s: &str, i: usize) -> (r: Option<(u64, u64, u64, usize)>)
    requires
        i <= s@.len(),
    ensures
        (match r {
            Some(p) => p.3 <= s@.len() && parse_times(s@.skip(i as int)) == Some(
                (((p.0 as nat), (p.1 as nat), (p.2 as nat)), s@.skip(p.3 as int)),
            ),
            None => parse_times(s@.skip(i as int)) is None,
        }),
{
    let mut open_lit = make_sep_key("times");
    let br = make_char('[');
    open_lit.append(br.as_str());
    proof {
        assert(open_lit@ =~= sep_key("times"@) + seq!['[']);
    }
    let j1 = match take_lit_exec(s, i, open_lit.as_str()) {
        Some(j) => j,
        None => {
            return None;
        },
    };
    let (t0, j2) = match take_num_exec(s, j1, 0xffffu64) {
        Some(p) => p,
        None => {
            return None;
        },
    };
    let comma = make_char(',');
    let j3 = match take_lit_exec(s, j2, comma.as_str()) {
        Some(j) => j,
        None => {
            return None;
        },
    };
    let (t1, j4) = match take_num_exec(s, j3, 0xffffu64) {
        Some(p) => p,
        None => {
            return None;
        },
    };
    let j5 = match take_lit_exec(s, j4, comma.as_str()) {
        Some(j) => j,
        None => {
            return None;
        },
    };
    let (t2, j6) = match take_num_exec(s, j5, 0xffffu64) {
        Some(p) => p,
        None => {
            return None;
        },
    };
    let close = make_char(']');
    let j7 = match take_lit_exec(s, j6, close.as_str()) {
        Some(j) => j,
        None => {
            return None;
        },
    };
    Some((t0, t1, t2, j7))
}

fn parse_tail_exec(s: &str, i: usize) -> (r: Option<(u64, u64, bool, i32, usize)>)
    requires
        i <= s@.len(),
    ensures
        (match r {
            Some(p) => p.4 <= s@.len() && parse_tail(s@.skip(i as int)) == Some(
                (((p.0 as nat), (p.1 as nat), p.2, (p.3 as int)), s@.skip(p.4 as int)),
            ),
            None => parse_tail(s@.skip(i as int)) is None,
        }),
{
    let k1 = make_sep_key("iterations");
    let j1 = match take_lit_exec(s, i, k1.as_str()) {
        Some(j) => j,
        None => {
            return None;
        },
    };
    let (it, j2) = match take_num_exec(s, j1, 255u64) {
        Some(p) => p,
        None => {
            return None;
        },
    };
    let k2 = make_sep_key("session_completed");
    let j3 = match take_lit_exec(s, j2, k2.as_str()) {
        Some(j) => j,
        None => {
            return None;
        },
    };
    let (sc, j4) = match take_num_exec(s, j3, 255u64) {
        Some(p) => p,
        None => {
            return None;
        },
    };
    let k3 = make_sep_key("running");
    let j5 = match take_lit_exec(s, j4, k3.as_str()) {
        Some(j) => j,
        None => {
            return None;
        },
    };
    let (run, j6) = match take_bool_exec(s, j5) {
        Some(p) => p,
        None => {
            return None;
        },
    };
    let k4 = make_sep_key("socket_nr");
    let j7 = match take_lit_exec(s, j6, k4.as_str()) {
        Some(j) => j,
        None => {
            return None;
        },
    };
    let (sock, j8) = match take_int_exec(s, j7) {
        Some(p) => p,
        None => {
            return None;
        },
    };
    let close = make_char((125 as u8) as char);
    proof {
        assert(close@ =~= seq![rb()]);
    }
    let j9 = match take_lit_exec(s, j8, close.as_str()) {
        Some(j) => j,
        None => {
            return None;
        },
    };
    Some((it, sc, run, sock, j9))
}

fn parse_timer_str(s: &str) -> (r: Option<ParsedTimer>)
    ensures
        r == timer_parse(s@),
{
    proof {
        assert(s@.skip(0) =~= s@);
    }
    let open = make_char((123 as u8) as char);
    proof {
        assert(open@ =~= seq![lb()]);
    }
    let j0 = match take_lit_exec(s, 0, open.as_str()) {
        Some(j) => j,
        None => {
            return None;
        },
    };
    let (ci, em, et, j1) = match parse_counts_exec(s, j0) {
        Some(p) => p,
        None => {
            return None;
        },
    };
    let (t0, t1, t2, j2) = match parse_times_exec(s, j1) {
        Some(p) => p,
        None => {
            return None;
        },
    };
    let (it, sc, run, sock, j3) = match parse_tail_exec(s, j2) {
        Some(p) => p,
        None => {
            return None;
        },
    };
    if j3 != s.unicode_len() {
        return None;
    }
    Some(ParsedTimer {
        current_index: ci as u16,
        elapsed_millis: em as u16,
        elapsed_time: et as u16,
        t0: t0 as u16,
        t1: t1 as u16,
        t2: t2 as u16,
        iterations: it as u8,
        session_completed: sc as u8,
        running: run,
        socket_nr: sock,
    })
}

// ---------------------------------------------------------------------------
// Storing and restoring
// ---------------------------------------------------------------------------

/// Serialize the timer to its persisted frame. Writing the frame to the
/// cache file is the caller's business.
pub fn store(state: &Timer) -> (r: String)
    ensures
        r@ == timer_frame(*state),
{
    let mut sock_rest = String::new();
    push_i64(&mut sock_rest, state.socket_nr as i64);
    push_char(&mut sock_rest, rb_exec());
    proof {
        assert(sock_rest@ =~= int_rep(state.socket_nr as int) + seq![rb()]);
    }
    let mut s_sock = make_sep_key("socket_nr");
    s_sock.append(sock_rest.as_str());

    let mut run_rest = String::from_str(if state.running { "true" } else { "false" });
    run_rest.append(s_sock.as_str());
    let mut s_run = make_sep_key("running");
    s_run.append(run_rest.as_str());

    let s_sc = wrap_num_field("session_completed", state.session_completed as u64, s_run);
    let s_it = wrap_num_field("iterations", state.iterations as u64, s_sc);

    let mut t2r = make_char(']');
    t2r.append(s_it.as_str());
    let mut s_t2 = String::new();
    push_u64(&mut s_t2, state.times[2] as u64);
    s_t2.append(t2r.as_str());
    proof {
        assert(s_t2@ =~= dec_rep(state.times@[2] as nat) + (seq![']'] + s_it@));
    }
    let mut t1r = make_char(',');
    t1r.append(s_t2.as_str());
    let mut s_t1 = String::new();
    push_u64(&mut s_t1, state.times[1] as u64);
    s_t1.append(t1r.as_str());
    proof {
        assert(s_t1@ =~= dec_rep(state.times@[1] as nat) + (seq![','] + s_t2@));
    }
    let mut t0r = make_char(',');
    t0r.append(s_t1.as_str());
    let mut s_t0 = String::new();
    push_u64(&mut s_t0, state.times[0] as u64);
    s_t0.append(t0r.as_str());
    proof {
        assert(s_t0@ =~= dec_rep(state.times@[0] as nat) + (seq![','] + s_t1@));
    }
    let mut brk = make_char('[');
    brk.append(s_t0.as_str());
    let mut s_times = make_sep_key("times");
    s_times.append(brk.as_str());

    let s_et = wrap_num_field("elapsed_time", state.elapsed_time as u64, s_times);
    let s_em = wrap_num_field("elapsed_millis", state.elapsed_millis as u64, s_et);

    let mut cir = String::new();
    push_u64(&mut cir, state.current_index as u64);
    cir.append(s_em.as_str());
    proof {
        assert(cir@ =~= dec_rep(state.current_index as nat) + s_em@);
    }
    let mut s_ci = make_key("current_index");
    s_ci.append(cir.as_str());

    let mut out = String::new();
    push_char(&mut out, lb_exec());
    out.append(s_ci.as_str());
    proof {
        assert(out@ =~= seq![lb()] + s_ci@);
        assert(out@ == timer_frame(*state));
    }
    out
}

/// A numeric field of the frame, prepended to the rest of it.
fn wrap_num_field(name: &str, v: u64, rest: String) -> (r: String)
    ensures
        r@ == sep_key(name@) + (dec_rep(v as nat) + rest@),
{
    let mut num = String::new();
    push_u64(&mut num, v);
    num.append(rest.as_str());
    proof {
        assert(num@ =~= dec_rep(v as nat) + rest@);
    }
    let mut out = make_sep_key(name);
    out.append(num.as_str());
    out
}

/// Whether the persisted duration table equals the configured one.
pub fn match_timers(config: &Config, times: &[u16; 3]) -> (r: bool)
    ensures
        r == (config.work_time == times@[0] && config.short_break == times@[1]
            && config.long_break == times@[2]),
{
    config.work_time == times[0] && config.short_break == times[1]
        && config.long_break == times[2]
}

/// The duration a parsed frame assigns to a table index.
pub open spec fn parsed_time_at(p: ParsedTimer, i: int) -> u16 {
    if i == 0 {
        p.t0
    } else if i == 1 {
        p.t1
    } else {
        p.t2
    }
}

/// A parsed frame is applied only when its duration table equals the
/// currently configured one and its cycle index is one the engine knows.
pub open spec fn parsed_applies(p: ParsedTimer, c: Config) -> bool {
    &&& p.current_index < 3
    &&& p.t0 == c.work_time
    &&& p.t1 == c.short_break
    &&& p.t2 == c.long_break
}

/// A parsed frame that satisfies the engine's own invariant.
pub open spec fn parsed_wf(p: ParsedTimer) -> bool {
    &&& p.current_index < 3
    &&& p.elapsed_millis < 1000
    &&& p.elapsed_time <= parsed_time_at(p, p.current_index as int)
    &&& (p.current_index == 0 ==> p.iterations < MAX_ITERATIONS)
    &&& (p.current_index == 1 ==> p.iterations + 2 <= MAX_ITERATIONS)
    &&& (p.current_index == 2 ==> p.iterations == MAX_ITERATIONS)
}

/// The timer after a parsed frame is applied: progress fields come from the
/// frame, while the socket number and the one-shot override stay.
pub open spec fn is_restored(before: Timer, p: ParsedTimer, after: Timer) -> bool {
    &&& after.current_index == p.current_index as usize
    &&& after.elapsed_millis == p.elapsed_millis
    &&& after.elapsed_time == p.elapsed_time
    &&& after.times@ == seq![p.t0, p.t1, p.t2]
    &&& after.iterations == p.iterations
    &&& after.session_completed == p.session_completed
    &&& after.running == p.running
    &&& after.socket_nr == before.socket_nr
    &&& after.current_override == before.current_override
}

/// Overwrite the timer's progress with a persisted frame, but only when the
/// frame reads back, is internally consistent, and was written for the same
/// configured durations; otherwise the timer stays untouched. Reading the
/// cache file is the caller's business. Returns whether the frame applied.
pub fn restore(state: &mut Timer, config: &Config, content: &str) -> (applied: bool)
    ensures
        (match timer_parse(content@) {
            Some(p) => {
                if parsed_applies(p, *config) {
                    applied && is_restored(*old(state), p, *final(state))
                } else {
                    !applied && *final(state) == *old(state)
                }
            },
            None => !applied && *final(state) == *old(state),
        }),
        old(state).wf() && old(state).current_override is None && (match timer_parse(content@) {
            Some(p) => parsed_wf(p),
            None => true,
        }) ==> final(state).wf(),
{
    let p = match parse_timer_str(content) {
        Some(p) => p,
        None => {
            return false;
        },
    };
    let ok = p.current_index < 3 && config.work_time == p.t0 && config.short_break == p.t1
        && config.long_break == p.t2;
    if !ok {
        return false;
    }
    state.current_index = p.current_index as usize;
    state.elapsed_millis = p.elapsed_millis;
    state.elapsed_time = p.elapsed_time;
    state.times = [p.t0, p.t1, p.t2];
    state.iterations = p.iterations;
    state.session_completed = p.session_completed;
    state.running = p.running;
    proof {
        assert(state.times@ =~= seq![p.t0, p.t1, p.t2]);
    }
    true
}

// ---------------------------------------------------------------------------
// Round trip
// ---------------------------------------------------------------------------

proof fn lemma_take_lit_front(lit: Seq<char>, rest: Seq<char>)
    ensures
        take_lit(lit + rest, lit) == Some(rest),
{
    assert((lit + rest).subrange(0, lit.len() as int) =~= lit);
    assert((lit + rest).skip(lit.len() as int) =~= rest);
}

proof fn lemma_take_num_front(v: nat, rest: Seq<char>, bound: nat)
    requires
        v <= bound,
        rest.len() > 0,
        !is_digit_char(rest[0]),
    ensures
        take_num(dec_rep(v) + rest, bound) == Some((v, rest)),
{
    let d = dec_rep(v);
    lemma_dec_rep_props(v);
    let s = d + rest;
    assert forall|i: int| 0 <= i < d.len() implies is_digit_char(#[trigger] s[i]) by {
        assert(s[i] == d[i]);
    }
    assert(s[d.len() as int] == rest[0]);
    lemma_digits_len_is(s, d.len() as int);
    assert(s.subrange(0, d.len() as int) =~= d);
    assert(s.skip(d.len() as int) =~= rest);
}

proof fn lemma_take_bool_front(b: bool, rest: Seq<char>)
    ensures
        take_bool(bool_frame(b) + rest) == Some((b, rest)),
{
    reveal_strlit("true");
    reveal_strlit("false");
    if b {
        lemma_take_lit_front("true"@, rest);
    } else {
        let s = "false"@ + rest;
        assert(s[0] == 'f' && "true"@[0] == 't');
        if s.len() >= 4 && s.subrange(0, 4) == "true"@ {
            assert(s.subrange(0, 4)[0] == s[0]);
        }
        assert(take_lit(s, "true"@) is None);
        lemma_take_lit_front("false"@, rest);
    }
}

proof fn lemma_take_int_front(v: int, rest: Seq<char>)
    requires
        -0x8000_0000 <= v <= 0x7fff_ffff,
        rest.len() > 0,
        !is_digit_char(rest[0]),
    ensures
        take_int(int_rep(v) + rest) == Some((v, rest)),
{
    let s = int_rep(v) + rest;
    if v < 0 {
        let d = dec_rep((-v) as nat);
        lemma_dec_rep_props((-v) as nat);
        assert(s[0] == '-');
        assert(s.skip(1) =~= d + rest);
        lemma_take_num_front((-v) as nat, rest, 0x8000_0000nat);
    } else {
        lemma_dec_rep_props(v as nat);
        assert(s[0] == dec_rep(v as nat)[0]);
        assert(is_digit_char(s[0]));
        assert(s[0] != '-');
        lemma_take_num_front(v as nat, rest, 0x7fff_ffffnat);
    }
}

/// The persisted fields that a timer's frame carries.
pub open spec fn parsed_of(t: Timer) -> ParsedTimer {
    ParsedTimer {
        current_index: (t.current_index as u16),
        elapsed_millis: t.elapsed_millis,
        elapsed_time: t.elapsed_time,
        t0: t.times@[0],
        t1: t.times@[1],
        t2: t.times@[2],
        iterations: t.iterations,
        session_completed: t.session_completed,
        running: t.running,
        socket_nr: t.socket_nr,
    }
}

/// Reading a timer's persisted frame back yields exactly its persisted
/// fields.
#[verifier::rlimit(60)]
pub proof fn lemma_timer_frame_roundtrip(t: Timer)
    requires
        t.current_index <= 0xffff,
    ensures
        timer_parse(timer_frame(t)) == Some(parsed_of(t)),
{
    let s_sock = sep_key("socket_nr"@) + (int_rep(t.socket_nr as int) + seq![rb()]);
    let s_run = sep_key("running"@) + (bool_frame(t.running) + s_sock);
    let s_sc = sep_key("session_completed"@) + (dec_rep(t.session_completed as nat) + s_run);
    let s_it = sep_key("iterations"@) + (dec_rep(t.iterations as nat) + s_sc);
    let s_t2 = dec_rep(t.times@[2] as nat) + (seq![']'] + s_it);
    let s_t1 = dec_rep(t.times@[1] as nat) + (seq![','] + s_t2);
    let s_t0 = dec_rep(t.times@[0] as nat) + (seq![','] + s_t1);
    let s_times = sep_key("times"@) + (seq!['['] + s_t0);
    let s_et = sep_key("elapsed_time"@) + (dec_rep(t.elapsed_time as nat) + s_times);
    let s_em = sep_key("elapsed_millis"@) + (dec_rep(t.elapsed_millis as nat) + s_et);
    let s_ci = key_frame("current_index"@) + (dec_rep(t.current_index as nat) + s_em);
    let f = timer_frame(t);
    assert(f == seq![lb()] + s_ci);
    lemma_take_lit_front(seq![lb()], s_ci);

    lemma_take_lit_front(key_frame("current_index"@), dec_rep(t.current_index as nat) + s_em);
    assert(s_em[0] == ',' && !is_digit_char(','));
    lemma_take_num_front(t.current_index as nat, s_em, 0xffffnat);
    lemma_take_lit_front(sep_key("elapsed_millis"@), dec_rep(t.elapsed_millis as nat) + s_et);
    assert(s_et[0] == ',' && !is_digit_char(','));
    lemma_take_num_front(t.elapsed_millis as nat, s_et, 0xffffnat);
    lemma_take_lit_front(sep_key("elapsed_time"@), dec_rep(t.elapsed_time as nat) + s_times);
    assert(s_times[0] == ',' && !is_digit_char(','));
    lemma_take_num_front(t.elapsed_time as nat, s_times, 0xffffnat);
    assert(parse_counts(s_ci) == Some(
        (((t.current_index as nat), (t.elapsed_millis as nat), (t.elapsed_time as nat)), s_times),
    ));

    assert(s_times =~= (sep_key("times"@) + seq!['[']) + s_t0);
    lemma_take_lit_front(sep_key("times"@) + seq!['['], s_t0);
    assert((seq![','] + s_t1)[0] == ',' && !is_digit_char(','));
    lemma_take_num_front(t.times@[0] as nat, seq![','] + s_t1, 0xffffnat);
    lemma_take_lit_front(seq![','], s_t1);
    assert((seq![','] + s_t2)[0] == ',');
    lemma_take_num_front(t.times@[1] as nat, seq![','] + s_t2, 0xffffnat);
    lemma_take_lit_front(seq![','], s_t2);
    assert((seq![']'] + s_it)[0] == ']' && !is_digit_char(']'));
    lemma_take_num_front(t.times@[2] as nat, seq![']'] + s_it, 0xffffnat);
    lemma_take_lit_front(seq![']'], s_it);
    assert(parse_times(s_times) == Some(
        (((t.times@[0] as nat), (t.times@[1] as nat), (t.times@[2] as nat)), s_it),
    ));

    lemma_take_lit_front(sep_key("iterations"@), dec_rep(t.iterations as nat) + s_sc);
    assert(s_sc[0] == ',' && !is_digit_char(','));
    lemma_take_num_front(t.iterations as nat, s_sc, 255nat);
    lemma_take_lit_front(sep_key("session_completed"@), dec_rep(t.session_completed as nat) + s_run);
    assert(s_run[0] == ',' && !is_digit_char(','));
    lemma_take_num_front(t.session_completed as nat, s_run, 255nat);
    lemma_take_lit_front(sep_key("running"@), bool_frame(t.running) + s_sock);
    lemma_take_bool_front(t.running, s_sock);
    lemma_take_lit_front(sep_key("socket_nr"@), int_rep(t.socket_nr as int) + seq![rb()]);
    assert(!is_digit_char(rb()));
    lemma_take_int_front(t.socket_nr as int, seq![rb()]);
    assert(seq![rb()] =~= seq![rb()] + Seq::<char>::empty());
    lemma_take_lit_front(seq![rb()], Seq::<char>::empty());
    assert(parse_tail(s_it) == Some(
        (
            ((t.iterations as nat), (t.session_completed as nat), t.running, t.socket_nr as int),
            Seq::<char>::empty(),
        ),
    ));
}

/// Persistence round trip: the frame of a well-formed timer reads back, and
/// it applies against a configuration asking for the same duration table,
/// reproducing every persisted field; the socket number and the override of
/// the timer restored into are kept.
pub proof fn lemma_store_restore(t: Timer, c: Config)
    requires
        t.wf(),
        t.current_override is None,
        c.work_time == t.times@[0],
        c.short_break == t.times@[1],
        c.long_break == t.times@[2],
    ensures
        timer_parse(timer_frame(t)) == Some(parsed_of(t)),
        parsed_applies(parsed_of(t), c),
        parsed_wf(parsed_of(t)),
        forall|before: Timer, after: Timer|
            #[trigger] is_restored(before, parsed_of(t), after) ==> after.current_index
                == t.current_index && after.elapsed_millis == t.elapsed_millis
                && after.elapsed_time == t.elapsed_time && after.times@ == t.times@
                && after.iterations == t.iterations && after.session_completed
                == t.session_completed && after.running == t.running && after.socket_nr
                == before.socket_nr && after.current_override == before.current_override,
{
    lemma_timer_frame_roundtrip(t);
    assert forall|before: Timer, after: Timer|
        #[trigger] is_restored(before, parsed_of(t), after) implies after.current_index
        == t.current_index && after.elapsed_millis == t.elapsed_millis && after.elapsed_time
        == t.elapsed_time && after.times@ == t.times@ && after.iterations == t.iterations
        && after.session_completed == t.session_completed && after.running == t.running
        && after.socket_nr == before.socket_nr && after.current_override
        == before.current_override by {
        assert(t.times@ =~= seq![t.times@[0], t.times@[1], t.times@[2]]);
    }
}

/// A frame written for a different duration table never applies.
pub proof fn lemma_restore_guard(p: ParsedTimer, c: Config)
    requires
        p.t0 != c.work_time || p.t1 != c.short_break || p.t2 != c.long_break,
    ensures
        !parsed_applies(p, c),
{
}

} // verus!
