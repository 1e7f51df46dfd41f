use vstd::prelude::*;

use crate::strutil::{
    all_digits, dec_rep, dec_val, dq, dq_exec, has_at, int_rep, is_digit_char, is_space_char,
    lb, lb_exec, lemma_dec_rep_props, lemma_trim_noop, match_at, parse_u16_range, push_char,
    push_i64, push_u64, rb, rb_exec, str_eq, trim_spec, trim_str,
};

verus! {

/// A duration argument of a control operation: an absolute number of minutes,
/// or a signed relative adjustment in minutes.
#[derive(Debug, Clone, Copy, PartialEq, Eq, Structural)]
pub enum TimeValue {
    Absolute(u16),
    Add(i16),
    Subtract(i16),
}

/// A control operation understood by the timer daemon.
#[derive(Debug, Clone, Copy, PartialEq, Eq, Structural)]
pub enum Message {
    Start,
    Stop,
    Toggle,
    Reset,
    NextState,
    SetWork { time: TimeValue },
    SetShort { time: TimeValue },
    SetLong { time: TimeValue },
    SetCurrent { time: TimeValue },
}

/// Raised when a frame holds no recognisable operation.
#[derive(Debug, Clone, Copy, PartialEq, Eq, Structural)]
pub enum DecodeError {
    Invalid,
}

/// A keyword in its quoted frame form.
pub open spec fn quoted(s: Seq<char>) -> Seq<char> {
    seq![dq()] + s + seq![dq()]
}

/// The opening of a tagged duration frame, up to the value's first character.
pub open spec fn tag_prefix(tag: Seq<char>) -> Seq<char> {
    seq![lb(), dq()] + tag + seq![dq(), ':', lb(), dq()] + "time"@ + seq![dq(), ':', dq()]
}

/// The closing of a tagged duration frame, after the value's last character.
pub open spec fn frame_tail() -> Seq<char> {
    seq![dq(), rb(), rb()]
}

/// The signed 16-bit value whose bit pattern a 16-bit number carries.
pub open spec fn i16_of_u16(v: u16) -> i16 {
    if v <= 0x7fff {
        v as i16
    } else {
        ((v - 0x10000) as i16)
    }
}

/// A time value as its textual form reads: an optional sign before or after
/// (not both) a run of digits whose value fits sixteen bits.
pub open spec fn tv_parse(s: Seq<char>) -> Option<TimeValue> {
    let pre = s.len() > 0 && (s[0] == '+' || s[0] == '-');
    let start: int = if pre { 1 } else { 0 };
    let suf = s.len() > start && (s[s.len() - 1] == '+' || s[s.len() - 1] == '-');
    let end: int = if suf { s.len() - 1 } else { s.len() as int };
    if pre && suf {
        None
    } else if end <= start {
        None
    } else if !all_digits(s.subrange(start, end)) {
        None
    } else if dec_val(s.subrange(start, end)) > 0xffff {
        None
    } else {
        let v = (dec_val(s.subrange(start, end)) as u16);
        if pre && s[0] == '+' {
            Some(TimeValue::Add(i16_of_u16(v)))
        } else if pre {
            Some(TimeValue::Subtract(i16_of_u16(v)))
        } else if suf && s[s.len() - 1] == '+' {
            Some(TimeValue::Add(i16_of_u16(v)))
        } else if suf {
            Some(TimeValue::Subtract(i16_of_u16(v)))
        } else {
            Some(TimeValue::Absolute(v))
        }
    }
}

/// The canonical textual form of a time value.
pub open spec fn tv_frame(tv: TimeValue) -> Seq<char> {
    match tv {
        TimeValue::Absolute(v) => dec_rep(v as nat),
        TimeValue::Add(v) => seq!['+'] + int_rep(v as int),
        TimeValue::Subtract(v) => seq!['-'] + int_rep(v as int),
    }
}

/// The message a bare keyword names.
pub open spec fn keyword_msg(s: Seq<char>) -> Option<Message> {
    if s == "start"@ {
        Some(Message::Start)
    } else if s == "stop"@ {
        Some(Message::Stop)
    } else if s == "toggle"@ {
        Some(Message::Toggle)
    } else if s == "reset"@ {
        Some(Message::Reset)
    } else if s == "next-state"@ {
        Some(Message::NextState)
    } else {
        None
    }
}

/// The time value carried after a duration tag, closed by the frame's tail.
pub open spec fn obj_val(t: Seq<char>, plen: int) -> Option<TimeValue> {
    if t.len() >= plen + 3 && has_at(t, t.len() - 3, frame_tail()) {
        tv_parse(t.subrange(plen, t.len() - 3))
    } else {
        None
    }
}

/// The message a tagged duration frame carries.
pub open spec fn obj_msg(t: Seq<char>) -> Option<Message> {
    if has_at(t, 0, tag_prefix("set-work"@)) {
        match obj_val(t, tag_prefix("set-work"@).len() as int) {
            Some(tv) => Some(Message::SetWork { time: tv }),
            None => None,
        }
    } else if has_at(t, 0, tag_prefix("set-short"@)) {
        match obj_val(t, tag_prefix("set-short"@).len() as int) {
            Some(tv) => Some(Message::SetShort { time: tv }),
            None => None,
        }
    } else if has_at(t, 0, tag_prefix("set-long"@)) {
        match obj_val(t, tag_prefix("set-long"@).len() as int) {
            Some(tv) => Some(Message::SetLong { time: tv }),
            None => None,
        }
    } else if has_at(t, 0, tag_prefix("set-current"@)) {
        match obj_val(t, tag_prefix("set-current"@).len() as int) {
            Some(tv) => Some(Message::SetCurrent { time: tv }),
            None => None,
        }
    } else {
        None
    }
}

/// What a frame decodes to: after surrounding whitespace is dropped, either a
/// quoted keyword, a tagged duration frame, or a bare keyword.
pub open spec fn decode_spec(s: Seq<char>) -> Option<Message> {
    let t = trim_spec(s);
    if t.len() >= 2 && t[0] == dq() && t[t.len() - 1] == dq() {
        keyword_msg(t.subrange(1, t.len() - 1))
    } else if t.len() >= 1 && t[0] == lb() {
        obj_msg(t)
    } else {
        keyword_msg(t)
    }
}

/// The canonical frame of a message: quoted keywords for the plain commands,
/// a tagged one-field record for the duration commands.
pub open spec fn msg_frame(m: Message) -> Seq<char> {
    match m {
        Message::Start => quoted("start"@),
        Message::Stop => quoted("stop"@),
        Message::Toggle => quoted("toggle"@),
        Message::Reset => quoted("reset"@),
        Message::NextState => quoted("next-state"@),
        Message::SetWork { time } => tag_prefix("set-work"@) + tv_frame(time) + frame_tail(),
        Message::SetShort { time } => tag_prefix("set-short"@) + tv_frame(time) + frame_tail(),
        Message::SetLong { time } => tag_prefix("set-long"@) + tv_frame(time) + frame_tail(),
        Message::SetCurrent { time } => tag_prefix("set-current"@) + tv_frame(time) + frame_tail(),
    }
}

fn make_quoted(s: &str) -> (r: String)
    ensures
        r@ == quoted(s@),
{
    let mut out = String::new();
    push_char(&mut out, dq_exec());
    out.append(s);
    push_char(&mut out, dq_exec());
    proof {
        assert(out@ =~= quoted(s@));
    }
    out
}

fn make_tag_prefix(tag: &str) -> (r: String)
    ensures
        r@ == tag_prefix(tag@),
{
    let mut out = String::new();
    push_char(&mut out, lb_exec());
    push_char(&mut out, dq_exec());
    out.append(tag);
    push_char(&mut out, dq_exec());
    push_char(&mut out, ':');
    push_char(&mut out, lb_exec());
    push_char(&mut out, dq_exec());
    out.append("time");
    push_char(&mut out, dq_exec());
    push_char(&mut out, ':');
    push_char(&mut out, dq_exec());
    proof {
        assert(out@ =~= tag_prefix(tag@));
    }
    out
}

fn push_frame_tail(s: &mut String)
    ensures
        final(s)@ == old(s)@ + frame_tail(),
{
    push_char(s, dq_exec());
    push_char(s, rb_exec());
    push_char(s, rb_exec());
    proof {
        assert(s@ =~= old(s)@ + frame_tail());
    }
}

impl TimeValue {
    /// Read a time value from its textual form.
    pub fn parse(s: &str) -> (r: Option<TimeValue>)
        ensures
            r == tv_parse(s@),
    {
        let len = s.unicode_len();
        if len == 0 {
            return None;
        }
        let c0 = s.get_char(0);
        let cl = s.get_char(len - 1);
        let pre = c0 == '+' || c0 == '-';
        let start: usize = if pre { 1 } else { 0 };
        let suf = len > start && (cl == '+' || cl == '-');
        let end: usize = if suf { len - 1 } else { len };
        if pre && suf {
            return None;
        }
        if end <= start {
            return None;
        }
        match parse_u16_range(s, start, end) {
            None => None,
            Some(v) => {
                if pre && c0 == '+' {
                    Some(TimeValue::Add(i16_cast(v)))
                } else if pre {
                    Some(TimeValue::Subtract(i16_cast(v)))
                } else if suf && cl == '+' {
                    Some(TimeValue::Add(i16_cast(v)))
                } else if suf {
                    Some(TimeValue::Subtract(i16_cast(v)))
                } else {
                    Some(TimeValue::Absolute(v))
                }
            },
        }
    }
}

impl core::str::FromStr for TimeValue {
    type Err = DecodeError;

    fn from_str(s: &str) -> (r: Result<TimeValue, DecodeError>) {
        match TimeValue::parse(s) {
            Some(tv) => Ok(tv),
            None => Err(DecodeError::Invalid),
        }
    }
}

fn i16_cast(v: u16) -> (r: i16)
    ensures
        r == i16_of_u16(v),
{
    if v <= 0x7fff {
        v as i16
    } else {
        (v as i32 - 0x10000) as i16
    }
}

fn encode_duration(tag: &str, tv: &TimeValue) -> (r: String)
    ensures
        r@ == tag_prefix(tag@) + tv_frame(*tv) + frame_tail(),
{
    let mut s = make_tag_prefix(tag);
    match tv {
        TimeValue::Absolute(v) => {
            push_u64(&mut s, *v as u64);
        },
        TimeValue::Add(v) => {
            push_char(&mut s, '+');
            push_i64(&mut s, *v as i64);
            proof {
                assert(tag_prefix(tag@).push('+') + int_rep(*v as int) =~= tag_prefix(tag@)
                    + tv_frame(*tv));
            }
        },
        TimeValue::Subtract(v) => {
            push_char(&mut s, '-');
            push_i64(&mut s, *v as i64);
            proof {
                assert(tag_prefix(tag@).push('-') + int_rep(*v as int) =~= tag_prefix(tag@)
                    + tv_frame(*tv));
            }
        },
    }
    push_frame_tail(&mut s);
    s
}

fn keyword(t: &str) -> (r: Option<Message>)
    ensures
        r == keyword_msg(t@),
{
    if str_eq(t, "start") {
        Some(Message::Start)
    } else if str_eq(t, "stop") {
        Some(Message::Stop)
    } else if str_eq(t, "toggle") {
        Some(Message::Toggle)
    } else if str_eq(t, "reset") {
        Some(Message::Reset)
    } else if str_eq(t, "next-state") {
        Some(Message::NextState)
    } else {
        None
    }
}

fn object_val(t: &str, plen: usize) -> (r: Option<TimeValue>)
    ensures
        r == obj_val(t@, plen as int),
{
    let tlen = t.unicode_len();
    let mut tail = String::new();
    push_frame_tail(&mut tail);
    proof {
        assert(Seq::<char>::empty() + frame_tail() =~= frame_tail());
    }
    if tlen >= 3 && plen <= tlen - 3 && match_at(t, tlen - 3, tail.as_str()) {
        let val = t.substring_char(plen, tlen - 3);
        TimeValue::parse(val)
    } else {
        None
    }
}

fn object(t: &str) -> (r: Option<Message>)
    ensures
        r == obj_msg(t@),
{
    let pw = make_tag_prefix("set-work");
    let ps = make_tag_prefix("set-short");
    let pl = make_tag_prefix("set-long");
    let pc = make_tag_prefix("set-current");
    if match_at(t, 0, pw.as_str()) {
        match object_val(t, pw.as_str().unicode_len()) {
            Some(tv) => Some(Message::SetWork { time: tv }),
            None => None,
        }
    } else if match_at(t, 0, ps.as_str()) {
        match object_val(t, ps.as_str().unicode_len()) {
            Some(tv) => Some(Message::SetShort { time: tv }),
            None => None,
        }
    } else if match_at(t, 0, pl.as_str()) {
        match object_val(t, pl.as_str().unicode_len()) {
            Some(tv) => Some(Message::SetLong { time: tv }),
            None => None,
        }
    } else if match_at(t, 0, pc.as_str()) {
        match object_val(t, pc.as_str().unicode_len()) {
            Some(tv) => Some(Message::SetCurrent { time: tv }),
            None => None,
        }
    } else {
        None
    }
}

impl Message {
    /// Read a control frame. Accepts the canonical tagged frames that
    /// `encode` writes, quoted keywords, and bare keywords with surrounding
    /// whitespace.
    pub fn decode(input: &str) -> (r: Result<Message, DecodeError>)
        ensures
            (match r {
                Ok(m) => decode_spec(input@) == Some(m),
                Err(e) => decode_spec(input@) is None && e == DecodeError::Invalid,
            }),
    {
        let t = trim_str(input);
        let tlen = t.unicode_len();
        if tlen >= 2 && t.get_char(0) == dq_exec() && t.get_char(tlen - 1) == dq_exec() {
            let body = t.substring_char(1, tlen - 1);
            return match keyword(body) {
                Some(m) => Ok(m),
                None => Err(DecodeError::Invalid),
            };
        }
        if tlen >= 1 && t.get_char(0) == lb_exec() {
            return match object(t) {
                Some(m) => Ok(m),
                None => Err(DecodeError::Invalid),
            };
        }
        match keyword(t) {
            Some(m) => Ok(m),
            None => Err(DecodeError::Invalid),
        }
    }

    /// Write the canonical frame of this message.
    pub fn encode(&self) -> (r: String)
        ensures
            r@ == msg_frame(*self),
    {
        match self {
            Message::Start => make_quoted("start"),
            Message::Stop => make_quoted("stop"),
            Message::Toggle => make_quoted("toggle"),
            Message::Reset => make_quoted("reset"),
            Message::NextState => make_quoted("next-state"),
            Message::SetWork { time } => encode_duration("set-work", time),
            Message::SetShort { time } => encode_duration("set-short", time),
            Message::SetLong { time } => encode_duration("set-long", time),
            Message::SetCurrent { time } => encode_duration("set-current", time),
        }
    }
}

/// A time value whose canonical frame reads back as the same value: the
/// magnitude of a relative adjustment is carried without its sign.
pub open spec fn tv_valid(tv: TimeValue) -> bool {
    match tv {
        TimeValue::Absolute(_) => true,
        TimeValue::Add(v) => v >= 0,
        TimeValue::Subtract(v) => v >= 0,
    }
}

/// A message whose canonical frame reads back as the same message.
pub open spec fn msg_valid(m: Message) -> bool {
    match m {
        Message::SetWork { time } => tv_valid(time),
        Message::SetShort { time } => tv_valid(time),
        Message::SetLong { time } => tv_valid(time),
        Message::SetCurrent { time } => tv_valid(time),
        _ => true,
    }
}

/// The frame of a time value is never empty.
proof fn lemma_tv_frame_shape(tv: TimeValue)
    ensures
        tv_frame(tv).len() >= 1,
{
    match tv {
        TimeValue::Absolute(v) => {
            lemma_dec_rep_props(v as nat);
        },
        TimeValue::Add(v) => {},
        TimeValue::Subtract(v) => {},
    }
}

/// Reading back the canonical frame of a valid time value gives that value.
pub proof fn lemma_tv_roundtrip(tv: TimeValue)
    requires
        tv_valid(tv),
    ensures
        tv_parse(tv_frame(tv)) == Some(tv),
{
    match tv {
        TimeValue::Absolute(v) => {
            let s = dec_rep(v as nat);
            lemma_dec_rep_props(v as nat);
            assert(is_digit_char(s[0]));
            assert(is_digit_char(s.last()));
            assert(s[0] != '+' && s[0] != '-');
            assert(s.last() != '+' && s.last() != '-');
            assert(s.subrange(0, s.len() as int) =~= s);
        },
        TimeValue::Add(v) => {
            let d = dec_rep(v as nat);
            let s = tv_frame(tv);
            lemma_dec_rep_props(v as nat);
            assert(s == seq!['+'] + d);
            assert(s[0] == '+');
            assert(s.last() == d.last());
            assert(is_digit_char(s.last()));
            assert(s.last() != '+' && s.last() != '-');
            assert(s.subrange(1, s.len() as int) =~= d);
            assert(dec_val(d) == v as nat);
            assert(i16_of_u16((v as u16)) == v);
        },
        TimeValue::Subtract(v) => {
            let d = dec_rep(v as nat);
            let s = tv_frame(tv);
            lemma_dec_rep_props(v as nat);
            assert(s == seq!['-'] + d);
            assert(s[0] == '-');
            assert(s.last() == d.last());
            assert(is_digit_char(s.last()));
            assert(s.last() != '+' && s.last() != '-');
            assert(s.subrange(1, s.len() as int) =~= d);
            assert(dec_val(d) == v as nat);
            assert(i16_of_u16((v as u16)) == v);
        },
    }
}

/// A duration frame built from a tag prefix and a value carries that value.
proof fn lemma_obj_frame(t: Seq<char>, p: Seq<char>, tvs: Seq<char>)
    requires
        t == p + tvs + frame_tail(),
        tvs.len() >= 1,
    ensures
        obj_val(t, p.len() as int) == tv_parse(tvs),
        has_at(t, 0, p),
{
    assert(t.len() == p.len() + tvs.len() + 3);
    assert(t.subrange(t.len() - 3, t.len() as int) =~= frame_tail());
    assert(has_at(t, t.len() - 3, frame_tail()));
    assert(t.subrange(p.len() as int, t.len() - 3) =~= tvs);
    assert(t.subrange(0, p.len() as int) =~= p);
}

/// Shared part of the round trip for the four duration variants: the frame
/// trims to itself, is no quoted keyword, and carries its time value.
proof fn lemma_duration_frame_parts(t: Seq<char>, tag: Seq<char>, time: TimeValue)
    requires
        tv_valid(time),
        t == tag_prefix(tag) + tv_frame(time) + frame_tail(),
        tag.len() >= 5,
    ensures
        trim_spec(t) == t,
        t.len() >= 1,
        t[0] == lb(),
        t[0] != dq(),
        has_at(t, 0, tag_prefix(tag)),
        obj_val(t, tag_prefix(tag).len() as int) == Some(time),
        t[6] == tag[4],
{
    let p = tag_prefix(tag);
    let tvs = tv_frame(time);
    lemma_tv_frame_shape(time);
    lemma_tv_roundtrip(time);
    assert(t.len() == p.len() + tvs.len() + 3);
    assert(t[0] == p[0]);
    assert(t.last() == frame_tail()[2]);
    assert(t.last() == rb());
    assert(!is_space_char(lb()));
    assert(!is_space_char(rb()));
    lemma_trim_noop(t);
    lemma_obj_frame(t, p, tvs);
    assert(t[6] == p[6]);
    assert(p[6] == tag[4]);
}

/// Round trip: the canonical frame of every valid message decodes back to
/// exactly that message.
#[verifier::rlimit(60)]
pub proof fn lemma_encode_decode_roundtrip(m: Message)
    requires
        msg_valid(m),
    ensures
        decode_spec(msg_frame(m)) == Some(m),
{
    let t = msg_frame(m);
    match m {
        Message::Start => {
            reveal_strlit("start");
            reveal_strlit("stop");
            reveal_strlit("toggle");
            reveal_strlit("reset");
            reveal_strlit("next-state");
            lemma_keyword_frame(t, "start"@);
        },
        Message::Stop => {
            reveal_strlit("start");
            reveal_strlit("stop");
            reveal_strlit("toggle");
            reveal_strlit("reset");
            reveal_strlit("next-state");
            lemma_keyword_frame(t, "stop"@);
        },
        Message::Toggle => {
            reveal_strlit("start");
            reveal_strlit("stop");
            reveal_strlit("toggle");
            reveal_strlit("reset");
            reveal_strlit("next-state");
            lemma_keyword_frame(t, "toggle"@);
        },
        Message::Reset => {
            reveal_strlit("start");
            reveal_strlit("stop");
            reveal_strlit("toggle");
            reveal_strlit("reset");
            reveal_strlit("next-state");
            lemma_keyword_frame(t, "reset"@);
            assert("reset"@[0] == 'r' && "start"@[0] == 's');
            assert("reset"@ != "start"@);
            assert(decode_spec(t) == Some(m));
        },
        Message::NextState => {
            reveal_strlit("start");
            reveal_strlit("stop");
            reveal_strlit("toggle");
            reveal_strlit("reset");
            reveal_strlit("next-state");
            lemma_keyword_frame(t, "next-state"@);
        },
        Message::SetWork { time } => {
            reveal_strlit("set-work");
            lemma_duration_frame_parts(t, "set-work"@, time);
        },
        Message::SetShort { time } => {
            reveal_strlit("set-work");
            reveal_strlit("set-short");
            lemma_duration_frame_parts(t, "set-short"@, time);
            lemma_prefix_mismatch(t, "set-work"@);
        },
        Message::SetLong { time } => {
            reveal_strlit("set-work");
            reveal_strlit("set-short");
            reveal_strlit("set-long");
            lemma_duration_frame_parts(t, "set-long"@, time);
            lemma_prefix_mismatch(t, "set-work"@);
            lemma_prefix_mismatch(t, "set-short"@);
        },
        Message::SetCurrent { time } => {
            reveal_strlit("set-work");
            reveal_strlit("set-short");
            reveal_strlit("set-long");
            reveal_strlit("set-current");
            lemma_duration_frame_parts(t, "set-current"@, time);
            lemma_prefix_mismatch(t, "set-work"@);
            lemma_prefix_mismatch(t, "set-short"@);
            lemma_prefix_mismatch(t, "set-long"@);
        },
    }
}

/// A frame whose seventh character differs from a tag's fifth character does
/// not open with that tag's prefix.
proof fn lemma_prefix_mismatch(t: Seq<char>, tag: Seq<char>)
    requires
        tag.len() >= 5,
        t.len() > 6,
        t[6] != tag[4],
    ensures
        !has_at(t, 0, tag_prefix(tag)),
{
    let p = tag_prefix(tag);
    assert(p[6] == tag[4]);
    if has_at(t, 0, p) {
        assert(t.subrange(0, p.len() as int)[6] == t[6]);
    }
}

/// A quoted keyword frame trims to itself and carries its keyword.
proof fn lemma_keyword_frame(t: Seq<char>, kw: Seq<char>)
    requires
        t == quoted(kw),
    ensures
        trim_spec(t) == t,
        t.len() >= 2,
        t[0] == dq(),
        t[t.len() - 1] == dq(),
        t.subrange(1, t.len() - 1) == kw,
{
    assert(t.len() == kw.len() + 2);
    assert(t[0] == dq());
    assert(t.last() == dq());
    assert(!is_space_char(dq()));
    lemma_trim_noop(t);
    assert(t.subrange(1, t.len() - 1) =~= kw);
}

} // verus!
