use vstd::prelude::*;

use crate::message::{DecodeError, Message};
use crate::strutil::{all_digits, dec_val, parse_num_range};

verus! {

/// A duration argument as the control tool reads it from the command line:
/// a bare number of minutes sets, a trailing sign adjusts.
#[derive(Debug, Clone, Copy, PartialEq, Eq, Structural)]
pub enum TimeValue {
    Absolute(u16),
    Add(i16),
    Subtract(i16),
}

/// One operation of the control tool.
#[derive(Debug, Clone, Copy, PartialEq, Eq, Structural)]
pub enum Operation {
    Toggle,
    Start,
    Stop,
    Reset,
    SetWork { value: TimeValue },
    SetShort { value: TimeValue },
    SetLong { value: TimeValue },
    SetCurrent { value: TimeValue },
    NextState,
}

/// The control tool's parsed command line: an optional target instance and
/// the operation to send.
pub struct ControlCli {
    pub instance: Option<u16>,
    pub operation: Operation,
}

/// A signed decimal: an optional sign, then digits; no bound applied.
pub open spec fn signed_val(s: Seq<char>) -> Option<int> {
    let signed = s.len() > 0 && (s[0] == '+' || s[0] == '-');
    let ds = if signed {
        s.skip(1)
    } else {
        s
    };
    if ds.len() == 0 || !all_digits(ds) {
        None
    } else if signed && s[0] == '-' {
        Some(-(dec_val(ds) as int))
    } else {
        Some(dec_val(ds) as int)
    }
}

/// A command-line time value as its text reads: a trailing `+` or `-` makes
/// a relative adjustment of the signed number before it, anything else is an
/// absolute number of minutes.
pub open spec fn ctl_tv_parse(s: Seq<char>) -> Option<TimeValue> {
    if s.len() > 0 && s[s.len() - 1] == '+' {
        match signed_val(s.take(s.len() - 1)) {
            Some(v) => if -0x8000 <= v <= 0x7fff {
                Some(TimeValue::Add((v as i16)))
            } else {
                None
            },
            None => None,
        }
    } else if s.len() > 0 && s[s.len() - 1] == '-' {
        match signed_val(s.take(s.len() - 1)) {
            Some(v) => if -0x8000 <= v <= 0x7fff {
                Some(TimeValue::Subtract((v as i16)))
            } else {
                None
            },
            None => None,
        }
    } else {
        match signed_val(s) {
            Some(v) => if 0 <= v <= 0xffff {
                Some(TimeValue::Absolute((v as u16)))
            } else {
                None
            },
            None => None,
        }
    }
}

/// Read the signed number in `s` between `from` and `to`; `neg_bound` and
/// `pos_bound` cap its magnitude on each side.
fn parse_signed_range(s: &str, from: usize, to: usize, neg_bound: u64, pos_bound: u64) -> (r:
    Option<i32>)
    requires
        from <= to <= s@.len(),
        neg_bound <= 0x8000_0000u64,
        pos_bound <= 0x7fff_ffffu64,
    ensures
        ({
            let sub = s@.subrange(from as int, to as int);
            match signed_val(sub) {
                Some(v) => if -(neg_bound as int) <= v <= pos_bound as int {
                    r == Some((v as i32))
                } else {
                    r is None
                },
                None => r is None,
            }
        }),
{
    if from == to {
        return None;
    }
    let c0 = s.get_char(from);
    let neg = c0 == '-';
    let dstart: usize = if c0 == '-' || c0 == '+' {
        from + 1
    } else {
        from
    };
    proof {
        let sub = s@.subrange(from as int, to as int);
        assert(sub[0] == s@[from as int]);
        if c0 == '-' || c0 == '+' {
            assert(sub.skip(1) =~= s@.subrange(from + 1, to as int));
        } else {
            assert(sub =~= s@.subrange(from as int, to as int));
        }
    }
    let bound: u64 = if neg {
        neg_bound
    } else {
        pos_bound
    };
    match parse_num_range(s, dstart, to, bound) {
        Some(v) => {
            if neg {
                let sv: i64 = -(v as i64);
                Some(sv as i32)
            } else {
                Some(v as i32)
            }
        },
        None => None,
    }
}

/// Read a command-line time value, as the control tool's argument parser
/// does.
pub fn parse_time_value(s: &str) -> (r: Result<TimeValue, DecodeError>)
    ensures
        (match r {
            Ok(tv) => ctl_tv_parse(s@) == Some(tv),
            Err(e) => ctl_tv_parse(s@) is None && e == DecodeError::Invalid,
        }),
{
    let len = s.unicode_len();
    if len > 0 && s.get_char(len - 1) == '+' {
        proof {
            assert(s@.take(len - 1) =~= s@.subrange(0, len - 1));
        }
        match parse_signed_range(s, 0, len - 1, 0x8000u64, 0x7fffu64) {
            Some(v) => Ok(TimeValue::Add(v as i16)),
            None => Err(DecodeError::Invalid),
        }
    } else if len > 0 && s.get_char(len - 1) == '-' {
        proof {
            assert(s@.take(len - 1) =~= s@.subrange(0, len - 1));
        }
        match parse_signed_range(s, 0, len - 1, 0x8000u64, 0x7fffu64) {
            Some(v) => Ok(TimeValue::Subtract(v as i16)),
            None => Err(DecodeError::Invalid),
        }
    } else {
        proof {
            assert(s@.take(len as int) =~= s@.subrange(0, len as int));
            assert(s@.subrange(0, len as int) =~= s@);
        }
        match parse_signed_range(s, 0, len, 0u64, 0xffffu64) {
            Some(v) => Ok(TimeValue::Absolute(v as u16)),
            None => Err(DecodeError::Invalid),
        }
    }
}

/// The wire time value that a command-line time value stands for.
pub open spec fn tv_message_spec(value: TimeValue) -> crate::message::TimeValue {
    match value {
        TimeValue::Absolute(m) => crate::message::TimeValue::Absolute(m),
        TimeValue::Add(d) => crate::message::TimeValue::Add(d),
        TimeValue::Subtract(d) => crate::message::TimeValue::Subtract(d),
    }
}

/// The message that a command-line operation stands for.
pub open spec fn operation_message_spec(op: Operation) -> Message {
    match op {
        Operation::Toggle => Message::Toggle,
        Operation::Start => Message::Start,
        Operation::Stop => Message::Stop,
        Operation::Reset => Message::Reset,
        Operation::NextState => Message::NextState,
        Operation::SetWork { value } => Message::SetWork { time: tv_message_spec(value) },
        Operation::SetShort { value } => Message::SetShort { time: tv_message_spec(value) },
        Operation::SetLong { value } => Message::SetLong { time: tv_message_spec(value) },
        Operation::SetCurrent { value } => Message::SetCurrent { time: tv_message_spec(value) },
    }
}

/// The slot a command-line duration operation addresses, if any.
pub fn time_value_to_message(value: &TimeValue, cycle: Option<crate::timer::CycleType>) -> (r:
    Message)
    ensures
        r == (match cycle {
            Some(crate::timer::CycleType::Work) => Message::SetWork {
                time: tv_message_spec(*value),
            },
            Some(crate::timer::CycleType::ShortBreak) => Message::SetShort {
                time: tv_message_spec(*value),
            },
            Some(crate::timer::CycleType::LongBreak) => Message::SetLong {
                time: tv_message_spec(*value),
            },
            None => Message::SetCurrent { time: tv_message_spec(*value) },
        }),
{
    let time = match value {
        TimeValue::Absolute(m) => crate::message::TimeValue::Absolute(*m),
        TimeValue::Add(d) => crate::message::TimeValue::Add(*d),
        TimeValue::Subtract(d) => crate::message::TimeValue::Subtract(*d),
    };
    match cycle {
        Some(crate::timer::CycleType::Work) => Message::SetWork { time },
        Some(crate::timer::CycleType::ShortBreak) => Message::SetShort { time },
        Some(crate::timer::CycleType::LongBreak) => Message::SetLong { time },
        None => Message::SetCurrent { time },
    }
}

impl Operation {
    /// The wire message this operation sends.
    pub fn to_message(&self) -> (r: Message)
        ensures
            r == operation_message_spec(*self),
    {
        match self {
            Operation::Toggle => Message::Toggle,
            Operation::Start => Message::Start,
            Operation::Stop => Message::Stop,
            Operation::Reset => Message::Reset,
            Operation::NextState => Message::NextState,
            Operation::SetWork { value } => time_value_to_message(
                value,
                Some(crate::timer::CycleType::Work),
            ),
            Operation::SetShort { value } => time_value_to_message(
                value,
                Some(crate::timer::CycleType::ShortBreak),
            ),
            Operation::SetLong { value } => time_value_to_message(
                value,
                Some(crate::timer::CycleType::LongBreak),
            ),
            Operation::SetCurrent { value } => time_value_to_message(value, None),
        }
    }
}

} // verus!
