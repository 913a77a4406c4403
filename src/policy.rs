use vstd::prelude::*;
use vstd::string::StringSliceAdditionalSpecFns;
use crate::offset::{ClockOffset, lemma_offset_of_view, offset_limit, offset_of};

verus! {

/// Why a set of policy parameters was rejected.
#[derive(Clone, Copy, Debug, PartialEq, Eq, Structural)]
pub enum ConfigError {
    /// The tick frequency is zero, negative or not a number, so there is no pause to keep.
    NonPositiveFrequency,
    /// The random range `[low, high)` is empty: `low >= high`.
    EmptyRange,
    /// The ramp starts after it ends: `start > end`.
    StartAfterEnd,
    /// The ramp does not advance: `increment` is zero.
    ZeroIncrement,
    /// A duration text could not be read.
    InvalidDuration,
    /// A duration text holds more decimal digits than can be read safely.
    TooManyDigits,
}

/// How the clock offset evolves from tick to tick.
#[derive(Clone, Copy, Debug, PartialEq, Eq, Structural)]
pub enum Policy {
    /// Shift the clock once by `offset`.
    Oneshot { offset: ClockOffset },
    /// Shift by `start`, then by `increment` more at each tick, never beyond `end`;
    /// `tick` is the pause between two shifts.
    Linear { start: ClockOffset, end: ClockOffset, increment: ClockOffset, tick: ClockOffset },
    /// Shift by an offset drawn afresh from `[low, high)` at each tick.
    Random { low: ClockOffset, high: ClockOffset, tick: ClockOffset },
}

/// The most decimal digits a duration text may hold. Below this bound no text
/// can denote `u64::MAX` seconds or more.
pub const MAX_DURATION_DIGITS: usize = 11;

/// Whether `b` is an ASCII decimal digit.
pub open spec fn is_ascii_digit(b: u8) -> bool {
    0x30 <= b && b <= 0x39
}

/// How many of `bytes` are ASCII decimal digits.
pub open spec fn digit_count(bytes: Seq<u8>) -> nat
    decreases bytes.len(),
{
    if bytes.len() == 0 {
        0
    } else {
        digit_count(bytes.drop_last()) + if is_ascii_digit(bytes.last()) { 1nat } else { 0nat }
    }
}

/// A text short enough in digits to be read as a duration: its UTF-8 bytes hold
/// at most `MAX_DURATION_DIGITS` ASCII digits.
pub open spec fn fits_duration_spec(text: &str) -> bool {
    digit_count(text.spec_bytes()) <= MAX_DURATION_DIGITS
}

/// Whether `text` holds few enough digits to be passed to `parse_offset`.
pub fn fits_duration(text: &str) -> (r: bool)
    ensures
        r == fits_duration_spec(text),
{
    let bytes = text.as_bytes();
    let mut count: usize = 0;
    let mut i: usize = 0;
    while i < bytes.len()
        invariant
            bytes@ == text.spec_bytes(),
            0 <= i <= bytes@.len(),
            count == digit_count(bytes@.subrange(0, i as int)),
            count <= i,
        decreases bytes@.len() - i,
    {
        assert(bytes@.subrange(0, i + 1).drop_last() == bytes@.subrange(0, i as int));
        if 0x30 <= bytes[i] && bytes[i] <= 0x39 {
            count = count + 1;
        }
        i = i + 1;
    }
    assert(bytes@.subrange(0, i as int) == bytes@);
    count <= MAX_DURATION_DIGITS
}

/// The length of time, in nanoseconds, that `humantime` reads from a text,
/// or `None` where it reads none.
pub uninterp spec fn human_duration(text: Seq<char>) -> Option<nat>;

/// Relies on `humantime::parse_duration`, which reads a text such as `5s` or
/// `1h 30min` as a duration (it reads `"0"` as zero and rejects an empty text).
///
/// `parse_duration` panics in `Duration::new` when a sum of sub-second spans
/// reaches exactly one second while the seconds already stand at `u64::MAX`.
/// The bound on digits leaves such texts out. Each span adds fewer than
/// `10^d * 31_557_600` seconds (a year, the largest unit), where `d` counts its
/// digits, fraction and nanosecond carries included; with at most 11 digits in
/// all, every running total stays under `10^11 * 31_557_600 < u64::MAX`.
/// humantime reads only `'0'..='9'` as digits, each one byte in UTF-8.
#[verifier::external_body]
fn read_human_duration(text: &str) -> (r: Option<ClockOffset>)
    requires
        fits_duration_spec(text),
    ensures
        r matches Some(o) ==> o.wf(),
        human_duration(text@) == (match r {
            Some(o) => Some(o@),
            None => None::<nat>,
        }),
        text@.len() == 0 ==> r is None,
        text@ == seq!['0'] ==> r == Some(ClockOffset { secs: 0, nanos: 0 }),
{
    match humantime::parse_duration(text) {
        Ok(d) => Some(ClockOffset { secs: d.as_secs(), nanos: d.subsec_nanos() }),
        Err(_) => None,
    }
}

/// Reads a human-readable duration (`100ms`, `5s`, `2h 37min`) as an offset.
/// The text must hold at most `MAX_DURATION_DIGITS` digits: `fits_duration`
/// tells.
pub fn parse_offset(text: &str) -> (r: Result<ClockOffset, ConfigError>)
    requires
        fits_duration_spec(text),
    ensures
        r is Ok <==> human_duration(text@) is Some,
        r matches Ok(o) ==> o.wf() && human_duration(text@) == Some(o@),
        r matches Err(e) ==> e == ConfigError::InvalidDuration,
{
    match read_human_duration(text) {
        Some(o) => Ok(o),
        None => Err(ConfigError::InvalidDuration),
    }
}

/// One advance of a ramp: `current + increment`, capped at `end`.
pub open spec fn ramp_step(current: nat, increment: nat, end: nat) -> nat {
    if current + increment < end {
        current + increment
    } else {
        end
    }
}

/// The offset that a linear ramp applies after `k` advances: `start`, then
/// each time `increment` more, capped at `end`.
pub open spec fn ramp(start: nat, end: nat, increment: nat, k: nat) -> nat
    decreases k,
{
    if k == 0 {
        start
    } else {
        ramp_step(ramp(start, end, increment, (k - 1) as nat), increment, end)
    }
}

/// A linear ramp never decreases and never passes `end`; once it reaches `end`
/// it holds there for every later advance.
pub proof fn lemma_ramp_monotone(start: nat, end: nat, increment: nat, i: nat, j: nat)
    requires
        start <= end,
        i <= j,
    ensures
        ramp(start, end, increment, i) <= ramp(start, end, increment, j),
        ramp(start, end, increment, j) <= end,
        ramp(start, end, increment, i) == end ==> ramp(start, end, increment, j) == end,
    decreases j,
{
    if j > 0 {
        if i < j {
            lemma_ramp_monotone(start, end, increment, i, (j - 1) as nat);
        } else {
            lemma_ramp_monotone(start, end, increment, (j - 1) as nat, (j - 1) as nat);
        }
    }
}

/// The error that validating ramp parameters gives, if any; the frequency is
/// checked first, then the order of the bounds, then the increment.
pub open spec fn linear_error(start: nat, end: nat, increment: nat, tick: Option<ClockOffset>) -> Option<ConfigError> {
    if tick is None {
        Some(ConfigError::NonPositiveFrequency)
    } else if start > end {
        Some(ConfigError::StartAfterEnd)
    } else if increment == 0 {
        Some(ConfigError::ZeroIncrement)
    } else {
        None
    }
}

/// The error that validating random-range parameters gives, if any; the
/// frequency is checked first.
pub open spec fn random_error(low: nat, high: nat, tick: Option<ClockOffset>) -> Option<ConfigError> {
    if tick is None {
        Some(ConfigError::NonPositiveFrequency)
    } else if low >= high {
        Some(ConfigError::EmptyRange)
    } else {
        None
    }
}

impl Policy {
    /// All offsets are normalized and the variant's own invariant holds.
    pub open spec fn wf(self) -> bool {
        match self {
            Policy::Oneshot { offset } => offset.wf(),
            Policy::Linear { start, end, increment, tick } => {
                &&& start.wf() && end.wf() && increment.wf() && tick.wf()
                &&& start@ <= end@
                &&& increment@ > 0
            },
            Policy::Random { low, high, tick } => {
                &&& low.wf() && high.wf() && tick.wf()
                &&& low@ < high@
            },
        }
    }

    /// The one-shot policy for `offset`; every offset is valid for it.
    pub fn oneshot(offset: ClockOffset) -> (r: Policy)
        requires
            offset.wf(),
        ensures
            r.wf(),
            r == (Policy::Oneshot { offset }),
    {
        Policy::Oneshot { offset }
    }

    /// A linear ramp from `start` to `end` by `increment`, pausing `tick`
    /// between shifts; `tick` is `None` where the frequency it comes from is not
    /// positive. Invalid parameters are rejected before any clock is touched.
    pub fn linear(start: ClockOffset, end: ClockOffset, increment: ClockOffset, tick: Option<ClockOffset>) -> (r: Result<Policy, ConfigError>)
        requires
            start.wf(),
            end.wf(),
            increment.wf(),
            tick matches Some(t) ==> t.wf(),
        ensures
            r is Err <==> linear_error(start@, end@, increment@, tick) is Some,
            r matches Err(e) ==> linear_error(start@, end@, increment@, tick) == Some(e),
            r matches Ok(p) ==> p.wf() && p == (Policy::Linear { start, end, increment, tick: tick.unwrap() }),
    {
        match tick {
            None => Err(ConfigError::NonPositiveFrequency),
            Some(t) => {
                if end.lt(&start) {
                    Err(ConfigError::StartAfterEnd)
                } else if !ClockOffset::zero().lt(&increment) {
                    Err(ConfigError::ZeroIncrement)
                } else {
                    Ok(Policy::Linear { start, end, increment, tick: t })
                }
            },
        }
    }

    /// A random policy drawing from `[low, high)`, pausing `tick` between
    /// shifts; `tick` is `None` where the frequency it comes from is not positive.
    pub fn random(low: ClockOffset, high: ClockOffset, tick: Option<ClockOffset>) -> (r: Result<Policy, ConfigError>)
        requires
            low.wf(),
            high.wf(),
            tick matches Some(t) ==> t.wf(),
        ensures
            r is Err <==> random_error(low@, high@, tick) is Some,
            r matches Err(e) ==> random_error(low@, high@, tick) == Some(e),
            r matches Ok(p) ==> p.wf() && p == (Policy::Random { low, high, tick: tick.unwrap() }),
    {
        match tick {
            None => Err(ConfigError::NonPositiveFrequency),
            Some(t) => {
                if low.lt(&high) {
                    Ok(Policy::Random { low, high, tick: t })
                } else {
                    Err(ConfigError::EmptyRange)
                }
            },
        }
    }
}

/// One step of a linear ramp: `current + increment`, capped at `end`. Where the
/// sum does not even fit an offset it lies past `end`, so `end` is the answer.
pub fn advance_ramp(current: &ClockOffset, increment: &ClockOffset, end: &ClockOffset) -> (r: ClockOffset)
    requires
        current.wf(),
        increment.wf(),
        end.wf(),
    ensures
        r.wf(),
        r@ == ramp_step(current@, increment@, end@),
        r == offset_of(ramp_step(current@, increment@, end@)),
{
    proof {
        lemma_offset_of_view(*end);
    }
    match current.checked_add(increment) {
        Some(next) => {
            if next.lt(end) {
                proof {
                    lemma_offset_of_view(next);
                }
                next
            } else {
                *end
            }
        },
        None => {
            assert(end@ < offset_limit()) by (nonlinear_arith)
                requires end@ == end.secs * 1_000_000_000 + end.nanos, end.nanos < 1_000_000_000u32;
            *end
        },
    }
}

} // verus!
