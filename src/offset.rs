use vstd::prelude::*;

verus! {

/// Nanoseconds in one second.
pub const NANOS_PER_SEC: u32 = 1_000_000_000;

/// The largest seconds count that the system clock can be set to
/// (the range of a signed 64-bit `time_t`).
pub const MAX_CLOCK_SECS: u64 = 9_223_372_036_854_775_807;

/// A forward shift of the clock: whole seconds and a sub-second part.
#[derive(Clone, Copy, Debug, PartialEq, Eq, Structural)]
pub struct ClockOffset {
    pub secs: u64,
    pub nanos: u32,
}

/// A reading of the real-time clock: time elapsed since the epoch.
#[derive(Clone, Copy, Debug, PartialEq, Eq, Structural)]
pub struct Timestamp {
    pub secs: u64,
    pub nanos: u32,
}

/// The system-clock operation that failed.
#[derive(Clone, Copy, Debug, PartialEq, Eq, Structural)]
pub enum ClockCall {
    Read,
    Write,
}

/// Why the clock could not be moved.
#[derive(Clone, Copy, Debug, PartialEq, Eq, Structural)]
pub enum ClockError {
    /// The operating system refused a read or a write, with its error code.
    SyscallFailed { call: ClockCall, code: i32 },
    /// The shifted time lies beyond what the clock can hold.
    Overflow,
}

/// Nanoseconds denoted by a seconds count and a sub-second part.
pub open spec fn nanos_of(secs: u64, nanos: u32) -> nat {
    (secs as nat) * (NANOS_PER_SEC as nat) + (nanos as nat)
}

/// One past the largest length, in nanoseconds, that a `ClockOffset` can hold.
pub open spec fn offset_limit() -> nat {
    (u64::MAX as nat + 1) * (NANOS_PER_SEC as nat)
}

/// One past the latest time, in nanoseconds since the epoch, that the clock can hold.
pub open spec fn clock_limit() -> nat {
    (MAX_CLOCK_SECS as nat + 1) * (NANOS_PER_SEC as nat)
}

impl View for ClockOffset {
    type V = nat;

    /// The length of the offset in nanoseconds.
    open spec fn view(&self) -> nat {
        nanos_of(self.secs, self.nanos)
    }
}

impl View for Timestamp {
    type V = nat;

    /// Nanoseconds since the epoch.
    open spec fn view(&self) -> nat {
        nanos_of(self.secs, self.nanos)
    }
}

/// The normalized offset of `n` nanoseconds.
pub open spec fn offset_of(n: nat) -> ClockOffset {
    ClockOffset { secs: (n / (NANOS_PER_SEC as nat)) as u64, nanos: (n % (NANOS_PER_SEC as nat)) as u32 }
}

/// A normalized offset is the one that its length denotes.
pub proof fn lemma_offset_of_view(o: ClockOffset)
    requires
        o.wf(),
    ensures
        offset_of(o@) == o,
{
    vstd::arithmetic::div_mod::lemma_fundamental_div_mod_converse(
        o@ as int,
        NANOS_PER_SEC as int,
        o.secs as int,
        o.nanos as int,
    );
}

/// Every length below the limit is denoted by a normalized offset.
pub proof fn lemma_offset_of_nanos(n: nat)
    requires
        n < offset_limit(),
    ensures
        offset_of(n).wf(),
        offset_of(n)@ == n,
{
    let d = NANOS_PER_SEC as int;
    vstd::arithmetic::div_mod::lemma_fundamental_div_mod(n as int, d);
    vstd::arithmetic::div_mod::lemma_mod_bound(n as int, d);
    let q = n as int / d;
    let m = n as int % d;
    assert(q <= u64::MAX) by (nonlinear_arith)
        requires
            n == d * q + m,
            0 <= m,
            d == 1_000_000_000,
            n < (u64::MAX + 1) * 1_000_000_000,
    ;
    vstd::arithmetic::div_mod::lemma_div_pos_is_pos(n as int, d);
}

/// Lexicographic order on (seconds, nanoseconds) is the order of lengths.
proof fn lemma_order(s1: u64, n1: u32, s2: u64, n2: u32)
    requires
        n1 < NANOS_PER_SEC,
        n2 < NANOS_PER_SEC,
    ensures
        (s1 < s2 || (s1 == s2 && n1 < n2)) <==> nanos_of(s1, n1) < nanos_of(s2, n2),
{
    if s1 < s2 {
        assert(nanos_of(s1, n1) < nanos_of(s2, n2)) by (nonlinear_arith)
            requires s1 < s2, n1 < 1_000_000_000u32, n2 >= 0;
    } else if s1 > s2 {
        assert(nanos_of(s1, n1) > nanos_of(s2, n2)) by (nonlinear_arith)
            requires s1 > s2, n2 < 1_000_000_000u32, n1 >= 0;
    }
}

/// Adds two normalized (seconds, nanoseconds) pairs, carrying into the seconds;
/// `None` where the seconds overflow `u64`.
fn add_parts(s1: u64, n1: u32, s2: u64, n2: u32) -> (r: Option<(u64, u32)>)
    requires
        n1 < NANOS_PER_SEC,
        n2 < NANOS_PER_SEC,
    ensures
        r is Some <==> nanos_of(s1, n1) + nanos_of(s2, n2) < offset_limit(),
        r matches Some((s, n)) ==> n < NANOS_PER_SEC && nanos_of(s, n) == nanos_of(s1, n1)
            + nanos_of(s2, n2),
{
    let sum: u32 = n1 + n2;
    let (carry, nanos): (u64, u32) = if sum >= NANOS_PER_SEC {
        (1, sum - NANOS_PER_SEC)
    } else {
        (0, sum)
    };
    assert(nanos_of(s1, n1) + nanos_of(s2, n2) == (s1 + s2 + carry) * 1_000_000_000 + nanos)
        by (nonlinear_arith)
        requires
            sum == n1 + n2,
            carry * 1_000_000_000 + nanos == sum,
    ;
    if s1 as u128 + s2 as u128 + carry as u128 > u64::MAX as u128 {
        assert((s1 + s2 + carry) * 1_000_000_000 + nanos >= offset_limit()) by (nonlinear_arith)
            requires s1 + s2 + carry > u64::MAX;
        None
    } else {
        let secs: u64 = s1 + s2 + carry;
        assert((s1 + s2 + carry) * 1_000_000_000 + nanos < offset_limit()) by (nonlinear_arith)
            requires s1 + s2 + carry <= u64::MAX, nanos < 1_000_000_000u32;
        Some((secs, nanos))
    }
}

impl ClockOffset {
    /// Seconds and nanoseconds are normalized: the sub-second part is under one second.
    pub open spec fn wf(self) -> bool {
        self.nanos < NANOS_PER_SEC
    }

    /// The offset of `secs` seconds and `nanos` nanoseconds.
    pub fn new(secs: u64, nanos: u32) -> (r: ClockOffset)
        requires
            nanos < NANOS_PER_SEC,
        ensures
            r.wf(),
            r.secs == secs,
            r.nanos == nanos,
            r@ == nanos_of(secs, nanos),
    {
        ClockOffset { secs, nanos }
    }

    /// The empty offset.
    pub fn zero() -> (r: ClockOffset)
        ensures
            r.wf(),
            r@ == 0,
    {
        ClockOffset { secs: 0, nanos: 0 }
    }

    /// Whether `self` is shorter than `other`.
    pub fn lt(&self, other: &ClockOffset) -> (r: bool)
        requires
            self.wf(),
            other.wf(),
        ensures
            r == (self@ < other@),
    {
        proof {
            lemma_order(self.secs, self.nanos, other.secs, other.nanos);
        }
        self.secs < other.secs || (self.secs == other.secs && self.nanos < other.nanos)
    }

    /// The sum of two offsets; `None` where it does not fit.
    pub fn checked_add(&self, other: &ClockOffset) -> (r: Option<ClockOffset>)
        requires
            self.wf(),
            other.wf(),
        ensures
            r is Some <==> self@ + other@ < offset_limit(),
            r matches Some(o) ==> o.wf() && o@ == self@ + other@,
    {
        match add_parts(self.secs, self.nanos, other.secs, other.nanos) {
            Some((secs, nanos)) => Some(ClockOffset { secs, nanos }),
            None => None,
        }
    }
}

impl Timestamp {
    /// Normalized, and within the range the clock can be set to.
    pub open spec fn wf(self) -> bool {
        self.nanos < NANOS_PER_SEC && self.secs <= MAX_CLOCK_SECS
    }

    /// The time `secs` seconds and `nanos` nanoseconds after the epoch.
    pub fn new(secs: u64, nanos: u32) -> (r: Timestamp)
        requires
            nanos < NANOS_PER_SEC,
            secs <= MAX_CLOCK_SECS,
        ensures
            r.wf(),
            r.secs == secs,
            r.nanos == nanos,
    {
        Timestamp { secs, nanos }
    }

    /// The time `offset` after `self`: the target of a clock adjustment.
    /// Fails with `Overflow` exactly when that time lies past what the clock can hold;
    /// a result is never clamped.
    pub fn add_offset(&self, offset: &ClockOffset) -> (r: Result<Timestamp, ClockError>)
        requires
            self.wf(),
            offset.wf(),
        ensures
            r is Ok <==> self@ + offset@ < clock_limit(),
            r matches Ok(t) ==> t.wf() && t@ == self@ + offset@,
            r matches Err(e) ==> e == ClockError::Overflow,
    {
        match add_parts(self.secs, self.nanos, offset.secs, offset.nanos) {
            Some((secs, nanos)) => {
                if secs <= MAX_CLOCK_SECS {
                    assert(nanos_of(secs, nanos) < clock_limit()) by (nonlinear_arith)
                        requires secs <= MAX_CLOCK_SECS, nanos < 1_000_000_000u32;
                    Ok(Timestamp { secs, nanos })
                } else {
                    assert(nanos_of(secs, nanos) >= clock_limit()) by (nonlinear_arith)
                        requires secs > MAX_CLOCK_SECS;
                    Err(ClockError::Overflow)
                }
            },
            None => {
                assert(clock_limit() <= offset_limit());
                Err(ClockError::Overflow)
            },
        }
    }
}

} // verus!
