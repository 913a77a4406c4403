use clockshift::{
    advance_ramp, fits_duration, parse_offset, ClockCall, ClockError, ClockOffset, Command, ConfigError, Phase,
    Policy, Scheduler, Timestamp,
};

fn ms(n: u64) -> ClockOffset {
    ClockOffset::new(n / 1000, ((n % 1000) * 1_000_000) as u32)
}

fn secs(n: u64) -> ClockOffset {
    ClockOffset::new(n, 0)
}

fn nanos(o: &ClockOffset) -> u128 {
    o.secs as u128 * 1_000_000_000 + o.nanos as u128
}

/// A stand-in for the system clock that records every write.
struct FakeClock {
    now: Timestamp,
    writes: Vec<Timestamp>,
    sleeps: usize,
    fail_on_write: Option<usize>,
}

impl FakeClock {
    fn new(fail_on_write: Option<usize>) -> FakeClock {
        FakeClock { now: Timestamp::new(1_000, 0), writes: Vec::new(), sleeps: 0, fail_on_write }
    }

    fn apply(&mut self, offset: &ClockOffset) -> Result<(), ClockError> {
        if self.fail_on_write == Some(self.writes.len()) {
            return Err(ClockError::SyscallFailed { call: ClockCall::Write, code: 1 });
        }
        let target = self.now.add_offset(offset)?;
        self.now = target;
        self.writes.push(target);
        Ok(())
    }
}

/// Runs a validated policy against the fake clock for at most `max_steps` steps.
fn drive(policy: Result<Policy, ConfigError>, clock: &mut FakeClock, max_steps: usize) -> Vec<Command> {
    let mut commands = Vec::new();
    let policy = match policy {
        Ok(p) => p,
        Err(_) => return commands,
    };
    let mut scheduler = Scheduler::new(policy);
    let mut done: Result<(), ClockError> = Ok(());
    for _ in 0..max_steps {
        let command = scheduler.step(done);
        commands.push(command);
        done = match command {
            Command::Apply { offset } => clock.apply(&offset),
            Command::Sleep { .. } => {
                clock.sleeps += 1;
                Ok(())
            }
            Command::Finish | Command::Abort { .. } => break,
        };
    }
    commands
}

fn applied(commands: &[Command]) -> Vec<ClockOffset> {
    commands
        .iter()
        .filter_map(|c| match c {
            Command::Apply { offset } => Some(*offset),
            _ => None,
        })
        .collect()
}

#[test]
fn add_offset_carries_nanoseconds_into_seconds() {
    let now = Timestamp::new(10, 800_000_000);
    let target = now.add_offset(&ClockOffset::new(0, 300_000_000)).unwrap();
    assert_eq!(target, Timestamp::new(11, 100_000_000));
}

#[test]
fn add_offset_without_carry() {
    let now = Timestamp::new(1_700_000_000, 250);
    let target = now.add_offset(&ClockOffset::new(5, 750)).unwrap();
    assert_eq!(target, Timestamp::new(1_700_000_005, 1_000));
}

#[test]
fn add_offset_exact_second_boundary() {
    let now = Timestamp::new(0, 999_999_999);
    let target = now.add_offset(&ClockOffset::new(0, 1)).unwrap();
    assert_eq!(target, Timestamp::new(1, 0));
}

#[test]
fn add_offset_zero_keeps_time() {
    let now = Timestamp::new(42, 7);
    assert_eq!(now.add_offset(&ClockOffset::zero()), Ok(now));
}

#[test]
fn add_offset_reports_overflow() {
    let last = Timestamp::new(9_223_372_036_854_775_807, 999_999_999);
    assert_eq!(last.add_offset(&ClockOffset::new(0, 1)), Err(ClockError::Overflow));
    let now = Timestamp::new(1_000, 0);
    assert_eq!(now.add_offset(&ClockOffset::new(u64::MAX, 0)), Err(ClockError::Overflow));
    let edge = Timestamp::new(9_223_372_036_854_775_806, 500_000_000);
    assert_eq!(
        edge.add_offset(&ClockOffset::new(0, 499_999_999)),
        Ok(Timestamp::new(9_223_372_036_854_775_806, 999_999_999))
    );
    assert_eq!(
        edge.add_offset(&ClockOffset::new(0, 600_000_000)),
        Ok(Timestamp::new(9_223_372_036_854_775_807, 100_000_000))
    );
    assert_eq!(edge.add_offset(&ClockOffset::new(1, 500_000_000)), Err(ClockError::Overflow));
}

#[test]
fn offsets_add_and_compare() {
    assert_eq!(ms(1_700).checked_add(&ms(2_600)), Some(ms(4_300)));
    assert_eq!(ClockOffset::new(u64::MAX, 999_999_999).checked_add(&ClockOffset::new(0, 1)), None);
    assert!(ms(999).lt(&secs(1)));
    assert!(!secs(1).lt(&secs(1)));
    assert!(!ClockOffset::new(2, 0).lt(&ClockOffset::new(1, 999_999_999)));
}

#[test]
fn parse_offset_reads_human_durations() {
    assert_eq!(parse_offset("5s"), Ok(secs(5)));
    assert_eq!(parse_offset("100ms"), Ok(ms(100)));
    assert_eq!(parse_offset("2h 37min"), Ok(secs(9_420)));
    assert_eq!(parse_offset("4.2s"), Ok(ClockOffset::new(4, 200_000_000)));
    assert_eq!(parse_offset("0"), Ok(ClockOffset::zero()));
}

#[test]
fn parse_offset_rejects_bad_text() {
    assert_eq!(parse_offset(""), Err(ConfigError::InvalidDuration));
    assert_eq!(parse_offset("soon"), Err(ConfigError::InvalidDuration));
    assert_eq!(parse_offset("5 parsecs"), Err(ConfigError::InvalidDuration));
}

#[test]
fn fits_duration_counts_digits() {
    assert!(fits_duration(""));
    assert!(fits_duration("2h 37min"));
    assert!(fits_duration("12345678901ns"));
    assert!(!fits_duration("123456789012ns"));
    assert!(fits_duration("1 2 3 4 5 6 7 8 9 0 1"));
    assert!(!fits_duration("1 2 3 4 5 6 7 8 9 0 1 2"));
    assert!(fits_duration("5µs"));
    assert!(!fits_duration("18446744073709551615s 500ms 500ms"));
    assert!(!fits_duration("584542046090y19767615s1000ms"));
}

#[test]
fn parse_offset_at_the_digit_limit() {
    assert_eq!(parse_offset("99999999999y"), Ok(secs(99_999_999_999 * 31_557_600)));
    assert_eq!(parse_offset("1000ms"), Ok(secs(1)));
    assert_eq!(parse_offset("500ms 500ms"), Ok(secs(1)));
}

#[test]
fn linear_validation_rejects_bad_parameters() {
    let tick = Some(ms(500));
    assert_eq!(Policy::linear(secs(1), secs(3), secs(1), None), Err(ConfigError::NonPositiveFrequency));
    assert_eq!(Policy::linear(secs(4), secs(3), secs(1), tick), Err(ConfigError::StartAfterEnd));
    assert_eq!(Policy::linear(secs(1), secs(3), ClockOffset::zero(), tick), Err(ConfigError::ZeroIncrement));
    assert_eq!(Policy::linear(secs(4), secs(3), ClockOffset::zero(), None), Err(ConfigError::NonPositiveFrequency));
    assert_eq!(
        Policy::linear(secs(3), secs(3), ms(1), tick),
        Ok(Policy::Linear { start: secs(3), end: secs(3), increment: ms(1), tick: ms(500) })
    );
}

#[test]
fn random_validation_rejects_bad_parameters() {
    let tick = Some(secs(1));
    assert_eq!(Policy::random(secs(1), secs(2), None), Err(ConfigError::NonPositiveFrequency));
    assert_eq!(Policy::random(secs(2), secs(2), tick), Err(ConfigError::EmptyRange));
    assert_eq!(Policy::random(secs(3), secs(2), tick), Err(ConfigError::EmptyRange));
    assert_eq!(
        Policy::random(secs(1), ClockOffset::new(1, 1), tick),
        Ok(Policy::Random { low: secs(1), high: ClockOffset::new(1, 1), tick: secs(1) })
    );
}

#[test]
fn rejected_configuration_never_touches_the_clock() {
    let attempts = [
        Policy::linear(secs(1), secs(3), secs(1), None),
        Policy::linear(secs(5), secs(3), secs(1), Some(secs(1))),
        Policy::random(secs(2), secs(1), Some(secs(1))),
        Policy::random(secs(1), secs(1), Some(secs(1))),
        Policy::random(secs(1), secs(2), None),
    ];
    for attempt in attempts {
        let mut clock = FakeClock::new(None);
        let commands = drive(attempt, &mut clock, 10);
        assert!(commands.is_empty());
        assert!(clock.writes.is_empty());
        assert_eq!(clock.sleeps, 0);
    }
}

#[test]
fn advance_ramp_adds_and_caps() {
    assert_eq!(advance_ramp(&secs(1), &secs(1), &secs(3)), secs(2));
    assert_eq!(advance_ramp(&secs(2), &secs(1), &secs(3)), secs(3));
    assert_eq!(advance_ramp(&secs(3), &secs(1), &secs(3)), secs(3));
    assert_eq!(advance_ramp(&ms(2_400), &ms(700), &secs(3)), secs(3));
    assert_eq!(advance_ramp(&ms(800), &ms(300), &secs(3)), ms(1_100));
    let huge = ClockOffset::new(u64::MAX, 0);
    assert_eq!(advance_ramp(&huge, &huge, &ClockOffset::new(u64::MAX, 5)), ClockOffset::new(u64::MAX, 5));
}

#[test]
fn linear_run_ramps_then_holds_at_end() {
    let policy = Policy::linear(ClockOffset::zero(), ms(2_500), secs(1), Some(ms(250)));
    let mut clock = FakeClock::new(None);
    let commands = drive(policy, &mut clock, 12);
    assert_eq!(commands[0], Command::Apply { offset: ClockOffset::zero() });
    assert_eq!(commands[1], Command::Sleep { pause: ms(250) });
    assert_eq!(applied(&commands), vec![ClockOffset::zero(), secs(1), secs(2), ms(2_500), ms(2_500), ms(2_500)]);
    assert_eq!(clock.sleeps, 6);
    assert_eq!(clock.writes.len(), 6);
    assert_eq!(clock.now, Timestamp::new(1_010, 500_000_000));
}

#[test]
fn linear_run_is_non_decreasing_and_bounded() {
    let end = ms(7_300);
    let policy = Policy::linear(ms(1_100), end, ms(900), Some(ms(10)));
    let mut clock = FakeClock::new(None);
    let offsets = applied(&drive(policy, &mut clock, 60));
    assert_eq!(offsets.len(), 30);
    let mut reached = false;
    for pair in offsets.windows(2) {
        assert!(nanos(&pair[0]) <= nanos(&pair[1]));
    }
    for o in &offsets {
        assert!(nanos(o) <= nanos(&end));
        if reached {
            assert_eq!(*o, end);
        }
        reached = reached || *o == end;
    }
    assert!(reached);
}

#[test]
fn oneshot_applies_once_and_finishes() {
    let mut clock = FakeClock::new(None);
    let commands = drive(Ok(Policy::oneshot(ClockOffset::new(86_400, 5))), &mut clock, 10);
    assert_eq!(commands, vec![Command::Apply { offset: ClockOffset::new(86_400, 5) }, Command::Finish]);
    assert_eq!(clock.writes, vec![Timestamp::new(87_400, 5)]);
    assert_eq!(clock.sleeps, 0);
}

#[test]
fn oneshot_stays_finished() {
    let mut scheduler = Scheduler::new(Policy::oneshot(ClockOffset::zero()));
    assert_eq!(scheduler.step(Ok(())), Command::Apply { offset: ClockOffset::zero() });
    assert_eq!(scheduler.step(Ok(())), Command::Finish);
    assert_eq!(scheduler.phase, Phase::Finished);
    assert_eq!(scheduler.step(Ok(())), Command::Finish);
    let error = ClockError::SyscallFailed { call: ClockCall::Read, code: 22 };
    assert_eq!(scheduler.step(Err(error)), Command::Finish);
}

#[test]
fn oneshot_failure_aborts() {
    let mut clock = FakeClock::new(Some(0));
    let commands = drive(Ok(Policy::oneshot(secs(3))), &mut clock, 10);
    let error = ClockError::SyscallFailed { call: ClockCall::Write, code: 1 };
    assert_eq!(commands, vec![Command::Apply { offset: secs(3) }, Command::Abort { error }]);
}

#[test]
fn linear_run_stops_at_first_failure() {
    let policy = Policy::linear(secs(1), secs(10), secs(1), Some(ms(100)));
    let mut clock = FakeClock::new(Some(2));
    let commands = drive(policy, &mut clock, 50);
    let error = ClockError::SyscallFailed { call: ClockCall::Write, code: 1 };
    assert_eq!(applied(&commands), vec![secs(1), secs(2), secs(3)]);
    assert_eq!(commands.last(), Some(&Command::Abort { error }));
    assert_eq!(clock.writes.len(), 2);
    assert_eq!(clock.sleeps, 2);
}

#[test]
fn random_run_stops_at_first_failure() {
    let policy = Policy::random(ms(10), ms(20), Some(ms(1)));
    let mut clock = FakeClock::new(Some(0));
    let commands = drive(policy, &mut clock, 50);
    let error = ClockError::SyscallFailed { call: ClockCall::Write, code: 1 };
    assert_eq!(commands.len(), 2);
    assert!(matches!(commands[0], Command::Apply { .. }));
    assert_eq!(commands[1], Command::Abort { error });
    assert_eq!(clock.sleeps, 0);
}

#[test]
fn aborted_scheduler_keeps_aborting() {
    let mut scheduler = Scheduler::new(Policy::linear(secs(1), secs(2), secs(1), Some(secs(1))).unwrap());
    let error = ClockError::SyscallFailed { call: ClockCall::Read, code: 1 };
    assert_eq!(scheduler.step(Ok(())), Command::Apply { offset: secs(1) });
    assert_eq!(scheduler.step(Err(error)), Command::Abort { error });
    assert_eq!(scheduler.phase, Phase::Aborted { error });
    assert_eq!(scheduler.step(Ok(())), Command::Abort { error });
    assert_eq!(scheduler.step(Ok(())), Command::Abort { error });
}

#[test]
fn random_step_applies_the_given_sample() {
    let policy = Policy::random(secs(1), secs(5), Some(ms(20))).unwrap();
    let mut scheduler = Scheduler::new(policy);
    assert_eq!(scheduler.step_with(Ok(()), ms(1_234)), Command::Apply { offset: ms(1_234) });
    assert_eq!(scheduler.step_with(Ok(()), ms(4_000)), Command::Sleep { pause: ms(20) });
    assert_eq!(scheduler.step_with(Ok(()), ms(4_999)), Command::Apply { offset: ms(4_999) });
    assert_eq!(scheduler.current, ms(4_999));
}

#[test]
fn random_samples_stay_in_range() {
    let low = ClockOffset::new(2, 999_999_990);
    let high = ClockOffset::new(3, 10);
    let mut clock = FakeClock::new(None);
    let offsets = applied(&drive(Policy::random(low, high, Some(ms(1))), &mut clock, 2_000));
    assert_eq!(offsets.len(), 1_000);
    for o in &offsets {
        assert!(nanos(&low) <= nanos(o) && nanos(o) < nanos(&high));
    }
    let tight = applied(&drive(Policy::random(secs(7), ClockOffset::new(7, 1), Some(ms(1))), &mut clock, 20));
    assert!(tight.iter().all(|o| *o == secs(7)));
}

#[test]
fn random_samples_spread_uniformly() {
    let low = secs(10);
    let high = secs(20);
    let mut clock = FakeClock::new(None);
    let offsets = applied(&drive(Policy::random(low, high, Some(ms(1))), &mut clock, 20_000));
    assert_eq!(offsets.len(), 10_000);
    let mut buckets = [0usize; 10];
    for o in &offsets {
        let bucket = (nanos(o) - nanos(&low)) / 1_000_000_000;
        buckets[bucket as usize] += 1;
    }
    for count in buckets {
        assert!(count > 800 && count < 1_200, "bucket count {count}");
    }
}
