use fault_injection_prevention::canary::{RefCanaryStack, CANARY_DEPTH};
use fault_injection_prevention::engine::FaultInjectionPrevention;
use fault_injection_prevention::guard::{Halted, Outcome};
use fault_injection_prevention::jitter::RandomError;
use fault_injection_prevention::memory::store;
use fault_injection_prevention::platform::{Platform, Query, Sealed, Source};
use fault_injection_prevention::secure_bool::{SecureBool, TriStateCode};
use std::cell::Cell;

#[derive(Debug, Clone, Copy, PartialEq, Eq)]
enum Event {
    Barrier,
    Delay(u32),
    Write(u32, u32),
    NeverExit,
}

struct Recorder {
    seed: u64,
    events: Vec<Event>,
}

impl Recorder {
    fn halts(&self) -> usize {
        self.events.iter().filter(|e| **e == Event::NeverExit).count()
    }

    fn delays(&self) -> Vec<u32> {
        let mut out = Vec::new();
        for e in &self.events {
            if let Event::Delay(d) = e {
                out.push(*d);
            }
        }
        out
    }
}

impl Platform for Recorder {
    fn random_u32(&mut self) -> u32 {
        (self.random_u64() >> 32) as u32
    }

    fn random_u64(&mut self) -> u64 {
        self.seed = self.seed.wrapping_mul(6364136223846793005).wrapping_add(1442695040888963407);
        let mut z = self.seed;
        z = (z ^ (z >> 30)).wrapping_mul(0xBF58_476D_1CE4_E5B9);
        z = (z ^ (z >> 27)).wrapping_mul(0x94D0_49BB_1331_11EB);
        z ^ (z >> 31)
    }

    fn delay(&mut self, cycles: u32) {
        self.events.push(Event::Delay(cycles));
    }

    fn barrier(&mut self) {
        self.events.push(Event::Barrier);
    }

    fn write_register(&mut self, address: u32, value: u32) {
        self.events.push(Event::Write(address, value));
    }

    fn never_exit(&mut self) {
        self.events.push(Event::NeverExit);
    }
}

/// Whether `events` are a barrier, a jitter in the default window and a
/// barrier.
fn is_check(events: &[Event]) -> bool {
    events.len() == 3
        && events[0] == Event::Barrier
        && matches!(events[1], Event::Delay(d) if (10..=50).contains(&d))
        && events[2] == Event::Barrier
}

/// Whether `events` are those of a redundant write that ran `rounds` rounds
/// without a halt.
fn is_write(events: &[Event], rounds: usize) -> bool {
    events.len() == 1 + 3 * rounds
        && events[0] == Event::Barrier
        && (0..rounds).all(|i| is_check(&events[1 + 3 * i..4 + 3 * i]))
}

const RESET: [Event; 4] =
    [Event::Barrier, Event::Write(0xE000_ED0C, 0x05FA_0004), Event::Barrier, Event::NeverExit];

fn engine(seed: u64) -> FaultInjectionPrevention<Recorder> {
    let code = TriStateCode::new(0x0123_4567_89AB_CDEF, 0x0F0F_0F0F_0F0F_0F0F).unwrap();
    FaultInjectionPrevention::new(Recorder { seed, events: Vec::new() }, code)
}

/// Runs a guarded conditional whose condition gives `answers` in turn, and
/// reports the outcome, how often the condition was asked, and whether the
/// success and the failure action ran.
fn guarded(answers: &[SecureBool]) -> (Outcome, usize, bool, bool, Vec<Event>) {
    let mut fip = engine(11);
    let asked = Cell::new(0usize);
    let ran_success = Cell::new(false);
    let ran_failure = Cell::new(false);
    let outcome = fip.critical_if(
        &mut Query::new(|| {
            let i = asked.get();
            asked.set(i + 1);
            answers[i]
        }),
        Sealed::new(|| ran_success.set(true)),
        Sealed::new(|| ran_failure.set(true)),
    );
    (outcome, asked.get(), ran_success.get(), ran_failure.get(), fip.into_platform().events)
}

const T: SecureBool = SecureBool::True;
const F: SecureBool = SecureBool::False;
const E: SecureBool = SecureBool::Error;

#[test]
fn critical_if_consistently_true_runs_success() {
    let (outcome, asked, success, failure, events) = guarded(&[T, T, T, T]);
    assert_eq!(outcome, Outcome::RanSuccess);
    assert_eq!(asked, 4);
    assert!(success && !failure);
    assert_eq!(events.len(), 3);
    assert_eq!(events[0], Event::Barrier);
    assert!(matches!(events[1], Event::Delay(d) if (10..=50).contains(&d)));
    assert_eq!(events[2], Event::Barrier);
}

#[test]
fn critical_if_consistently_false_runs_failure() {
    let (outcome, asked, success, failure, events) = guarded(&[F, F, F]);
    assert_eq!(outcome, Outcome::RanFailure);
    assert_eq!(asked, 3);
    assert!(!success && failure);
    assert_eq!(events.len(), 3);
    assert!(matches!(events[1], Event::Delay(d) if (10..=50).contains(&d)));
}

#[test]
fn critical_if_second_answer_disagrees() {
    let (outcome, asked, success, failure, events) = guarded(&[T, F, T, T]);
    assert_eq!(outcome, Outcome::Halted);
    assert_eq!(asked, 2);
    assert!(!success && !failure);
    assert_eq!(events, RESET.to_vec());
}

#[test]
fn critical_if_third_answer_disagrees() {
    let (outcome, _, success, failure, events) = guarded(&[T, T, F, T]);
    assert_eq!(outcome, Outcome::Halted);
    assert!(!success && !failure);
    assert_eq!(events.len(), 6);
    assert_eq!(events[0], Event::Barrier);
    assert!(matches!(events[1], Event::Delay(_)));
    assert_eq!(&events[2..], &RESET[..]);

    let (outcome, _, success, failure, _) = guarded(&[F, T, F]);
    assert_eq!(outcome, Outcome::Halted);
    assert!(!success && !failure);
}

#[test]
fn critical_if_fourth_answer_disagrees() {
    let (outcome, _, success, failure, _) = guarded(&[T, T, T, F]);
    assert_eq!(outcome, Outcome::Halted);
    assert!(!success && !failure);

    let (outcome, _, success, failure, _) = guarded(&[F, F, T]);
    assert_eq!(outcome, Outcome::Halted);
    assert!(!success && !failure);
}

#[test]
fn critical_if_recorded_flag_contradicts_later_answers() {
    let (outcome, asked, success, failure, _) = guarded(&[T, T, F, F]);
    assert_eq!(outcome, Outcome::Halted);
    assert_eq!(asked, 4);
    assert!(!success && !failure);

    let (outcome, asked, success, failure, _) = guarded(&[F, T, T]);
    assert_eq!(outcome, Outcome::Halted);
    assert_eq!(asked, 3);
    assert!(!success && !failure);
}

#[test]
fn critical_if_every_mixed_run_of_booleans_halts() {
    for bits in 0u32..16 {
        let answers: Vec<SecureBool> =
            (0..4).map(|i| if bits & (1 << i) != 0 { T } else { F }).collect();
        let (outcome, _, success, failure, events) = guarded(&answers);
        let halts = events.iter().filter(|e| **e == Event::NeverExit).count();
        if answers == [T, T, T, T] {
            assert_eq!(outcome, Outcome::RanSuccess);
            assert!(success && !failure);
            assert_eq!(halts, 0);
        } else if answers[0] == F && answers[1] == F && answers[2] == F {
            assert_eq!(outcome, Outcome::RanFailure);
            assert!(!success && failure);
            assert_eq!(halts, 0);
        } else {
            assert_eq!(outcome, Outcome::Halted);
            assert!(!success && !failure);
            assert_eq!(halts, 1);
        }
    }
}

#[test]
fn critical_if_error_answers_halt() {
    let (outcome, asked, success, failure, events) = guarded(&[E, E, E, E]);
    assert_eq!(outcome, Outcome::Halted);
    assert_eq!(asked, 1);
    assert!(!success && !failure);
    assert_eq!(events, RESET.to_vec());

    let (outcome, asked, success, failure, events) = guarded(&[T, E, T, T]);
    assert_eq!(outcome, Outcome::Halted);
    assert_eq!(asked, 2);
    assert!(!success && !failure);
    assert_eq!(events, RESET.to_vec());

    for answers in [[F, E, F, F], [F, F, E, F], [T, T, E, T], [T, T, T, E], [E, T, T, T]] {
        let (outcome, _, success, failure, events) = guarded(&answers);
        assert_eq!(outcome, Outcome::Halted);
        assert!(!success && !failure);
        assert_eq!(events.iter().filter(|e| **e == Event::NeverExit).count(), 1);
    }
}

#[test]
fn critical_if_every_run_of_answers() {
    let all = [T, F, E];
    for a in all {
        for b in all {
            for c in all {
                for d in all {
                    let answers = [a, b, c, d];
                    let (outcome, asked, success, failure, events) = guarded(&answers);
                    let halts = events.iter().filter(|e| **e == Event::NeverExit).count();
                    if answers == [T, T, T, T] {
                        assert_eq!(outcome, Outcome::RanSuccess);
                        assert_eq!(asked, 4);
                        assert!(success && !failure);
                        assert_eq!(halts, 0);
                    } else if a == F && b == F && c == F {
                        assert_eq!(outcome, Outcome::RanFailure);
                        assert_eq!(asked, 3);
                        assert!(!success && failure);
                        assert_eq!(halts, 0);
                    } else {
                        assert_eq!(outcome, Outcome::Halted);
                        assert!(!success && !failure);
                        assert_eq!(halts, 1);
                    }
                }
            }
        }
    }
}

#[test]
fn critical_if_runs_each_action_at_most_once() {
    let mut fip = engine(21);
    let successes = Cell::new(0);
    let failures = Cell::new(0);
    let outcome = fip.critical_if(
        &mut Query::new(|| T),
        Sealed::new(|| successes.set(successes.get() + 1)),
        Sealed::new(|| failures.set(failures.get() + 1)),
    );
    assert_eq!(outcome, Outcome::RanSuccess);
    assert_eq!((successes.get(), failures.get()), (1, 0));

    let outcome = fip.critical_if(
        &mut Query::new(|| F),
        Sealed::new(|| successes.set(successes.get() + 1)),
        Sealed::new(|| failures.set(failures.get() + 1)),
    );
    assert_eq!(outcome, Outcome::RanFailure);
    assert_eq!((successes.get(), failures.get()), (1, 1));
    assert_eq!(fip.platform().halts(), 0);
}

#[test]
fn critical_if_jitter_is_the_scaled_draw_between_evaluations_and_action() {
    let mut twin = Recorder { seed: 31, events: Vec::new() };
    let expected = 10 + twin.random_u32() % 41;

    let log = std::cell::RefCell::new(Vec::new());
    let asked = Cell::new(0);
    let mut fip = engine(31);
    let outcome = fip.critical_if(
        &mut Query::new(|| {
            asked.set(asked.get() + 1);
            log.borrow_mut().push("asked");
            T
        }),
        Sealed::new(|| log.borrow_mut().push("success")),
        Sealed::new(|| log.borrow_mut().push("failure")),
    );
    assert_eq!(outcome, Outcome::RanSuccess);
    assert_eq!(fip.platform().delays(), vec![expected]);
    assert_eq!(fip.platform().seed, twin.seed);
    assert_eq!(*log.borrow(), vec!["asked", "asked", "asked", "asked", "success"]);
}

#[test]
fn critical_if_halts_at_once_when_the_second_answer_disagrees() {
    let mut fip = engine(41);
    let asked = Cell::new(0);
    let outcome = fip.critical_if(
        &mut Query::new(|| {
            asked.set(asked.get() + 1);
            if asked.get() == 1 {
                T
            } else {
                F
            }
        }),
        Sealed::new(|| {
            unreachable!();
        }),
        Sealed::new(|| {
            unreachable!();
        }),
    );
    assert_eq!(outcome, Outcome::Halted);
    assert_eq!(asked.get(), 2);
    assert_eq!(fip.platform().seed, 41);
    assert_eq!(fip.platform().events, RESET.to_vec());
}

#[test]
fn secure_reset_device_requests_in_order() {
    let mut fip = engine(1);
    fip.secure_reset_device();
    assert_eq!(fip.platform().events, RESET.to_vec());
}

#[test]
fn engine_starts_with_its_platform_untouched() {
    let fip = engine(77);
    assert_eq!(fip.platform().seed, 77);
    assert!(fip.platform().events.is_empty());
    let recorder = fip.into_platform();
    assert_eq!(recorder.seed, 77);
}

#[test]
fn never_exit_is_one_request() {
    let mut fip = engine(1);
    fip.never_exit();
    assert_eq!(fip.platform().events, vec![Event::NeverExit]);
}

#[test]
fn dsb_is_one_barrier() {
    let mut fip = engine(1);
    fip.dsb();
    assert_eq!(fip.platform().events, vec![Event::Barrier]);
}

#[test]
fn secure_never_exit_func_calls_then_ends() {
    let mut fip = engine(1);
    let called = Cell::new(0);
    fip.secure_never_exit_func(Sealed::new(|| called.set(called.get() + 1)));
    assert_eq!(called.get(), 1);
    assert_eq!(fip.platform().events, vec![Event::NeverExit]);
}

#[test]
fn generate_secure_random_stays_in_range() {
    let mut fip = engine(3);
    for _ in 0..1000 {
        let v = fip.generate_secure_random(100, 107).unwrap();
        assert!((100..=107).contains(&v));
    }
    assert_eq!(fip.generate_secure_random(9, 9), Ok(9));
    assert_eq!(fip.generate_secure_random(10, 9), Err(RandomError::InvalidRange));
    assert!(fip.platform().events.is_empty());
}

#[test]
fn generate_secure_random_scales_exactly_one_drawn_word() {
    let mut twin = Recorder { seed: 3, events: Vec::new() };
    let mut fip = engine(3);
    for _ in 0..100 {
        let raw = twin.random_u32();
        assert_eq!(fip.generate_secure_random(100, 107), Ok(100 + raw % 8));
        assert_eq!(fip.platform().seed, twin.seed);
    }
}

#[test]
fn generate_secure_random_refused_range_leaves_the_generator_alone() {
    let mut fip = engine(3);
    assert_eq!(fip.generate_secure_random(10, 9), Err(RandomError::InvalidRange));
    assert_eq!(fip.secure_random_delay_cycles(10, 9), Err(RandomError::InvalidRange));
    assert_eq!(fip.platform().seed, 3);
    assert!(fip.platform().events.is_empty());
}

#[test]
fn secure_random_delay_cycles_delays_for_the_scaled_draw() {
    let mut twin = Recorder { seed: 17, events: Vec::new() };
    let mut fip = engine(17);
    for _ in 0..100 {
        let raw = twin.random_u32();
        assert_eq!(fip.secure_random_delay_cycles(30, 90), Ok(()));
        assert_eq!(*fip.platform().delays().last().unwrap(), 30 + raw % 61);
    }
    assert_eq!(fip.platform().seed, twin.seed);
}

#[test]
fn generate_secure_random_reaches_both_ends() {
    let mut fip = engine(5);
    let mut seen = [false; 4];
    for _ in 0..1000 {
        let v = fip.generate_secure_random(20, 23).unwrap();
        seen[(v - 20) as usize] = true;
    }
    assert_eq!(seen, [true; 4]);
}

#[test]
fn secure_random_delay_cycles_inverted_range_delays_nothing() {
    let mut fip = engine(1);
    assert_eq!(fip.secure_random_delay_cycles(51, 50), Err(RandomError::InvalidRange));
    assert_eq!(fip.secure_random_delay_cycles(u32::MAX, 0), Err(RandomError::InvalidRange));
    assert!(fip.platform().events.is_empty());
}

#[test]
fn secure_random_delay_cycles_within_range_for_many_samples() {
    let mut fip = engine(1234);
    for _ in 0..1500 {
        assert_eq!(fip.secure_random_delay_cycles(30, 90), Ok(()));
    }
    let delays = fip.platform().delays();
    assert_eq!(delays.len(), 1500);
    assert_eq!(fip.platform().events.len(), 1500);
    assert!(delays.iter().all(|d| (30..=90).contains(d)));
    assert!(delays.iter().any(|d| *d != delays[0]));
}

#[test]
fn secure_random_delay_default_window() {
    let mut fip = engine(99);
    for _ in 0..1000 {
        fip.secure_random_delay();
    }
    let delays = fip.platform().delays();
    assert_eq!(delays.len(), 1000);
    assert!(delays.iter().all(|d| (10..=50).contains(d)));
}

#[test]
fn critical_read_stable_source() {
    let mut fip = engine(2);
    let source: u64 = 0xDEAD_BEEF;
    let reads = Cell::new(0);
    let mut reader = Source::new(|s: &u64| {
        reads.set(reads.get() + 1);
        *s
    });
    let r = fip.critical_read(&source, &mut reader);
    assert_eq!(r, Ok(0xDEAD_BEEF));
    assert_eq!(reads.get(), 4);
    assert_eq!(fip.platform().halts(), 0);
    let events = &fip.platform().events;
    assert_eq!(events.len(), 8);
    assert_eq!(&events[..5], &[Event::Barrier; 5][..]);
    assert!(is_check(&events[5..]));
}

#[test]
fn critical_read_of_an_array() {
    let mut fip = engine(2);
    let source: [u8; 20] = [b'A'; 20];
    let mut reader = Source::new(|s: &[u8; 20]| *s);
    assert_eq!(fip.critical_read(&source, &mut reader), Ok([b'A'; 20]));
}

#[test]
fn critical_read_one_deviating_read_halts() {
    for bad in 0..4 {
        let mut fip = engine(2);
        let source: u32 = 41;
        let reads = Cell::new(0);
        let mut reader = Source::new(|s: &u32| {
            let i = reads.get();
            reads.set(i + 1);
            if i == bad {
                *s ^ 0x10
            } else {
                *s
            }
        });
        let r = fip.critical_read(&source, &mut reader);
        assert_eq!(r, Err(Halted));
        assert_eq!(reads.get(), 4);
        assert_eq!(fip.platform().halts(), 1);
        let events = &fip.platform().events;
        assert_eq!(events.len(), 12);
        assert_eq!(&events[..5], &[Event::Barrier; 5][..]);
        assert!(is_check(&events[5..8]));
        assert_eq!(&events[8..], &RESET[..]);
    }
}

#[test]
fn critical_write_stores_the_value() {
    let mut fip = engine(4);
    let mut dst: u64 = 0;
    assert_eq!(fip.critical_write(&mut dst, 0x1234_5678_9ABC_DEF0, &Sealed::new(store::<u64>)), Ok(()));
    assert_eq!(dst, 0x1234_5678_9ABC_DEF0);
    assert_eq!(fip.platform().halts(), 0);
    assert_eq!(fip.platform().delays().len(), 3);
    assert!(is_write(&fip.platform().events, 3));
}

#[test]
fn critical_write_writes_three_times() {
    let mut fip = engine(4);
    let mut buffer: [u8; 20] = [0; 20];
    let writes = Cell::new(0);
    let write = Sealed::new(|d: &mut [u8; 20], s: [u8; 20]| {
        writes.set(writes.get() + 1);
        *d = s;
    });
    let r = fip.critical_write(&mut buffer, [b'A'; 20], &write);
    assert_eq!(r, Ok(()));
    assert_eq!(writes.get(), 3);
    assert_eq!(buffer, [b'A'; 20]);
}

#[test]
fn critical_write_mismatch_in_any_round_halts() {
    for bad in 0..3 {
        let mut fip = engine(4);
        let mut dst: u32 = 0;
        let writes = Cell::new(0);
        let write = Sealed::new(|d: &mut u32, s: u32| {
            let i = writes.get();
            writes.set(i + 1);
            *d = if i == bad { s + 1 } else { s };
        });
        let r = fip.critical_write(&mut dst, 500, &write);
        assert_eq!(r, Err(Halted));
        assert_eq!(writes.get(), bad + 1);
        assert_eq!(dst, 501);
        assert_eq!(fip.platform().halts(), 1);
        let events = &fip.platform().events;
        assert_eq!(events.len(), 1 + 3 * (bad + 1) + 4);
        assert!(is_write(&events[..events.len() - 4], bad + 1));
        assert_eq!(&events[events.len() - 4..], &RESET[..]);
    }
}

#[test]
fn critical_write_skipped_write_halts() {
    let mut fip = engine(4);
    let mut dst: u32 = 7;
    assert_eq!(fip.critical_write(&mut dst, 8, &Sealed::new(|_: &mut u32, _: u32| {})), Err(Halted));
    assert_eq!(dst, 7);
    assert_eq!(fip.platform().halts(), 1);
}

#[test]
fn canary_stack_starts_empty() {
    let stack = RefCanaryStack::new();
    assert_eq!(stack.depth(), 0);
    assert_eq!(stack.peek(), 0);
}

#[test]
fn canary_push_then_pop_returns_value_and_depth() {
    let mut fip = engine(6);
    let mut stack = RefCanaryStack::new();
    stack.push(17, &mut fip);
    let before = stack.depth();
    stack.push(0xABCD_EF01_2345_6789, &mut fip);
    assert_eq!(stack.depth(), before + 1);
    assert_eq!(stack.peek(), 0xABCD_EF01_2345_6789);
    assert_eq!(stack.pop(&mut fip), 0xABCD_EF01_2345_6789);
    assert_eq!(stack.depth(), before);
    assert_eq!(stack.peek(), 17);
    assert_eq!(fip.platform().halts(), 0);
}

#[test]
fn canary_push_and_pop_write_redundantly() {
    let mut fip = engine(6);
    let mut stack = RefCanaryStack::new();
    stack.push(5, &mut fip);
    {
        let events = &fip.platform().events;
        assert_eq!(events.len(), 20);
        assert!(is_write(&events[..10], 3));
        assert!(is_write(&events[10..], 3));
    }
    assert_eq!(stack.pop(&mut fip), 5);
    let events = &fip.platform().events;
    assert_eq!(events.len(), 30);
    assert!(is_write(&events[20..], 3));
}

#[test]
fn canary_pops_in_reverse_of_pushes() {
    let mut fip = engine(6);
    let mut stack = RefCanaryStack::new();
    let values: Vec<u64> = (1..=10).map(|i| i * 1000 + 7).collect();
    for v in &values {
        stack.push(*v, &mut fip);
    }
    let mut out = Vec::new();
    for _ in 0..values.len() {
        out.push(stack.pop(&mut fip));
    }
    let mut reversed = values.clone();
    reversed.reverse();
    assert_eq!(out, reversed);
    assert_eq!(stack.depth(), 0);
}

#[test]
fn canary_nested_pushes_and_pops() {
    let mut fip = engine(6);
    let mut stack = RefCanaryStack::new();
    stack.push(1, &mut fip);
    stack.push(2, &mut fip);
    assert_eq!(stack.pop(&mut fip), 2);
    stack.push(3, &mut fip);
    stack.push(4, &mut fip);
    assert_eq!(stack.pop(&mut fip), 4);
    assert_eq!(stack.pop(&mut fip), 3);
    assert_eq!(stack.pop(&mut fip), 1);
    assert_eq!(stack.depth(), 0);
}

#[test]
fn canary_stack_fills_to_its_depth() {
    let mut fip = engine(6);
    let mut stack = RefCanaryStack::new();
    assert_eq!(CANARY_DEPTH, 49);
    for i in 0..CANARY_DEPTH {
        assert!(stack.depth() < CANARY_DEPTH);
        stack.push(i as u64 + 1, &mut fip);
    }
    assert_eq!(stack.depth(), CANARY_DEPTH);
    assert_eq!(stack.peek(), 49);
    for i in (0..CANARY_DEPTH).rev() {
        assert_eq!(stack.pop(&mut fip), i as u64 + 1);
    }
    assert_eq!(stack.depth(), 0);
}

#[test]
fn stack_canary_copy_within_bounds_completes() {
    let mut fip = engine(8);
    let mut stack = RefCanaryStack::new();
    let input = [b'A'; 16];
    let mut buffer = [0u8; 16];
    let r = fip.stack_canary(
        &mut stack,
        Sealed::new(|_slot: &mut u64| {
            for i in 0..input.len() {
                buffer[i] = input[i];
            }
        }),
    );
    assert_eq!(r, Ok(()));
    assert_eq!(buffer, [b'A'; 16]);
    assert_eq!(stack.depth(), 0);
    assert_eq!(fip.platform().halts(), 0);
    let events = &fip.platform().events;
    assert_eq!(events.len(), 44);
    assert!(is_write(&events[..10], 3));
    assert!(is_write(&events[10..20], 3));
    assert!(is_write(&events[20..30], 3));
    assert_eq!(events[30], Event::Barrier);
    assert!(is_write(&events[31..41], 3));
    assert!(is_check(&events[41..]));
}

#[test]
fn stack_canary_overwritten_canary_halts() {
    let mut fip = engine(8);
    let mut stack = RefCanaryStack::new();
    let input = [b'A'; 24];
    let mut buffer = [0u8; 16];
    let r = fip.stack_canary(
        &mut stack,
        Sealed::new(|slot: &mut u64| {
            let mut beyond = slot.to_le_bytes();
            for i in 0..input.len() {
                if i < buffer.len() {
                    buffer[i] = input[i];
                } else {
                    beyond[i - buffer.len()] = input[i];
                }
            }
            *slot = u64::from_le_bytes(beyond);
        }),
    );
    assert_eq!(r, Err(Halted));
    assert_eq!(stack.depth(), 0);
    assert_eq!(fip.platform().halts(), 1);
    let events = &fip.platform().events;
    assert_eq!(events.len(), 48);
    assert!(is_check(&events[41..44]));
    assert_eq!(&events[44..], &RESET[..]);
}

#[test]
fn stack_canary_single_flipped_bit_halts() {
    let mut fip = engine(8);
    let mut stack = RefCanaryStack::new();
    assert_eq!(fip.stack_canary(&mut stack, Sealed::new(|slot: &mut u64| *slot ^= 1 << 17)), Err(Halted));
    assert_eq!(fip.platform().halts(), 1);
}

#[test]
fn stack_canary_draws_a_fresh_canary_each_time() {
    let mut fip = engine(8);
    let mut stack = RefCanaryStack::new();
    let seen = Cell::new(0u64);
    assert_eq!(fip.stack_canary(&mut stack, Sealed::new(|slot: &mut u64| seen.set(*slot))), Ok(()));
    let first = seen.get();
    assert_eq!(fip.stack_canary(&mut stack, Sealed::new(|slot: &mut u64| seen.set(*slot))), Ok(()));
    assert_ne!(first, seen.get());
}

#[test]
fn stack_canary_hands_out_the_drawn_word() {
    let mut twin = Recorder { seed: 8, events: Vec::new() };
    let expected = twin.random_u64();
    let mut fip = engine(8);
    let mut stack = RefCanaryStack::new();
    let seen = Cell::new(0u64);
    assert_eq!(fip.stack_canary(&mut stack, Sealed::new(|slot: &mut u64| seen.set(*slot))), Ok(()));
    assert_eq!(seen.get(), expected);
}

#[test]
fn regions_nest() {
    let mut fip = engine(10);
    let mut stack = RefCanaryStack::new();
    let mut outer = 0u64;
    let mut inner = 0u64;
    fip.open_region(&mut stack, &mut outer);
    assert_eq!(stack.peek(), outer);
    fip.open_region(&mut stack, &mut inner);
    assert_eq!(stack.depth(), 2);
    assert_eq!(stack.peek(), inner);
    assert_ne!(inner, outer);
    assert_eq!(fip.close_region(&mut stack, &inner), Ok(()));
    assert_eq!(fip.close_region(&mut stack, &outer), Ok(()));
    assert_eq!(stack.depth(), 0);
    assert_eq!(fip.platform().halts(), 0);
}

#[test]
fn regions_closed_out_of_order_halt() {
    let mut fip = engine(10);
    let mut stack = RefCanaryStack::new();
    let mut outer = 0u64;
    let mut inner = 0u64;
    fip.open_region(&mut stack, &mut outer);
    fip.open_region(&mut stack, &mut inner);
    assert_eq!(fip.close_region(&mut stack, &outer), Err(Halted));
    assert_eq!(stack.depth(), 1);
    assert_eq!(fip.platform().halts(), 1);
}
