//! The guarded operations: halt, jitter, the guarded conditional, redundant
//! memory access and the guarded region.

use crate::canary::{
    close_effects, full_rounds, lemma_push_then_pop, open_effects, pop_effects, push_effects,
    region_effects, RefCanaryStack, CANARY_DEPTH,
};
use crate::guard::{
    answers_asked, asks_second, confirm_effects, confirmed, ending, first_answers, first_asked,
    guard_effects, guarded_outcome, jitter_effects, lemma_guard_appended, recorded_flag, Halted,
    Outcome,
};
use crate::hardening::{compiler_barrier, opaque};
use crate::jitter::{scale_to_range, scaled, RandomError, JITTER_MAX_CYCLES, JITTER_MIN_CYCLES};
use crate::memory::{
    check_effects, compares_by_value, halt_effects, lemma_check_halts, lemma_read_halts,
    lemma_round_appended, read_effects, read_result, round_effects, store, write_effects,
    WRITE_ROUNDS,
};
use crate::platform::{
    halts, lemma_halts_concat, lemma_halts_none, reset_request, reset_sequence, Effect, Machine,
    Platform, Query, Sealed, Source, AIRCR_ADDR,
};
use crate::secure_bool::{SecureBool, TriStateCode};
use vstd::prelude::*;
use vstd::std_specs::cmp::PartialEqSpec;
use vstd::std_specs::convert::FromSpec;

verus! {

/// State of the fault-injection countermeasures: the machine they act on,
/// with the record of every step taken, and the code of their tri-state
/// flags.
pub struct FaultInjectionPrevention<P: Platform> {
    machine: Machine<P>,
    code: TriStateCode,
}

impl<P: Platform> FaultInjectionPrevention<P> {
    /// Every step taken so far, oldest first: the requests made of the
    /// platform and the calls of the closures sealed in [`Query`],
    /// [`Source`] and [`Sealed`].
    pub closed spec fn effects(&self) -> Seq<Effect> {
        self.machine.requests()
    }

    /// The platform as it stands.
    pub closed spec fn platform_state(&self) -> P {
        self.machine.platform_state()
    }

    /// Takes charge of `platform`, with `code` for the tri-state flags; no
    /// step has been taken yet.
    pub fn new(platform: P, code: TriStateCode) -> (fip: Self)
        ensures
            fip.effects() == Seq::<Effect>::empty(),
            fip.platform_state() == platform,
    {
        FaultInjectionPrevention { machine: Machine::new(platform), code }
    }

    /// The platform, for inspection.
    pub fn platform(&self) -> (p: &P)
        ensures
            *p == self.platform_state(),
    {
        self.machine.platform()
    }

    /// Gives the platform back.
    pub fn into_platform(self) -> (p: P)
        ensures
            p == self.platform_state(),
    {
        self.machine.into_platform()
    }

    /// A memory barrier that neither the processor nor the compiler reorders
    /// accesses across.
    pub fn dsb(&mut self)
        ensures
            final(self).effects() == old(self).effects().push(Effect::Barrier),
    {
        compiler_barrier();
        self.machine.barrier();
        compiler_barrier();
    }

    /// Resets the device: barrier, reset request to the reset-control
    /// register, barrier, then the end of execution.
    pub fn secure_reset_device(&mut self)
        ensures
            final(self).effects() == old(self).effects() + reset_sequence(),
    {
        self.dsb();
        let word = reset_request();
        self.machine.write_register(AIRCR_ADDR, word);
        self.dsb();
        self.never_exit();
    }

    /// Ends execution.
    pub fn never_exit(&mut self)
        ensures
            final(self).effects() == old(self).effects().push(Effect::NeverExit),
    {
        self.machine.never_exit();
    }

    /// Calls `func`, which is meant never to return, and ends execution
    /// behind it, so that a skipped call still goes nowhere.
    pub fn secure_never_exit_func<F: FnOnce()>(&mut self, func: Sealed<F>)
        requires
            call_requires(func.inner(), ()),
        ensures
            call_ensures(func.inner(), (), ()),
            final(self).effects() == old(self).effects() + seq![Effect::Called, Effect::NeverExit],
    {
        let ghost before = self.effects();
        self.machine.call(func);
        self.never_exit();
        assert(self.effects() =~= before + seq![Effect::Called, Effect::NeverExit]);
    }

    /// Draws a random value in `[min, max]`, or refuses a range whose minimum
    /// exceeds its maximum.
    ///
    /// On a refused range the generator is not touched and nothing is
    /// recorded. Otherwise exactly one 32-bit word is drawn from the
    /// platform's generator, the draw is recorded, and the value is what
    /// [`scale_to_range`] makes of that word.
    pub fn generate_secure_random(&mut self, min: u32, max: u32) -> (r: Result<u32, RandomError>)
        ensures
            min > max ==> {
                &&& r == Err::<u32, RandomError>(RandomError::InvalidRange)
                &&& final(self).effects() == old(self).effects()
                &&& final(self).platform_state() == old(self).platform_state()
            },
            min <= max ==> exists|platform: &mut P, raw: u32|
                {
                    &&& *platform == old(self).platform_state()
                    &&& *final(platform) == final(self).platform_state()
                    &&& #[trigger] call_ensures(P::random_u32, (platform,), raw)
                    &&& r == Ok::<u32, RandomError>(scaled(raw, min, max) as u32)
                    &&& final(self).effects() == old(self).effects().push(Effect::Drew32(raw))
                },
            r matches Ok(v) ==> min <= v <= max,
    {
        if min > max {
            return Err(RandomError::InvalidRange);
        }
        let raw = self.machine.random_u32();
        scale_to_range(raw, min, max)
    }

    /// Delays for a random number of cycles in `[min_cycles, max_cycles]`,
    /// or refuses a range whose minimum exceeds its maximum.
    ///
    /// On a refused range there is no delay, the generator is not touched
    /// and nothing is recorded. Otherwise exactly one 32-bit word is drawn
    /// from the platform's generator, and the delay is of the number of
    /// cycles that [`scale_to_range`] makes of that word.
    pub fn secure_random_delay_cycles(&mut self, min_cycles: u32, max_cycles: u32) -> (r: Result<
        (),
        RandomError,
    >)
        ensures
            min_cycles > max_cycles ==> {
                &&& r == Err::<(), RandomError>(RandomError::InvalidRange)
                &&& final(self).effects() == old(self).effects()
                &&& final(self).platform_state() == old(self).platform_state()
            },
            min_cycles <= max_cycles ==> r.is_ok() && exists|platform: &mut P, raw: u32|
                {
                    &&& *platform == old(self).platform_state()
                    &&& #[trigger] call_ensures(P::random_u32, (platform,), raw)
                    &&& min_cycles <= scaled(raw, min_cycles, max_cycles) <= max_cycles
                    &&& final(self).effects() == old(self).effects() + seq![
                        Effect::Drew32(raw),
                        Effect::Delay(scaled(raw, min_cycles, max_cycles) as u32),
                    ]
                },
    {
        let ghost before = self.effects();
        match self.generate_secure_random(min_cycles, max_cycles) {
            Ok(cycles) => {
                let ghost raw = drawn_word(self.effects().last());
                self.machine.delay(cycles);
                assert(self.effects() =~= before + seq![
                    Effect::Drew32(raw),
                    Effect::Delay(scaled(raw, min_cycles, max_cycles) as u32),
                ]);
                Ok(())
            },
            Err(e) => Err(e),
        }
    }

    /// Delays for a random number of cycles in the default window: draws one
    /// 32-bit word from the platform's generator and delays for the number
    /// of cycles that the word selects, the steps of [`jitter_effects`].
    pub fn secure_random_delay(&mut self)
        ensures
            exists|platform: &mut P, raw: u32|
                {
                    &&& *platform == old(self).platform_state()
                    &&& #[trigger] call_ensures(P::random_u32, (platform,), raw)
                    &&& final(self).effects() == old(self).effects() + jitter_effects(raw)
                },
            exists|raw: u32|
                final(self).effects() == old(self).effects() + #[trigger] jitter_effects(raw),
    {
        let ghost before = self.effects();
        let _ = self.secure_random_delay_cycles(JITTER_MIN_CYCLES, JITTER_MAX_CYCLES);
        proof {
            let raw = drawn_word(self.effects()[self.effects().len() - 2]);
            assert(self.effects() =~= before + jitter_effects(raw));
        }
    }

    /// A conditional that resists skipped instructions and corrupted
    /// decisions.
    ///
    /// `condition` must be a pure query: it is asked up to four times and
    /// should answer alike each time. Every evaluation and every run of an
    /// action is made through the record, so the steps recorded are the
    /// calls that were made: `condition` holds afterwards the answers that
    /// it gave, in order, the steps are [`guard_effects`] of those answers
    /// and of the word that the jitter drew, and the outcome is
    /// [`guarded_outcome`] of the same answers. Each action runs where the
    /// steps say that it ran, and nowhere else.
    pub fn critical_if<C: Fn() -> SecureBool, S: FnOnce(), F: FnOnce()>(
        &mut self,
        condition: &mut Query<C>,
        success: Sealed<S>,
        failure: Sealed<F>,
    ) -> (outcome: Outcome)
        requires
            call_requires(old(condition).condition(), ()),
            call_requires(success.inner(), ()),
            call_requires(failure.inner(), ()),
        ensures
            final(condition).condition() == old(condition).condition(),
            exists|
                first: SecureBool,
                second: SecureBool,
                third: SecureBool,
                fourth: SecureBool,
                raw: u32,
            |
                {
                    &&& final(condition).answers() == old(condition).answers() + answers_asked(
                        first,
                        second,
                        third,
                        fourth,
                    )
                    &&& call_ensures(old(condition).condition(), (), first)
                    &&& asks_second(first) ==> call_ensures(old(condition).condition(), (), second)
                    &&& recorded_flag(first, second) is Some ==> call_ensures(
                        old(condition).condition(),
                        (),
                        third,
                    ) && call_ensures(old(condition).condition(), (), fourth)
                    &&& outcome == guarded_outcome(first, second, third, fourth)
                    &&& final(self).effects() == old(self).effects() + #[trigger] guard_effects(
                        first,
                        second,
                        third,
                        fourth,
                        raw,
                    )
                },
            outcome is RanSuccess ==> call_ensures(success.inner(), (), ()),
            outcome is RanFailure ==> call_ensures(failure.inner(), (), ()),
            halts(final(self).effects()) == halts(old(self).effects()) + if outcome is Halted {
                1nat
            } else {
                0nat
            },
    {
        proof {
            use_type_invariant(&self.code);
            self.code.lemma_patterns_far_apart(SecureBool::True, SecureBool::False);
        }
        let ghost before = self.effects();
        let ghost answered = condition.answers();
        let truth = self.code.encode(SecureBool::True);
        let falsity = self.code.encode(SecureBool::False);
        let unset = self.code.encode(SecureBool::Error);
        let recorded = self.record_flag(condition, truth, falsity, unset);
        let ghost asked = self.effects();
        let ghost (first, second) = choose|first: SecureBool, second: SecureBool|
            {
                &&& condition.answers() == answered + first_asked(first, second)
                &&& call_ensures(condition.condition(), (), first)
                &&& asks_second(first) ==> call_ensures(condition.condition(), (), second)
                &&& recorded == flag_word(truth, falsity, recorded_flag(first, second))
                &&& asked == before + #[trigger] first_answers(first, second) + halt_effects(
                    recorded is None,
                )
            };
        match recorded {
            None => {
                proof {
                    lemma_guard_appended(before, asked, first, second, first, first, 0);
                    assert(condition.answers() =~= answered + answers_asked(
                        first,
                        second,
                        first,
                        first,
                    ));
                }
                Outcome::Halted
            },
            Some(flag) => {
                let outcome = self.confirm_flag(
                    condition,
                    success,
                    failure,
                    flag,
                    truth,
                    falsity,
                    Ghost(recorded_flag(first, second).unwrap()),
                );
                proof {
                    let (third, fourth, raw) = choose|
                        third: SecureBool,
                        fourth: SecureBool,
                        raw: u32,
                    |
                        {
                            &&& condition.answers() == answered + first_asked(first, second)
                                + seq![third, fourth]
                            &&& call_ensures(condition.condition(), (), third)
                            &&& call_ensures(condition.condition(), (), fourth)
                            &&& outcome == confirmed(
                                recorded_flag(first, second).unwrap(),
                                third,
                                fourth,
                            )
                            &&& self.effects() == asked + #[trigger] confirm_effects(
                                third,
                                fourth,
                                raw,
                                outcome,
                            )
                        };
                    lemma_guard_appended(before, self.effects(), first, second, third, fourth, raw);
                    assert(condition.answers() =~= answered + answers_asked(
                        first,
                        second,
                        third,
                        fourth,
                    ));
                }
                outcome
            },
        }
    }

    /// The first phase of a guarded conditional: asks the condition once,
    /// and once more where it answers `True`, and gives the pattern of the
    /// flag that the answers record, `truth` or `falsity`. Where they record
    /// none, the device is reset and no pattern is given. The flag starts
    /// out as `unset`.
    fn record_flag<C: Fn() -> SecureBool>(
        &mut self,
        condition: &mut Query<C>,
        truth: u64,
        falsity: u64,
        unset: u64,
    ) -> (recorded: Option<u64>)
        requires
            call_requires(old(condition).condition(), ()),
        ensures
            final(condition).condition() == old(condition).condition(),
            exists|first: SecureBool, second: SecureBool|
                {
                    &&& final(condition).answers() == old(condition).answers() + first_asked(
                        first,
                        second,
                    )
                    &&& call_ensures(old(condition).condition(), (), first)
                    &&& asks_second(first) ==> call_ensures(old(condition).condition(), (), second)
                    &&& recorded == flag_word(truth, falsity, recorded_flag(first, second))
                    &&& final(self).effects() == old(self).effects() + #[trigger] first_answers(
                        first,
                        second,
                    ) + halt_effects(recorded is None)
                },
    {
        let ghost before = self.effects();
        let ghost answered = condition.answers();
        let mut flag: u64 = opaque(unset);
        let first = opaque(self.machine.ask(condition));
        if opaque(first == SecureBool::False) {
            flag = opaque(falsity);
            assert(self.effects() =~= before + first_answers(first, first) + halt_effects(false));
            assert(condition.answers() =~= answered + first_asked(first, first));
            Some(flag)
        } else if opaque(first == SecureBool::True) {
            let second = opaque(self.machine.ask(condition));
            assert(condition.answers() =~= answered + first_asked(first, second));
            if opaque(second != SecureBool::True) {
                self.secure_reset_device();
                assert(self.effects() =~= before + first_answers(first, second) + halt_effects(
                    true,
                ));
                return None;
            }
            flag = opaque(truth);
            assert(self.effects() =~= before + first_answers(first, second) + halt_effects(false));
            Some(flag)
        } else {
            self.secure_reset_device();
            assert(self.effects() =~= before + first_answers(first, first) + halt_effects(true));
            assert(condition.answers() =~= answered + first_asked(first, first));
            None
        }
    }

    /// The second phase of a guarded conditional, for the flag `value`
    /// recorded as the pattern `flag`, which is `truth` or `falsity`:
    /// barrier and jitter, then two more evaluations of the condition, and
    /// the action that both answers and the flag name, or a device reset
    /// where they name none.
    fn confirm_flag<C: Fn() -> SecureBool, S: FnOnce(), F: FnOnce()>(
        &mut self,
        condition: &mut Query<C>,
        success: Sealed<S>,
        failure: Sealed<F>,
        flag: u64,
        truth: u64,
        falsity: u64,
        Ghost(value): Ghost<SecureBool>,
    ) -> (outcome: Outcome)
        requires
            call_requires(old(condition).condition(), ()),
            call_requires(success.inner(), ()),
            call_requires(failure.inner(), ()),
            truth != falsity,
            Some(flag) == flag_word(truth, falsity, Some(value)),
        ensures
            final(condition).condition() == old(condition).condition(),
            exists|third: SecureBool, fourth: SecureBool, raw: u32|
                {
                    &&& final(condition).answers() == old(condition).answers() + seq![third, fourth]
                    &&& call_ensures(old(condition).condition(), (), third)
                    &&& call_ensures(old(condition).condition(), (), fourth)
                    &&& outcome == confirmed(value, third, fourth)
                    &&& final(self).effects() == old(self).effects() + #[trigger] confirm_effects(
                        third,
                        fourth,
                        raw,
                        outcome,
                    )
                },
            outcome is RanSuccess ==> call_ensures(success.inner(), (), ()),
            outcome is RanFailure ==> call_ensures(failure.inner(), (), ()),
    {
        let ghost before = self.effects();
        let ghost answered = condition.answers();
        self.dsb();
        let ghost fenced = self.effects();
        self.secure_random_delay();
        let ghost raw = choose|raw: u32| self.effects() == fenced + #[trigger] jitter_effects(raw);

        let third = opaque(self.machine.ask(condition));
        let fourth = opaque(self.machine.ask(condition));
        let ghost asked = self.effects();
        assert(asked =~= before + seq![Effect::Barrier] + jitter_effects(raw) + seq![
            Effect::Asked(third),
            Effect::Asked(fourth),
        ]);
        assert(condition.answers() =~= answered + seq![third, fourth]);
        let agreed_false = opaque(third == SecureBool::False) && opaque(fourth == SecureBool::False)
            && opaque(flag) == falsity;
        let agreed_true = opaque(third == SecureBool::True) && opaque(fourth == SecureBool::True)
            && opaque(flag) == truth;
        let outcome = if agreed_false {
            self.machine.fail(failure);
            self.dsb();
            Outcome::RanFailure
        } else if agreed_true {
            self.machine.succeed(success);
            self.dsb();
            Outcome::RanSuccess
        } else {
            self.secure_reset_device();
            Outcome::Halted
        };
        assert(self.effects() =~= asked + ending(outcome));
        assert(self.effects() =~= before + confirm_effects(third, fourth, raw, outcome));
        outcome
    }

    /// Verifies a condition that cannot change between its answers: it
    /// answers `True` every time if `holds`, and `False` every time if not.
    /// Where it does not hold the device is reset and the halt reported.
    fn verify<C: Fn() -> SecureBool>(&mut self, condition: C, Ghost(holds): Ghost<bool>) -> (r:
        Result<(), Halted>)
        requires
            call_requires(condition, ()),
            forall|answer: SecureBool|
                call_ensures(condition, (), answer) ==> answer == SecureBool::from_spec(holds),
        ensures
            r.is_ok() == holds,
            exists|raw: u32|
                final(self).effects() == old(self).effects() + #[trigger] check_effects(holds, raw),
    {
        let ghost before = self.effects();
        let mut query = Query::new(condition);
        let outcome = self.critical_if(&mut query, Sealed::new(|| {  }), Sealed::new(|| {  }));
        let ghost checked = self.effects();
        proof {
            let (first, second, third, fourth, raw) = choose|
                first: SecureBool,
                second: SecureBool,
                third: SecureBool,
                fourth: SecureBool,
                raw: u32,
            |
                {
                    &&& call_ensures(condition, (), first)
                    &&& asks_second(first) ==> call_ensures(condition, (), second)
                    &&& recorded_flag(first, second) is Some ==> call_ensures(condition, (), third)
                        && call_ensures(condition, (), fourth)
                    &&& outcome == guarded_outcome(first, second, third, fourth)
                    &&& checked == before + #[trigger] guard_effects(
                        first,
                        second,
                        third,
                        fourth,
                        raw,
                    )
                };
            let answer = SecureBool::from_spec(holds);
            assert(guard_effects(first, second, third, fourth, raw) == guard_effects(
                answer,
                answer,
                answer,
                answer,
                raw,
            ));
            assert(checked + halt_effects(false) =~= checked);
            assert(before + check_effects(holds, raw) =~= checked + halt_effects(!holds));
        }
        match outcome {
            Outcome::RanSuccess => Ok(()),
            Outcome::RanFailure => {
                self.secure_reset_device();
                Err(Halted)
            },
            Outcome::Halted => Err(Halted),
        }
    }

    /// A read that resists a fault on any single access.
    ///
    /// The read operation of `source` reads the source once, in a way that
    /// the compiler cannot elide. It is called four times on `src`, with a
    /// barrier around each call, and `source` holds afterwards the four
    /// values that it gave, in order. The result is [`read_result`] of
    /// those four values: their common value, or, after a device reset, the
    /// report of the halt. The steps recorded are [`read_effects`].
    pub fn critical_read<T: Copy + PartialEq, R: Fn(&T) -> T>(
        &mut self,
        src: &T,
        source: &mut Source<T, R>,
    ) -> (r: Result<T, Halted>)
        requires
            compares_by_value::<T>(),
            call_requires(old(source).read_op(), (src,)),
        ensures
            final(source).read_op() == old(source).read_op(),
            final(source).values().len() == old(source).values().len() + 4,
            final(source).values().subrange(0, old(source).values().len() as int) == old(
                source,
            ).values(),
            forall|i: int|
                old(source).values().len() <= i < final(source).values().len() ==> call_ensures(
                    old(source).read_op(),
                    (src,),
                    #[trigger] final(source).values()[i],
                ),
            r == read_result(
                final(source).values()[old(source).values().len() as int],
                final(source).values()[old(source).values().len() as int + 1],
                final(source).values()[old(source).values().len() as int + 2],
                final(source).values()[old(source).values().len() as int + 3],
            ),
            exists|raw: u32|
                final(self).effects() == old(self).effects() + #[trigger] read_effects(
                    raw,
                    r.is_err(),
                ),
            halts(final(self).effects()) == halts(old(self).effects()) + if r.is_err() {
                1nat
            } else {
                0nat
            },
    {
        let ghost before = self.effects();
        let ghost seen = source.values();
        self.dsb();
        let first = opaque(self.machine.read(source, opaque(src)));
        self.dsb();
        let second = opaque(self.machine.read(source, opaque(src)));
        self.dsb();
        let third = opaque(self.machine.read(source, opaque(src)));
        self.dsb();
        let fourth = opaque(self.machine.read(source, opaque(src)));
        self.dsb();
        let ghost fenced = self.effects();
        let ghost agree = first == second && second == third && third == fourth;
        assert(source.values() =~= seen + seq![first, second, third, fourth]);

        let all_agree = || -> (answer: SecureBool)
            ensures
                answer == SecureBool::from_spec(agree),
            { SecureBool::from(first == second && second == third && third == fourth) };
        let verified = self.verify(all_agree, Ghost(agree));
        let r = match verified {
            Ok(()) => Ok(opaque(first)),
            Err(halted) => Err(halted),
        };
        proof {
            let raw = choose|raw: u32|
                self.effects() == fenced + #[trigger] check_effects(agree, raw);
            assert(self.effects() =~= before + read_effects(raw, r.is_err()));
            lemma_read_halts(before, raw, r.is_err());
        }
        r
    }

    /// One round of a redundant write: writes `src` to `dst` once with
    /// `write_op`, then verifies that `dst` holds `src`, and resets the
    /// device where it does not.
    fn write_round<T: Copy + PartialEq, W: Fn(&mut T, T)>(
        &mut self,
        dst: &mut T,
        src: T,
        write_op: &Sealed<W>,
    ) -> (r: Result<(), Halted>)
        requires
            compares_by_value::<T>(),
            forall|d: &mut T| call_requires(write_op.inner(), (d, src)),
        ensures
            exists|d: &mut T|
                {
                    &&& *d == *old(dst)
                    &&& #[trigger] call_ensures(write_op.inner(), (d, src), ())
                    &&& *final(d) == *final(dst)
                },
            r.is_ok() <==> *final(dst) == src,
            exists|raw: u32|
                final(self).effects() == old(self).effects() + #[trigger] round_effects(
                    r.is_ok(),
                    raw,
                ),
    {
        let ghost before = self.effects();
        self.machine.write(write_op, dst, opaque(src));
        let ghost written = self.effects();
        let held: T = opaque(*dst);
        let verified = || -> (answer: SecureBool)
            ensures
                answer == SecureBool::from_spec(held == src),
            { SecureBool::from(held == src) };
        let ghost holds = held == src;
        let r = self.verify(verified, Ghost(holds));
        proof {
            let raw = choose|raw: u32|
                self.effects() == written + #[trigger] check_effects(holds, raw);
            assert(self.effects() =~= before + round_effects(r.is_ok(), raw));
        }
        r
    }

    /// A write that resists a fault on any single access.
    ///
    /// `write_op` writes its second argument to its first once, in a way
    /// that the compiler cannot elide; it is sealed, and every call of it is
    /// recorded. The write is made and verified in
    /// three rounds: each round calls `write_op` on `dst` and `src` and
    /// reads `dst` back. A round that reads `src` back is followed by the
    /// next, and after the third the write reports success. A round that
    /// reads anything else back resets the device and ends the write with
    /// the report of the halt, `dst` holding what was read. The steps
    /// recorded are [`write_effects`], with one random word for each round
    /// that ran.
    pub fn critical_write<T: Copy + PartialEq, W: Fn(&mut T, T)>(
        &mut self,
        dst: &mut T,
        src: T,
        write_op: &Sealed<W>,
    ) -> (r: Result<(), Halted>)
        requires
            compares_by_value::<T>(),
            forall|d: &mut T| call_requires(write_op.inner(), (d, src)),
        ensures
            exists|d1: &mut T|
                {
                    &&& *d1 == *old(dst)
                    &&& #[trigger] call_ensures(write_op.inner(), (d1, src), ())
                    &&& if *final(d1) != src {
                        r.is_err() && *final(dst) == *final(d1)
                    } else {
                        exists|d2: &mut T|
                            {
                                &&& *d2 == src
                                &&& #[trigger] call_ensures(write_op.inner(), (d2, src), ())
                                &&& if *final(d2) != src {
                                    r.is_err() && *final(dst) == *final(d2)
                                } else {
                                    exists|d3: &mut T|
                                        {
                                            &&& *d3 == src
                                            &&& #[trigger] call_ensures(write_op.inner(), (d3, src), ())
                                            &&& *final(dst) == *final(d3)
                                            &&& r.is_ok() <==> *final(d3) == src
                                        }
                                }
                            }
                    }
                },
            r.is_ok() ==> *final(dst) == src,
            (forall|d: &mut T| #[trigger]
                call_ensures(write_op.inner(), (d, src), ()) ==> *final(d) == src) ==> r.is_ok(),
            exists|raws: Seq<u32>|
                {
                    &&& 1 <= raws.len() <= WRITE_ROUNDS
                    &&& r.is_ok() ==> raws.len() == WRITE_ROUNDS
                    &&& final(self).effects() == old(self).effects() + #[trigger] write_effects(
                        raws,
                        r.is_err(),
                    )
                },
            halts(final(self).effects()) == halts(old(self).effects()) + if r.is_err() {
                1nat
            } else {
                0nat
            },
    {
        let ghost before = self.effects();
        self.dsb();
        let ghost fenced = self.effects();

        let round1 = self.write_round(dst, src, write_op);
        let ghost after1 = self.effects();
        let ghost c1 = choose|raw: u32|
            after1 == fenced + #[trigger] round_effects(round1.is_ok(), raw);
        proof {
            lemma_round_appended(before, Seq::empty(), c1, round1.is_ok(), fenced, after1);
        }
        if round1.is_err() {
            return round1;
        }
        let round2 = self.write_round(dst, src, write_op);
        let ghost after2 = self.effects();
        let ghost c2 = choose|raw: u32|
            after2 == after1 + #[trigger] round_effects(round2.is_ok(), raw);
        proof {
            lemma_round_appended(
                before,
                Seq::empty().push(c1),
                c2,
                round2.is_ok(),
                after1,
                after2,
            );
        }
        if round2.is_err() {
            return round2;
        }
        let round3 = self.write_round(dst, src, write_op);
        let ghost c3 = choose|raw: u32|
            self.effects() == after2 + #[trigger] round_effects(round3.is_ok(), raw);
        proof {
            lemma_round_appended(
                before,
                Seq::empty().push(c1).push(c2),
                c3,
                round3.is_ok(),
                after2,
                self.effects(),
            );
            assert(self.effects() == before + write_effects(
                Seq::empty().push(c1).push(c2).push(c3),
                round3.is_err(),
            ));
        }
        round3
    }

    /// Opens a guarded region: draws a fresh random canary from the
    /// platform's generator, pushes it onto `stack` as the reference, and
    /// copies it into `slot`, the caller's local variable that an overrun
    /// inside the region would reach, with a redundant write. The steps
    /// recorded are [`open_effects`].
    pub fn open_region(&mut self, stack: &mut RefCanaryStack, slot: &mut u64)
        requires
            old(stack).wf(),
            old(stack)@.len() < CANARY_DEPTH,
        ensures
            final(stack).wf(),
            final(stack)@ == old(stack)@.push(*final(slot)),
            exists|platform: &mut P|
                {
                    &&& *platform == old(self).platform_state()
                    &&& #[trigger] call_ensures(P::random_u64, (platform,), *final(slot))
                },
            exists|counter: Seq<u32>, reference: Seq<u32>, local: Seq<u32>|
                {
                    &&& full_rounds(counter)
                    &&& full_rounds(reference)
                    &&& full_rounds(local)
                    &&& final(self).effects() == old(self).effects() + #[trigger] open_effects(
                        *final(slot),
                        counter,
                        reference,
                        local,
                    )
                },
            halts(final(self).effects()) == halts(old(self).effects()),
    {
        let ghost before = self.effects();
        let fresh = self.machine.random_u64();
        let ghost drawn = self.effects();
        stack.push(fresh, self);
        let ghost pushed = self.effects();
        let ghost (counter, reference) = choose|counter: Seq<u32>, reference: Seq<u32>|
            {
                &&& full_rounds(counter)
                &&& full_rounds(reference)
                &&& pushed == drawn + #[trigger] push_effects(counter, reference)
            };
        let copy = self.critical_write(slot, stack.peek(), &Sealed::new(store));
        let ghost copied = self.effects();
        let ghost local = choose|raws: Seq<u32>|
            {
                &&& 1 <= raws.len() <= WRITE_ROUNDS
                &&& copy.is_ok() ==> raws.len() == WRITE_ROUNDS
                &&& copied == pushed + #[trigger] write_effects(raws, copy.is_err())
            };
        self.dsb();
        proof {
            lemma_halts_concat(before, seq![Effect::Drew64(fresh)]);
            assert(drawn =~= before + seq![Effect::Drew64(fresh)]);
            lemma_halts_concat(copied, seq![Effect::Barrier]);
            assert(self.effects() =~= copied + seq![Effect::Barrier]);
            reveal_with_fuel(halts, 2);
            assert(self.effects() =~= before + open_effects(fresh, counter, reference, local));
        }
    }

    /// Closes the guarded region opened last: pops its reference off
    /// `stack` and verifies that `slot` still holds it. Where it does not
    /// the device is reset and the halt reported. The steps recorded are
    /// [`close_effects`].
    pub fn close_region(&mut self, stack: &mut RefCanaryStack, slot: &u64) -> (r: Result<
        (),
        Halted,
    >)
        requires
            old(stack).wf(),
            old(stack)@.len() > 0,
        ensures
            final(stack).wf(),
            final(stack)@ == old(stack)@.drop_last(),
            r.is_ok() <==> *slot == old(stack)@.last(),
            exists|counter: Seq<u32>, raw: u32|
                {
                    &&& full_rounds(counter)
                    &&& final(self).effects() == old(self).effects() + #[trigger] close_effects(
                        counter,
                        raw,
                        r.is_err(),
                    )
                },
            halts(final(self).effects()) == halts(old(self).effects()) + if r.is_err() {
                1nat
            } else {
                0nat
            },
    {
        let ghost before = self.effects();
        let reference_canary = stack.pop(self);
        let ghost popped = self.effects();
        let ghost counter = choose|counter: Seq<u32>|
            {
                &&& full_rounds(counter)
                &&& popped == before + #[trigger] pop_effects(counter)
            };
        let canary: u64 = opaque(*slot);
        let intact = || -> (answer: SecureBool)
            ensures
                answer == SecureBool::from_spec(canary == reference_canary),
            { SecureBool::from(canary == reference_canary) };
        let r = self.verify(intact, Ghost(canary == reference_canary));
        proof {
            let raw = choose|raw: u32|
                self.effects() == popped + #[trigger] check_effects(r.is_ok(), raw);
            lemma_check_halts(r.is_ok(), raw);
            lemma_halts_concat(popped, check_effects(r.is_ok(), raw));
            assert(self.effects() =~= before + close_effects(counter, raw, r.is_err()));
        }
        r
    }

    /// Runs `run` as a guarded region and detects whether it wrote beyond
    /// its bounds.
    ///
    /// `run` is handed the canary slot, which stands for the memory that an
    /// overrun of its buffers would reach, holding a fresh word of the
    /// platform's generator; a block that stays within its bounds leaves
    /// the slot as it finds it. The region succeeds if and only if `run`
    /// left the slot unchanged; otherwise the device is reset and the halt
    /// reported. Either way `stack` is again as it was. The steps recorded
    /// are [`region_effects`]: the region is opened, then `run` runs, then
    /// the region is closed.
    pub fn stack_canary<R: FnOnce(&mut u64)>(
        &mut self,
        stack: &mut RefCanaryStack,
        run: Sealed<R>,
    ) -> (r: Result<(), Halted>)
        requires
            old(stack).wf(),
            old(stack)@.len() < CANARY_DEPTH,
            forall|slot: &mut u64| call_requires(run.inner(), (slot,)),
        ensures
            final(stack).wf(),
            final(stack)@ == old(stack)@,
            exists|
                slot: &mut u64,
                platform: &mut P,
                counter: Seq<u32>,
                reference: Seq<u32>,
                local: Seq<u32>,
                restored: Seq<u32>,
                raw: u32,
            |
                {
                    &&& *platform == old(self).platform_state()
                    &&& #[trigger] call_ensures(P::random_u64, (platform,), *slot)
                    &&& #[trigger] call_ensures(run.inner(), (slot,), ())
                    &&& r.is_ok() <==> *final(slot) == *slot
                    &&& full_rounds(counter)
                    &&& full_rounds(reference)
                    &&& full_rounds(local)
                    &&& full_rounds(restored)
                    &&& final(self).effects() == old(self).effects() + #[trigger] region_effects(
                        *slot,
                        counter,
                        reference,
                        local,
                        restored,
                        raw,
                        r.is_err(),
                    )
                },
            (forall|slot: &mut u64| #[trigger]
                call_ensures(run.inner(), (slot,), ()) ==> *final(slot) == *slot) ==> r.is_ok(),
            (forall|slot: &mut u64| #[trigger]
                call_ensures(run.inner(), (slot,), ()) ==> *final(slot) != *slot) ==> r.is_err(),
            halts(final(self).effects()) == halts(old(self).effects()) + if r.is_err() {
                1nat
            } else {
                0nat
            },
    {
        let ghost before = self.effects();
        let mut canary: u64 = opaque(0);
        self.open_region(stack, &mut canary);
        let ghost opened = self.effects();
        let ghost opened_canary = canary;
        let ghost (counter, reference, local) = choose|
            counter: Seq<u32>,
            reference: Seq<u32>,
            local: Seq<u32>,
        |
            {
                &&& full_rounds(counter)
                &&& full_rounds(reference)
                &&& full_rounds(local)
                &&& opened == before + #[trigger] open_effects(
                    opened_canary,
                    counter,
                    reference,
                    local,
                )
            };
        self.machine.enter(run, &mut canary);
        let ghost entered = self.effects();
        let r = self.close_region(stack, &canary);
        proof {
            lemma_push_then_pop(old(stack)@, opened_canary);
            lemma_halts_none(seq![Effect::RanBlock]);
            lemma_halts_concat(opened, seq![Effect::RanBlock]);
            assert(entered =~= opened + seq![Effect::RanBlock]);
            let (restored, raw) = choose|restored: Seq<u32>, raw: u32|
                {
                    &&& full_rounds(restored)
                    &&& self.effects() == entered + #[trigger] close_effects(
                        restored,
                        raw,
                        r.is_err(),
                    )
                };
            assert(self.effects() =~= before + region_effects(
                opened_canary,
                counter,
                reference,
                local,
                restored,
                raw,
                r.is_err(),
            ));
        }
        r
    }
}

/// The pattern of a recorded flag, where there is one: `truth` for `True`
/// and `falsity` for `False`. No flag is ever recorded as `Error`.
spec fn flag_word(truth: u64, falsity: u64, flag: Option<SecureBool>) -> Option<u64> {
    match flag {
        Some(SecureBool::True) => Some(truth),
        Some(SecureBool::False) => Some(falsity),
        _ => None,
    }
}

/// The word of a recorded draw of 32 bits, and zero for any other step.
spec fn drawn_word(step: Effect) -> u32 {
    match step {
        Effect::Drew32(raw) => raw,
        _ => 0,
    }
}

} // verus!
