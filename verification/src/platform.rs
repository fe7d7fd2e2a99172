//! What the engine asks of the machine it runs on and of its caller's
//! closures, and the record it keeps of what it asked.
//!
//! The platform and the closures are sealed in the types of this file: they
//! are reached through the methods of [`Machine`] and in no other way, and
//! each of those methods makes one call and records it. So the record holds
//! every call that was made, in the order in which it was made.

use crate::secure_bool::SecureBool;
use vstd::prelude::*;

verus! {

/// Address of the Application Interrupt and Reset Control Register.
pub const AIRCR_ADDR: u32 = 0xE000_ED0C;

/// Key that the register demands in the high half of every word written to it.
pub const AIRCR_VECTKEY: u32 = 0x05FA;

/// Position of the bit that requests a system reset.
pub const AIRCR_SYSRESETREQ_BIT: u32 = 2;

/// The word that requests a reset: the key in the high half, the request bit
/// in the low half.
pub open spec fn reset_request_word() -> u32 {
    (AIRCR_VECTKEY << 16) | (1u32 << AIRCR_SYSRESETREQ_BIT)
}

/// Computes the word that requests a reset.
pub fn reset_request() -> (word: u32)
    ensures
        word == reset_request_word(),
        word == 0x05FA_0004,
        word >> 16 == AIRCR_VECTKEY,
        word & 0xFFFF == 1u32 << AIRCR_SYSRESETREQ_BIT,
{
    let word: u32 = (AIRCR_VECTKEY << 16) | (1u32 << AIRCR_SYSRESETREQ_BIT);
    assert(word == 0x05FA_0004 && word >> 16 == 0x05FAu32 && word & 0xFFFF == 1u32 << 2u32)
        by (bit_vector)
        requires
            word == (0x05FAu32 << 16) | (1u32 << 2u32),
    ;
    word
}

/// The capabilities of the machine: entropy, delay, ordering of memory
/// accesses, and the two steps of a halt.
///
/// Nothing is assumed of an implementation. On hardware `never_exit` does not
/// return; one that does return, as in a test harness that only records the
/// request, makes the engine report the halt to its caller instead.
pub trait Platform {
    /// The next 32-bit word of a cryptographically secure random generator.
    fn random_u32(&mut self) -> u32;

    /// The next 64-bit word of a cryptographically secure random generator.
    fn random_u64(&mut self) -> u64;

    /// Blocks for about `cycles` cycles.
    fn delay(&mut self, cycles: u32);

    /// Completes every earlier memory access before any later one starts.
    fn barrier(&mut self);

    /// Writes the 32-bit `value` to the hardware register at `address`.
    fn write_register(&mut self, address: u32, value: u32);

    /// Stops execution for good.
    fn never_exit(&mut self);
}

/// One of the two actions of a guarded conditional.
#[derive(Debug, Clone, Copy, PartialEq, Eq, Structural)]
pub enum Action {
    /// The action for a condition that holds.
    Success,
    /// The action for a condition that does not hold.
    Failure,
}

/// One step that the engine took: a request made of the platform, or a call
/// of one of its caller's closures.
pub enum Effect {
    /// A memory barrier.
    Barrier,
    /// A delay of that many cycles.
    Delay(u32),
    /// A write of `value` to the register at `address`.
    RegisterWrite { address: u32, value: u32 },
    /// The end of execution.
    NeverExit,
    /// A draw of a 32-bit word from the random generator, which gave that
    /// word.
    Drew32(u32),
    /// A draw of a 64-bit word from the random generator, which gave that
    /// word.
    Drew64(u64),
    /// An evaluation of the condition of a guarded conditional, which gave
    /// that answer.
    Asked(SecureBool),
    /// A run of that action of a guarded conditional.
    Ran(Action),
    /// A single read of the source of a redundant read.
    Read,
    /// A single write to the destination of a redundant write.
    Wrote,
    /// A run of the block of a guarded region.
    RanBlock,
    /// A call of a function that is meant never to return.
    Called,
}

/// The condition of a guarded conditional, sealed, with the answers that it
/// has given so far: only [`Machine::ask`] evaluates it.
pub struct Query<C> {
    condition: C,
    answers: Ghost<Seq<SecureBool>>,
}

impl<C: Fn() -> SecureBool> Query<C> {
    /// The condition.
    pub closed spec fn condition(&self) -> C {
        self.condition
    }

    /// Every answer that the condition has given so far, oldest first.
    pub closed spec fn answers(&self) -> Seq<SecureBool> {
        self.answers@
    }

    /// Seals `condition`, which has given no answer yet.
    pub fn new(condition: C) -> (query: Self)
        ensures
            query.condition() == condition,
            query.answers() == Seq::<SecureBool>::empty(),
    {
        Query { condition, answers: Ghost(Seq::empty()) }
    }
}

/// One closure of the caller, sealed: an action of a guarded conditional,
/// which only [`Machine::succeed`] or [`Machine::fail`] runs; a write
/// operation, which only [`Machine::write`] calls; the block of a guarded
/// region, which only [`Machine::enter`] runs; or a function that is meant
/// never to return, which only [`Machine::call`] calls.
pub struct Sealed<F> {
    inner: F,
}

impl<F> Sealed<F> {
    /// The closure.
    pub closed spec fn inner(&self) -> F {
        self.inner
    }

    /// Seals `inner`.
    pub fn new(inner: F) -> (sealed: Self)
        ensures
            sealed.inner() == inner,
    {
        Sealed { inner }
    }
}

/// The read operation of a redundant read, sealed, with the values that it
/// has given so far: only [`Machine::read`] calls it.
pub struct Source<T, R> {
    read_op: R,
    values: Ghost<Seq<T>>,
}

impl<T, R: Fn(&T) -> T> Source<T, R> {
    /// The read operation.
    pub closed spec fn read_op(&self) -> R {
        self.read_op
    }

    /// Every value that the read operation has given so far, oldest first.
    pub closed spec fn values(&self) -> Seq<T> {
        self.values@
    }

    /// Seals `read_op`, which has given no value yet.
    pub fn new(read_op: R) -> (source: Self)
        ensures
            source.read_op() == read_op,
            source.values() == Seq::<T>::empty(),
    {
        Source { read_op, values: Ghost(Seq::empty()) }
    }
}

/// A platform together with the record of every step taken so far.
///
/// The platform, and what [`Query`], [`Source`] and [`Sealed`] seal, are
/// reached through the methods of this type and in no other way, and each
/// of them that makes a call records it: the record holds what was asked,
/// in the order in which it was asked.
pub struct Machine<P: Platform> {
    platform: P,
    requests: Ghost<Seq<Effect>>,
}

impl<P: Platform> Machine<P> {
    /// Every step taken so far, oldest first.
    pub closed spec fn requests(&self) -> Seq<Effect> {
        self.requests@
    }

    /// The platform as it stands.
    pub closed spec fn platform_state(&self) -> P {
        self.platform
    }

    /// Takes charge of `platform`; no request has been made yet.
    pub fn new(platform: P) -> (machine: Self)
        ensures
            machine.requests() == Seq::<Effect>::empty(),
            machine.platform_state() == platform,
    {
        Machine { platform, requests: Ghost(Seq::empty()) }
    }

    /// The platform, for inspection.
    pub fn platform(&self) -> (p: &P)
        ensures
            *p == self.platform_state(),
    {
        &self.platform
    }

    /// Gives the platform back.
    pub fn into_platform(self) -> (p: P)
        ensures
            p == self.platform_state(),
    {
        self.platform
    }

    /// Draws a 32-bit random word and records the draw: the word is the one
    /// that the platform's generator gave, and the platform is as the
    /// generator left it. Nothing more holds of the word than the platform
    /// promises of its generator.
    pub fn random_u32(&mut self) -> (word: u32)
        ensures
            exists|platform: &mut P|
                {
                    &&& *platform == old(self).platform_state()
                    &&& *final(platform) == final(self).platform_state()
                    &&& #[trigger] call_ensures(P::random_u32, (platform,), word)
                },
            final(self).requests() == old(self).requests().push(Effect::Drew32(word)),
    {
        let word = self.platform.random_u32();
        proof {
            self.requests@ = self.requests@.push(Effect::Drew32(word));
        }
        word
    }

    /// Draws a 64-bit random word and records the draw: the word is the one
    /// that the platform's generator gave, and the platform is as the
    /// generator left it. Nothing more holds of the word than the platform
    /// promises of its generator.
    pub fn random_u64(&mut self) -> (word: u64)
        ensures
            exists|platform: &mut P|
                {
                    &&& *platform == old(self).platform_state()
                    &&& *final(platform) == final(self).platform_state()
                    &&& #[trigger] call_ensures(P::random_u64, (platform,), word)
                },
            final(self).requests() == old(self).requests().push(Effect::Drew64(word)),
    {
        let word = self.platform.random_u64();
        proof {
            self.requests@ = self.requests@.push(Effect::Drew64(word));
        }
        word
    }

    /// Evaluates the condition of `query` once, and records the evaluation
    /// here and the answer both here and in `query`. The platform is not
    /// touched.
    pub fn ask<C: Fn() -> SecureBool>(&mut self, query: &mut Query<C>) -> (answer: SecureBool)
        requires
            call_requires(old(query).condition(), ()),
        ensures
            call_ensures(old(query).condition(), (), answer),
            final(query).condition() == old(query).condition(),
            final(query).answers() == old(query).answers().push(answer),
            final(self).requests() == old(self).requests().push(Effect::Asked(answer)),
            final(self).platform_state() == old(self).platform_state(),
    {
        let answer = (query.condition)();
        proof {
            query.answers@ = query.answers@.push(answer);
            self.requests@ = self.requests@.push(Effect::Asked(answer));
        }
        answer
    }

    /// Runs `action` as the success action of a guarded conditional, and
    /// records the run. The action is used up, and the platform is not
    /// touched.
    pub fn succeed<S: FnOnce()>(&mut self, action: Sealed<S>)
        requires
            call_requires(action.inner(), ()),
        ensures
            call_ensures(action.inner(), (), ()),
            final(self).requests() == old(self).requests().push(Effect::Ran(Action::Success)),
            final(self).platform_state() == old(self).platform_state(),
    {
        let Sealed { inner } = action;
        inner();
        proof {
            self.requests@ = self.requests@.push(Effect::Ran(Action::Success));
        }
    }

    /// Runs `action` as the failure action of a guarded conditional, and
    /// records the run. The action is used up, and the platform is not
    /// touched.
    pub fn fail<F: FnOnce()>(&mut self, action: Sealed<F>)
        requires
            call_requires(action.inner(), ()),
        ensures
            call_ensures(action.inner(), (), ()),
            final(self).requests() == old(self).requests().push(Effect::Ran(Action::Failure)),
            final(self).platform_state() == old(self).platform_state(),
    {
        let Sealed { inner } = action;
        inner();
        proof {
            self.requests@ = self.requests@.push(Effect::Ran(Action::Failure));
        }
    }

    /// Reads `src` once with the read operation of `source`, and records the
    /// read here and the value that it gave in `source`. The platform is not
    /// touched.
    pub fn read<T: Copy, R: Fn(&T) -> T>(&mut self, source: &mut Source<T, R>, src: &T) -> (value:
        T)
        requires
            call_requires(old(source).read_op(), (src,)),
        ensures
            call_ensures(old(source).read_op(), (src,), value),
            final(source).read_op() == old(source).read_op(),
            final(source).values() == old(source).values().push(value),
            final(self).requests() == old(self).requests().push(Effect::Read),
            final(self).platform_state() == old(self).platform_state(),
    {
        let value = (source.read_op)(src);
        proof {
            source.values@ = source.values@.push(value);
            self.requests@ = self.requests@.push(Effect::Read);
        }
        value
    }

    /// Writes `src` to `dst` once with the write operation `write_op`, and
    /// records the write. The platform is not touched.
    pub fn write<T, W: Fn(&mut T, T)>(&mut self, write_op: &Sealed<W>, dst: &mut T, src: T)
        requires
            forall|d: &mut T| call_requires(write_op.inner(), (d, src)),
        ensures
            exists|d: &mut T|
                {
                    &&& *d == *old(dst)
                    &&& #[trigger] call_ensures(write_op.inner(), (d, src), ())
                    &&& *final(d) == *final(dst)
                },
            final(self).requests() == old(self).requests().push(Effect::Wrote),
            final(self).platform_state() == old(self).platform_state(),
    {
        let op = &write_op.inner;
        assert(*op == write_op.inner());
        op(dst, src);
        proof {
            self.requests@ = self.requests@.push(Effect::Wrote);
        }
    }

    /// Runs the block `block` on `slot`, and records the run. The block is
    /// used up, and the platform is not touched.
    pub fn enter<R: FnOnce(&mut u64)>(&mut self, block: Sealed<R>, slot: &mut u64)
        requires
            forall|s: &mut u64| call_requires(block.inner(), (s,)),
        ensures
            exists|s: &mut u64|
                {
                    &&& *s == *old(slot)
                    &&& #[trigger] call_ensures(block.inner(), (s,), ())
                    &&& *final(s) == *final(slot)
                },
            final(self).requests() == old(self).requests().push(Effect::RanBlock),
            final(self).platform_state() == old(self).platform_state(),
    {
        let Sealed { inner } = block;
        assert(inner == block.inner());
        inner(slot);
        proof {
            self.requests@ = self.requests@.push(Effect::RanBlock);
        }
    }

    /// Calls `func`, and records the call. The function is used up, and the
    /// platform is not touched.
    pub fn call<F: FnOnce()>(&mut self, func: Sealed<F>)
        requires
            call_requires(func.inner(), ()),
        ensures
            call_ensures(func.inner(), (), ()),
            final(self).requests() == old(self).requests().push(Effect::Called),
            final(self).platform_state() == old(self).platform_state(),
    {
        let Sealed { inner } = func;
        inner();
        proof {
            self.requests@ = self.requests@.push(Effect::Called);
        }
    }

    /// Asks the platform for a delay of `cycles` cycles, and records the
    /// request.
    pub fn delay(&mut self, cycles: u32)
        ensures
            exists|platform: &mut P|
                {
                    &&& *platform == old(self).platform_state()
                    &&& *final(platform) == final(self).platform_state()
                    &&& #[trigger] call_ensures(P::delay, (platform, cycles), ())
                },
            final(self).requests() == old(self).requests().push(Effect::Delay(cycles)),
    {
        self.platform.delay(cycles);
        proof {
            self.requests@ = self.requests@.push(Effect::Delay(cycles));
        }
    }

    /// Asks the platform for a memory barrier, and records the request.
    pub fn barrier(&mut self)
        ensures
            exists|platform: &mut P|
                {
                    &&& *platform == old(self).platform_state()
                    &&& *final(platform) == final(self).platform_state()
                    &&& #[trigger] call_ensures(P::barrier, (platform,), ())
                },
            final(self).requests() == old(self).requests().push(Effect::Barrier),
    {
        self.platform.barrier();
        proof {
            self.requests@ = self.requests@.push(Effect::Barrier);
        }
    }

    /// Asks the platform for a write of `value` to the register at
    /// `address`, and records the request.
    pub fn write_register(&mut self, address: u32, value: u32)
        ensures
            exists|platform: &mut P|
                {
                    &&& *platform == old(self).platform_state()
                    &&& *final(platform) == final(self).platform_state()
                    &&& #[trigger] call_ensures(P::write_register, (platform, address, value), ())
                },
            final(self).requests() == old(self).requests().push(
                Effect::RegisterWrite { address, value },
            ),
    {
        self.platform.write_register(address, value);
        proof {
            self.requests@ = self.requests@.push(Effect::RegisterWrite { address, value });
        }
    }

    /// Asks the platform for the end of execution, and records the
    /// request.
    pub fn never_exit(&mut self)
        ensures
            exists|platform: &mut P|
                {
                    &&& *platform == old(self).platform_state()
                    &&& *final(platform) == final(self).platform_state()
                    &&& #[trigger] call_ensures(P::never_exit, (platform,), ())
                },
            final(self).requests() == old(self).requests().push(Effect::NeverExit),
    {
        self.platform.never_exit();
        proof {
            self.requests@ = self.requests@.push(Effect::NeverExit);
        }
    }
}

/// The requests of a device reset, in order: barrier, reset request,
/// barrier, end of execution.
pub open spec fn reset_sequence() -> Seq<Effect> {
    seq![
        Effect::Barrier,
        Effect::RegisterWrite { address: AIRCR_ADDR, value: reset_request_word() },
        Effect::Barrier,
        Effect::NeverExit,
    ]
}

/// Number of times `effects` ends execution.
pub open spec fn halts(effects: Seq<Effect>) -> nat
    decreases effects.len(),
{
    if effects.len() == 0 {
        0
    } else {
        halts(effects.drop_last()) + if effects.last() is NeverExit {
            1nat
        } else {
            0nat
        }
    }
}

/// The halts of two runs of requests, one after the other, add up.
pub proof fn lemma_halts_concat(a: Seq<Effect>, b: Seq<Effect>)
    ensures
        halts(a + b) == halts(a) + halts(b),
    decreases b.len(),
{
    if b.len() == 0 {
        assert(a + b =~= a);
    } else {
        lemma_halts_concat(a, b.drop_last());
        assert((a + b).drop_last() =~= a + b.drop_last());
    }
}

/// Steps among which none is the end of execution do not end it.
pub proof fn lemma_halts_none(effects: Seq<Effect>)
    requires
        forall|i: int| 0 <= i < effects.len() ==> !(#[trigger] effects[i] is NeverExit),
    ensures
        halts(effects) == 0,
    decreases effects.len(),
{
    if effects.len() > 0 {
        lemma_halts_none(effects.drop_last());
    }
}

/// A device reset ends execution exactly once.
pub proof fn lemma_halts_of_reset()
    ensures
        halts(reset_sequence()) == 1,
{
    reveal_with_fuel(halts, 5);
}

/// The actions that `effects` ran, in order.
pub open spec fn actions(effects: Seq<Effect>) -> Seq<Action>
    decreases effects.len(),
{
    if effects.len() == 0 {
        Seq::empty()
    } else {
        match effects.last() {
            Effect::Ran(action) => actions(effects.drop_last()).push(action),
            _ => actions(effects.drop_last()),
        }
    }
}

/// The actions of two runs of steps, one after the other, follow one
/// another.
pub proof fn lemma_actions_concat(a: Seq<Effect>, b: Seq<Effect>)
    ensures
        actions(a + b) == actions(a) + actions(b),
    decreases b.len(),
{
    if b.len() == 0 {
        assert(a + b =~= a);
        assert(actions(a) + actions(b) =~= actions(a));
    } else {
        lemma_actions_concat(a, b.drop_last());
        assert((a + b).drop_last() =~= a + b.drop_last());
        assert(actions(a + b) =~= actions(a) + actions(b));
    }
}

/// Steps among which none is a run of an action run none.
pub proof fn lemma_actions_none(effects: Seq<Effect>)
    requires
        forall|i: int| 0 <= i < effects.len() ==> !(#[trigger] effects[i] is Ran),
    ensures
        actions(effects) == Seq::<Action>::empty(),
    decreases effects.len(),
{
    if effects.len() > 0 {
        lemma_actions_none(effects.drop_last());
    }
}

/// A device reset runs no action.
pub proof fn lemma_actions_of_reset()
    ensures
        actions(reset_sequence()) == Seq::<Action>::empty(),
{
    lemma_actions_none(reset_sequence());
}

} // verus!
