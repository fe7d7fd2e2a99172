//! The stack of reference canaries: a bounded LIFO that lives apart from the
//! call stack, so that what overruns a buffer there cannot reach it.

use crate::engine::FaultInjectionPrevention;
use crate::hardening::opaque;
use crate::memory::{check_effects, lemma_write_halts, store, write_effects, WRITE_ROUNDS};
use crate::platform::{halts, Effect, Platform, Sealed};
use vstd::prelude::*;

verus! {

/// Number of slots of a canary stack. The lowest slot is never used, so a
/// stack holds one reference fewer.
pub const CANARY_SLOTS: usize = 50;

/// Most references that a canary stack holds at once.
pub const CANARY_DEPTH: usize = 49;

/// Whether `raws` are the random words of a redundant write that ran all its
/// rounds: one for the jitter of each round.
pub open spec fn full_rounds(raws: Seq<u32>) -> bool {
    raws.len() == WRITE_ROUNDS
}

/// The steps of a push: a redundant write of the counter, then one of the
/// slot.
pub open spec fn push_effects(counter: Seq<u32>, slot: Seq<u32>) -> Seq<Effect> {
    write_effects(counter, false) + write_effects(slot, false)
}

/// The steps of a pop: a redundant write of the counter.
pub open spec fn pop_effects(counter: Seq<u32>) -> Seq<Effect> {
    write_effects(counter, false)
}

/// The steps of a guarded region: those that open it, the run of its block,
/// and those that close it.
pub open spec fn region_effects(
    canary: u64,
    counter: Seq<u32>,
    slot: Seq<u32>,
    local: Seq<u32>,
    restored: Seq<u32>,
    raw: u32,
    halted: bool,
) -> Seq<Effect> {
    open_effects(canary, counter, slot, local) + seq![Effect::RanBlock] + close_effects(
        restored,
        raw,
        halted,
    )
}

/// The steps that open a guarded region: the draw of `canary`, a push, a
/// redundant write of the local canary, and a barrier.
pub open spec fn open_effects(
    canary: u64,
    counter: Seq<u32>,
    slot: Seq<u32>,
    local: Seq<u32>,
) -> Seq<Effect> {
    seq![Effect::Drew64(canary)] + push_effects(counter, slot) + write_effects(local, false)
        + seq![Effect::Barrier]
}

/// The steps that close a guarded region: a pop and one verification, which
/// holds unless the local canary is not the reference.
pub open spec fn close_effects(counter: Seq<u32>, raw: u32, halted: bool) -> Seq<Effect> {
    pop_effects(counter) + check_effects(!halted, raw)
}

/// A stack of reference canaries.
pub struct RefCanaryStack {
    reference_canary_vec: [u64; 50],
    counter: usize,
}

impl View for RefCanaryStack {
    type V = Seq<u64>;

    /// The references on the stack, oldest first: the slots from the second
    /// up to the one that the counter names.
    open spec fn view(&self) -> Seq<u64> {
        self.slots().subrange(1, self.top() + 1)
    }
}

impl RefCanaryStack {
    /// All slots of the stack, used or not, lowest first.
    pub closed spec fn slots(&self) -> Seq<u64> {
        self.reference_canary_vec@
    }

    /// The counter: the index of the slot that holds the newest reference,
    /// and zero where the stack is empty.
    pub closed spec fn top(&self) -> int {
        self.counter as int
    }

    /// The invariant of a stack: its counter names a slot, and the lowest
    /// slot holds zero.
    pub closed spec fn wf(&self) -> bool {
        &&& self.counter < CANARY_SLOTS
        &&& self.reference_canary_vec@[0] == 0
    }

    /// A well-formed stack has as many slots as a stack has, a counter that
    /// names one of them, and zero in the lowest.
    pub proof fn lemma_wf(&self)
        requires
            self.wf(),
        ensures
            self.slots().len() == CANARY_SLOTS,
            0 <= self.top() < CANARY_SLOTS,
            self.slots()[0] == 0,
            self@.len() == self.top(),
    {
    }

    /// Creates an empty stack, with zero in every slot.
    pub fn new() -> (stack: Self)
        ensures
            stack.wf(),
            stack@ == Seq::<u64>::empty(),
            stack.top() == 0,
            stack.slots() == Seq::new(CANARY_SLOTS as nat, |i: int| 0u64),
    {
        let stack = RefCanaryStack { reference_canary_vec: [0u64; 50], counter: 0 };
        assert(stack.slots() =~= Seq::new(CANARY_SLOTS as nat, |i: int| 0u64));
        stack
    }

    /// Number of references on the stack.
    pub fn depth(&self) -> (n: usize)
        requires
            self.wf(),
        ensures
            n == self@.len(),
            n == self.top(),
            n <= CANARY_DEPTH,
    {
        self.counter
    }

    /// The newest reference on the stack, or zero where the stack is empty.
    pub fn peek(&self) -> (canary: u64)
        requires
            self.wf(),
        ensures
            canary == self.slots()[self.top()],
            canary == if self@.len() > 0 {
                self@.last()
            } else {
                0
            },
    {
        self.reference_canary_vec[self.counter]
    }

    /// Pushes `new_canary`, counter first and slot second, each with a
    /// redundant write. The counter goes up by one and `new_canary` goes
    /// into the slot that it then names; every other slot stays as it is.
    pub fn push<P: Platform>(&mut self, new_canary: u64, fip: &mut FaultInjectionPrevention<P>)
        requires
            old(self).wf(),
            old(self)@.len() < CANARY_DEPTH,
        ensures
            final(self).wf(),
            final(self)@ == old(self)@.push(new_canary),
            final(self).top() == old(self).top() + 1,
            final(self).slots() == old(self).slots().update(old(self).top() + 1, new_canary),
            exists|counter: Seq<u32>, slot: Seq<u32>|
                {
                    &&& full_rounds(counter)
                    &&& full_rounds(slot)
                    &&& final(fip).effects() == old(fip).effects() + #[trigger] push_effects(
                        counter,
                        slot,
                    )
                },
            halts(final(fip).effects()) == halts(old(fip).effects()),
    {
        let ghost before = fip.effects();
        let current_counter = self.counter;
        let counted = fip.critical_write(
            &mut self.counter,
            opaque(current_counter + 1),
            &Sealed::new(store),
        );
        let ghost mid = fip.effects();
        let ghost counter = choose|raws: Seq<u32>|
            {
                &&& 1 <= raws.len() <= WRITE_ROUNDS
                &&& counted.is_ok() ==> raws.len() == WRITE_ROUNDS
                &&& mid == before + #[trigger] write_effects(raws, counted.is_err())
            };
        let stored = fip.critical_write(
            &mut self.reference_canary_vec[self.counter],
            new_canary,
            &Sealed::new(store),
        );
        let ghost slot = choose|raws: Seq<u32>|
            {
                &&& 1 <= raws.len() <= WRITE_ROUNDS
                &&& stored.is_ok() ==> raws.len() == WRITE_ROUNDS
                &&& fip.effects() == mid + #[trigger] write_effects(raws, stored.is_err())
            };
        proof {
            assert(fip.effects() =~= before + push_effects(counter, slot));
            lemma_write_halts(before, counter, false);
            lemma_write_halts(mid, slot, false);
        }
    }

    /// Pops the newest reference: reads its slot, then lowers the counter
    /// with a redundant write. No slot changes: the popped reference stays
    /// where it was, above the counter.
    pub fn pop<P: Platform>(&mut self, fip: &mut FaultInjectionPrevention<P>) -> (canary: u64)
        requires
            old(self).wf(),
            old(self)@.len() > 0,
        ensures
            final(self).wf(),
            canary == old(self)@.last(),
            final(self)@ == old(self)@.drop_last(),
            final(self).top() == old(self).top() - 1,
            final(self).slots() == old(self).slots(),
            exists|counter: Seq<u32>|
                {
                    &&& full_rounds(counter)
                    &&& final(fip).effects() == old(fip).effects() + #[trigger] pop_effects(counter)
                },
            halts(final(fip).effects()) == halts(old(fip).effects()),
    {
        let ghost before = fip.effects();
        let popped_value = self.reference_canary_vec[self.counter];
        let current_counter = self.counter;
        let counted = fip.critical_write(
            &mut self.counter,
            opaque(current_counter - 1),
            &Sealed::new(store),
        );
        let ghost counter = choose|raws: Seq<u32>|
            {
                &&& 1 <= raws.len() <= WRITE_ROUNDS
                &&& counted.is_ok() ==> raws.len() == WRITE_ROUNDS
                &&& fip.effects() == before + #[trigger] write_effects(raws, counted.is_err())
            };
        proof {
            assert(fip.effects() == before + pop_effects(counter));
            lemma_write_halts(before, counter, false);
        }
        popped_value
    }
}

/// One operation on a canary stack.
pub enum StackOp {
    /// A push of that value.
    Push(u64),
    /// A pop.
    Pop,
}

/// The stack that `stack` becomes when `ops` are made on it, first to last.
pub open spec fn after_ops(stack: Seq<u64>, ops: Seq<StackOp>) -> Seq<u64>
    decreases ops.len(),
{
    if ops.len() == 0 {
        stack
    } else {
        let before = after_ops(stack, ops.drop_last());
        match ops.last() {
            StackOp::Push(canary) => before.push(canary),
            StackOp::Pop => before.drop_last(),
        }
    }
}

/// The pushes of `ops` less its pops.
pub open spec fn depth_change(ops: Seq<StackOp>) -> int
    decreases ops.len(),
{
    if ops.len() == 0 {
        0
    } else {
        depth_change(ops.drop_last()) + match ops.last() {
            StackOp::Push(_) => 1int,
            StackOp::Pop => -1int,
        }
    }
}

/// Whether `ops` nest legally: at no point have they popped more than they
/// pushed.
pub open spec fn nests(ops: Seq<StackOp>) -> bool {
    forall|n: int| 0 <= n <= ops.len() ==> depth_change(#[trigger] ops.subrange(0, n)) >= 0
}

/// Operations that nest legally leave what was on the stack before them
/// where it was, below what they add.
pub proof fn lemma_nesting_keeps_below(stack: Seq<u64>, ops: Seq<StackOp>)
    requires
        nests(ops),
    ensures
        after_ops(stack, ops).len() == stack.len() + depth_change(ops),
        after_ops(stack, ops).subrange(0, stack.len() as int) == stack,
    decreases ops.len(),
{
    assert(ops.subrange(0, ops.len() as int) =~= ops);
    if ops.len() == 0 {
        assert(stack.subrange(0, stack.len() as int) =~= stack);
    } else {
        let rest = ops.drop_last();
        assert forall|n: int| 0 <= n <= rest.len() implies depth_change(
            #[trigger] rest.subrange(0, n),
        ) >= 0 by {
            assert(rest.subrange(0, n) =~= ops.subrange(0, n));
        }
        assert(rest =~= ops.subrange(0, ops.len() - 1));
        lemma_nesting_keeps_below(stack, rest);
        let before = after_ops(stack, rest);
        assert(after_ops(stack, ops).subrange(0, stack.len() as int) =~= before.subrange(
            0,
            stack.len() as int,
        ));
    }
}

/// Whatever legal nesting of pushes and pops lies between a push and the pop
/// that matches it, that pop returns the value pushed and leaves the stack
/// as it was before the push.
pub proof fn lemma_nested_pop_matches_push(stack: Seq<u64>, canary: u64, inner: Seq<StackOp>)
    requires
        nests(inner),
        depth_change(inner) == 0,
    ensures
        after_ops(stack.push(canary), inner) == stack.push(canary),
        after_ops(stack.push(canary), inner).last() == canary,
        after_ops(stack.push(canary), inner).drop_last() == stack,
{
    lemma_nesting_keeps_below(stack.push(canary), inner);
    let after = after_ops(stack.push(canary), inner);
    assert(after =~= after.subrange(0, after.len() as int));
    lemma_push_then_pop(stack, canary);
}

/// The stack that `stack` becomes when the values of `pushed` are pushed
/// onto it, first to last.
pub open spec fn after_pushes(stack: Seq<u64>, pushed: Seq<u64>) -> Seq<u64>
    decreases pushed.len(),
{
    if pushed.len() == 0 {
        stack
    } else {
        after_pushes(stack, pushed.drop_last()).push(pushed.last())
    }
}

/// The values that `count` pops in a row take off `stack`, in the order in
/// which they come off.
pub open spec fn popped(stack: Seq<u64>, count: nat) -> Seq<u64>
    decreases count,
{
    if count == 0 {
        Seq::empty()
    } else {
        seq![stack.last()] + popped(stack.drop_last(), (count - 1) as nat)
    }
}

/// The stack that `count` pops in a row leave of `stack`.
pub open spec fn after_pops(stack: Seq<u64>, count: nat) -> Seq<u64>
    decreases count,
{
    if count == 0 {
        stack
    } else {
        after_pops(stack.drop_last(), (count - 1) as nat)
    }
}

/// A pop right after a push returns the value pushed and leaves the stack as
/// it was before the push, its depth included.
pub proof fn lemma_push_then_pop(stack: Seq<u64>, canary: u64)
    ensures
        stack.push(canary).last() == canary,
        stack.push(canary).drop_last() == stack,
        stack.push(canary).drop_last().len() == stack.len(),
{
    assert(stack.push(canary).drop_last() =~= stack);
}

/// As many pops as there were pushes return the values pushed in the
/// reverse of the order in which they were pushed, and leave the stack as it
/// was before the first push.
pub proof fn lemma_pops_reverse_pushes(stack: Seq<u64>, pushed: Seq<u64>)
    ensures
        popped(after_pushes(stack, pushed), pushed.len()) == pushed.reverse(),
        after_pops(after_pushes(stack, pushed), pushed.len()) == stack,
    decreases pushed.len(),
{
    if pushed.len() > 0 {
        let rest = pushed.drop_last();
        let inner = after_pushes(stack, rest);
        lemma_pops_reverse_pushes(stack, rest);
        lemma_push_then_pop(inner, pushed.last());
        assert(pushed.reverse() =~= seq![pushed.last()] + rest.reverse());
    } else {
        assert(pushed.reverse() =~= Seq::<u64>::empty());
    }
}

} // verus!
