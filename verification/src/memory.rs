//! What redundant reads and writes report and record, as a function of what
//! each single access observed.

use crate::guard::{answer_for, guard_effects, lemma_guard_summary, Halted};
use crate::platform::{
    halts, lemma_halts_concat, lemma_halts_none, lemma_halts_of_reset, reset_sequence, Effect,
};
use vstd::prelude::*;
use vstd::std_specs::cmp::PartialEqSpec;

verus! {

/// Whether `==` on `T` is equality of values: what holds of every type that
/// is compared bit by bit.
pub open spec fn compares_by_value<T: PartialEq>() -> bool {
    &&& T::obeys_eq_spec()
    &&& forall|a: T, b: T| #[trigger] a.eq_spec(&b) <==> a == b
}

/// What a redundant read reports for four single reads: their common value,
/// or a halt where any of them differs from another.
pub open spec fn read_result<T>(first: T, second: T, third: T, fourth: T) -> Result<T, Halted> {
    if first == second && second == third && third == fourth {
        Ok(first)
    } else {
        Err(Halted)
    }
}

/// A source that does not change between the four reads is reported as it
/// is, and a source that differs on one read alone is reported as a halt.
pub proof fn lemma_read_result<T>(value: T, other: T)
    requires
        other != value,
    ensures
        read_result(value, value, value, value) == Ok::<T, Halted>(value),
        read_result(other, value, value, value) == Err::<T, Halted>(Halted),
        read_result(value, other, value, value) == Err::<T, Halted>(Halted),
        read_result(value, value, other, value) == Err::<T, Halted>(Halted),
        read_result(value, value, value, other) == Err::<T, Halted>(Halted),
{
}

/// Number of rounds of write and verify in a redundant write.
pub const WRITE_ROUNDS: u32 = 3;

/// The steps that end an operation: a device reset where it halts, none
/// where it does not.
pub open spec fn halt_effects(halted: bool) -> Seq<Effect> {
    if halted {
        reset_sequence()
    } else {
        Seq::empty()
    }
}

/// The steps of one verification, whose condition cannot change between its
/// answers and whose jitter drew `raw`: those of a guarded conditional whose
/// condition answers `True` every time if `holds` and `False` every time if
/// not, and then a device reset if not.
pub open spec fn check_effects(holds: bool, raw: u32) -> Seq<Effect> {
    guard_effects(
        answer_for(holds),
        answer_for(holds),
        answer_for(holds),
        answer_for(holds),
        raw,
    ) + halt_effects(!holds)
}

/// The steps of one round of a redundant write: the write, then the
/// verification that what was written is there.
pub open spec fn round_effects(holds: bool, raw: u32) -> Seq<Effect> {
    seq![Effect::Wrote] + check_effects(holds, raw)
}

/// The steps of one round after another, all of which hold, one for each
/// word of `raws`.
pub open spec fn rounds_effects(raws: Seq<u32>) -> Seq<Effect>
    decreases raws.len(),
{
    if raws.len() == 0 {
        Seq::empty()
    } else {
        rounds_effects(raws.drop_last()) + round_effects(true, raws.last())
    }
}

/// The steps of a redundant read: a barrier around each of the four reads,
/// and one verification, which holds unless the read halts.
pub open spec fn read_effects(raw: u32, halted: bool) -> Seq<Effect> {
    seq![
        Effect::Barrier,
        Effect::Read,
        Effect::Barrier,
        Effect::Read,
        Effect::Barrier,
        Effect::Read,
        Effect::Barrier,
        Effect::Read,
        Effect::Barrier,
    ] + check_effects(!halted, raw)
}

/// The steps of a redundant write that ran as many rounds as `raws` has
/// words: a barrier and then the rounds, of which all hold but the last,
/// which holds unless the write halts.
pub open spec fn write_effects(raws: Seq<u32>, halted: bool) -> Seq<Effect>
    recommends
        raws.len() > 0,
{
    seq![Effect::Barrier] + rounds_effects(raws.drop_last()) + round_effects(!halted, raws.last())
}

/// A verification ends execution once if it does not hold, and not at all
/// if it holds.
pub proof fn lemma_check_halts(holds: bool, raw: u32)
    ensures
        halts(check_effects(holds, raw)) == if holds {
            0nat
        } else {
            1nat
        },
{
    let answer = answer_for(holds);
    let guard = guard_effects(answer, answer, answer, answer, raw);
    lemma_guard_summary(answer, answer, answer, answer, raw);
    lemma_halts_concat(guard, halt_effects(!holds));
    if holds {
        assert(halts(halt_effects(false)) == 0);
    } else {
        lemma_halts_of_reset();
    }
}

/// A round ends execution once if it does not hold, and not at all if it
/// holds.
pub proof fn lemma_round_halts(holds: bool, raw: u32)
    ensures
        halts(round_effects(holds, raw)) == if holds {
            0nat
        } else {
            1nat
        },
{
    lemma_check_halts(holds, raw);
    lemma_halts_none(seq![Effect::Wrote]);
    lemma_halts_concat(seq![Effect::Wrote], check_effects(holds, raw));
}

/// Rounds that all hold never end execution.
pub proof fn lemma_rounds_halts(raws: Seq<u32>)
    ensures
        halts(rounds_effects(raws)) == 0,
    decreases raws.len(),
{
    if raws.len() > 0 {
        lemma_rounds_halts(raws.drop_last());
        lemma_round_halts(true, raws.last());
        lemma_halts_concat(rounds_effects(raws.drop_last()), round_effects(true, raws.last()));
    }
}

/// A redundant write ends execution once if it halts and never otherwise.
pub proof fn lemma_write_halts(before: Seq<Effect>, raws: Seq<u32>, halted: bool)
    requires
        raws.len() > 0,
    ensures
        halts(before + write_effects(raws, halted)) == halts(before) + if halted {
            1nat
        } else {
            0nat
        },
{
    let head = seq![Effect::Barrier] + rounds_effects(raws.drop_last());
    lemma_rounds_halts(raws.drop_last());
    lemma_round_halts(!halted, raws.last());
    lemma_halts_concat(seq![Effect::Barrier], rounds_effects(raws.drop_last()));
    lemma_halts_concat(head, round_effects(!halted, raws.last()));
    lemma_halts_concat(before, write_effects(raws, halted));
    lemma_halts_none(seq![Effect::Barrier]);
}

/// What one more round adds to a redundant write: after rounds that all
/// held, with the words `earlier`, a round with the word `raw` makes the
/// steps so far those of a write of one round more, which halts if the round
/// does not hold.
pub proof fn lemma_round_appended(
    before: Seq<Effect>,
    earlier: Seq<u32>,
    raw: u32,
    holds: bool,
    so_far: Seq<Effect>,
    after: Seq<Effect>,
)
    requires
        so_far =~= before + seq![Effect::Barrier] + rounds_effects(earlier),
        after =~= so_far + round_effects(holds, raw),
    ensures
        after == before + write_effects(earlier.push(raw), !holds),
        holds ==> after == before + seq![Effect::Barrier] + rounds_effects(earlier.push(raw)),
        halts(after) == halts(before) + if holds {
            0nat
        } else {
            1nat
        },
{
    let raws = earlier.push(raw);
    assert(raws.drop_last() =~= earlier);
    assert(after =~= before + write_effects(raws, !holds));
    if holds {
        assert(after =~= before + seq![Effect::Barrier] + rounds_effects(raws));
    }
    lemma_write_halts(before, raws, !holds);
}

/// A redundant read ends execution once if it halts and never otherwise.
pub proof fn lemma_read_halts(before: Seq<Effect>, raw: u32, halted: bool)
    ensures
        halts(before + read_effects(raw, halted)) == halts(before) + if halted {
            1nat
        } else {
            0nat
        },
{
    let reads = seq![
        Effect::Barrier,
        Effect::Read,
        Effect::Barrier,
        Effect::Read,
        Effect::Barrier,
        Effect::Read,
        Effect::Barrier,
        Effect::Read,
        Effect::Barrier,
    ];
    lemma_check_halts(!halted, raw);
    lemma_halts_none(reads);
    lemma_halts_concat(reads, check_effects(!halted, raw));
    lemma_halts_concat(before, read_effects(raw, halted));
}

/// The plain write operation: stores `src` in `dst`.
pub fn store<T>(dst: &mut T, src: T)
    ensures
        *final(dst) == src,
{
    *dst = src;
}

} // verus!
