//! What the guarded conditional decides and records, as a function of what
//! its condition answered each time it was asked.
//!
//! The condition is asked up to four times. The first answer, confirmed by
//! the second where it is `True`, fixes a recorded flag. After the jitter the
//! condition is asked twice more, and an action runs only if both answers
//! and the recorded flag name it. Every answer that is asked for must equal
//! the first, and the first must be `True` or `False`: anything else is a
//! halt.

use crate::jitter::{scaled, JITTER_MAX_CYCLES, JITTER_MIN_CYCLES};
use crate::platform::{
    actions, halts, lemma_actions_concat, lemma_actions_none, lemma_actions_of_reset,
    lemma_halts_concat, lemma_halts_none, lemma_halts_of_reset, reset_sequence, Action, Effect,
};
use crate::secure_bool::SecureBool;
use vstd::prelude::*;

verus! {

/// The report of a detected fault: the device was reset. On hardware the
/// reset does not return, and no caller ever holds this value.
#[derive(Debug, Clone, Copy, PartialEq, Eq, Structural)]
pub struct Halted;

/// How a guarded conditional ended.
#[derive(Debug, Clone, Copy, PartialEq, Eq, Structural)]
pub enum Outcome {
    /// Every check named the true path; the success action ran.
    RanSuccess,
    /// Every check named the false path; the failure action ran.
    RanFailure,
    /// Two checks disagreed, or one gave `Error`; the device was reset and
    /// neither action ran.
    Halted,
}

/// The answer of a condition that holds, or of one that does not.
pub open spec fn answer_for(holds: bool) -> SecureBool {
    if holds {
        SecureBool::True
    } else {
        SecureBool::False
    }
}

/// Whether the condition is asked a second time before the jitter: it is
/// where its first answer is `True`.
pub open spec fn asks_second(first: SecureBool) -> bool {
    first == SecureBool::True
}

/// The flag recorded from the first two answers: `False` where the first is
/// `False` (the second is then not asked for), `True` where both are `True`,
/// and none, for a halt, where the first is `Error` or the second is not
/// `True`.
pub open spec fn recorded_flag(first: SecureBool, second: SecureBool) -> Option<SecureBool> {
    match first {
        SecureBool::False => Some(SecureBool::False),
        SecureBool::True => if second == SecureBool::True {
            Some(SecureBool::True)
        } else {
            None
        },
        SecureBool::Error => None,
    }
}

/// The outcome once `flag` is recorded: an action runs only if the third
/// answer, the fourth answer and the flag all name it.
pub open spec fn confirmed(flag: SecureBool, third: SecureBool, fourth: SecureBool) -> Outcome {
    if third == SecureBool::False && fourth == SecureBool::False && flag == SecureBool::False {
        Outcome::RanFailure
    } else if third == SecureBool::True && fourth == SecureBool::True && flag == SecureBool::True {
        Outcome::RanSuccess
    } else {
        Outcome::Halted
    }
}

/// The outcome of a guarded conditional whose condition gave these answers.
/// An answer that is not asked for has no part in it.
pub open spec fn guarded_outcome(
    first: SecureBool,
    second: SecureBool,
    third: SecureBool,
    fourth: SecureBool,
) -> Outcome {
    match recorded_flag(first, second) {
        None => Outcome::Halted,
        Some(flag) => confirmed(flag, third, fourth),
    }
}

/// The answers that are asked for, in the order in which they are given:
/// the first; the second where the first is `True`; and the third and the
/// fourth where a flag is recorded.
pub open spec fn answers_asked(
    first: SecureBool,
    second: SecureBool,
    third: SecureBool,
    fourth: SecureBool,
) -> Seq<SecureBool> {
    first_asked(first, second) + if recorded_flag(first, second) is Some {
        seq![third, fourth]
    } else {
        Seq::empty()
    }
}

/// The answers that are asked for before the jitter.
pub open spec fn first_asked(first: SecureBool, second: SecureBool) -> Seq<SecureBool> {
    if asks_second(first) {
        seq![first, second]
    } else {
        seq![first]
    }
}

/// The steps before the jitter: the first evaluation, and the second where
/// it is asked for.
pub open spec fn first_answers(first: SecureBool, second: SecureBool) -> Seq<Effect> {
    if asks_second(first) {
        seq![Effect::Asked(first), Effect::Asked(second)]
    } else {
        seq![Effect::Asked(first)]
    }
}

/// The number of cycles of the jitter that the raw random word `raw`
/// selects in the default window.
pub open spec fn jitter_cycles(raw: u32) -> u32 {
    scaled(raw, JITTER_MIN_CYCLES, JITTER_MAX_CYCLES) as u32
}

/// The steps of a jitter: the draw of `raw`, then the delay that it selects.
pub open spec fn jitter_effects(raw: u32) -> Seq<Effect> {
    seq![Effect::Drew32(raw), Effect::Delay(jitter_cycles(raw))]
}

/// The steps that end a guarded conditional with that outcome: the action
/// and a closing barrier, or a device reset.
pub open spec fn ending(outcome: Outcome) -> Seq<Effect> {
    match outcome {
        Outcome::RanSuccess => seq![Effect::Ran(Action::Success), Effect::Barrier],
        Outcome::RanFailure => seq![Effect::Ran(Action::Failure), Effect::Barrier],
        Outcome::Halted => reset_sequence(),
    }
}

/// The steps of the second phase of a guarded conditional: a barrier, the
/// jitter, the two evaluations after it, and the ending of the outcome.
pub open spec fn confirm_effects(
    third: SecureBool,
    fourth: SecureBool,
    raw: u32,
    outcome: Outcome,
) -> Seq<Effect> {
    seq![Effect::Barrier] + jitter_effects(raw) + seq![Effect::Asked(third), Effect::Asked(fourth)]
        + ending(outcome)
}

/// The steps of a guarded conditional whose condition gave these answers and
/// whose jitter drew `raw`, in order: the evaluations before the jitter; then
/// a reset at once where no flag can be recorded; else a barrier, the
/// jitter, the two evaluations after it, and the ending of the outcome.
pub open spec fn guard_effects(
    first: SecureBool,
    second: SecureBool,
    third: SecureBool,
    fourth: SecureBool,
    raw: u32,
) -> Seq<Effect> {
    if recorded_flag(first, second) is None {
        first_answers(first, second) + reset_sequence()
    } else {
        first_answers(first, second) + confirm_effects(
            third,
            fourth,
            raw,
            guarded_outcome(first, second, third, fourth),
        )
    }
}

/// The outcome for a condition that answers `value` every time: the action
/// that `value` names, and a halt for `Error`.
pub open spec fn settled_outcome(value: SecureBool) -> Outcome {
    match value {
        SecureBool::True => Outcome::RanSuccess,
        SecureBool::False => Outcome::RanFailure,
        SecureBool::Error => Outcome::Halted,
    }
}

/// A condition that gives the same answer every time gets the outcome that
/// the answer names.
pub proof fn lemma_consistent_answers(value: SecureBool)
    ensures
        guarded_outcome(value, value, value, value) == settled_outcome(value),
{
}

/// The success action runs if and only if all four answers are `True`; the
/// failure action runs if and only if the first, third and fourth answers
/// are `False` (the second is then not asked for); every other run of
/// answers ends in a halt. So any disagreement between two answers that were
/// asked for, and any `Error` among them, is a halt.
pub proof fn lemma_outcome_needs_agreement(
    first: SecureBool,
    second: SecureBool,
    third: SecureBool,
    fourth: SecureBool,
)
    ensures
        guarded_outcome(first, second, third, fourth) == Outcome::RanSuccess <==> first
            == SecureBool::True && second == SecureBool::True && third == SecureBool::True
            && fourth == SecureBool::True,
        guarded_outcome(first, second, third, fourth) == Outcome::RanFailure <==> first
            == SecureBool::False && third == SecureBool::False && fourth == SecureBool::False,
        guarded_outcome(first, second, third, fourth) == Outcome::Halted <==> !(first
            == SecureBool::True && second == SecureBool::True && third == SecureBool::True
            && fourth == SecureBool::True) && !(first == SecureBool::False && third
            == SecureBool::False && fourth == SecureBool::False),
{
}

/// The steps of a guarded conditional that runs an action, written out. The
/// success action runs after four evaluations and the failure action after
/// three; in both the jitter lies after the first evaluation and before the
/// action, and two evaluations lie between the jitter and the action.
pub proof fn lemma_steps_of_an_action(
    first: SecureBool,
    second: SecureBool,
    third: SecureBool,
    fourth: SecureBool,
    raw: u32,
)
    ensures
        guarded_outcome(first, second, third, fourth) == Outcome::RanSuccess ==> guard_effects(
            first,
            second,
            third,
            fourth,
            raw,
        ) == seq![
            Effect::Asked(SecureBool::True),
            Effect::Asked(SecureBool::True),
            Effect::Barrier,
            Effect::Drew32(raw),
            Effect::Delay(jitter_cycles(raw)),
            Effect::Asked(SecureBool::True),
            Effect::Asked(SecureBool::True),
            Effect::Ran(Action::Success),
            Effect::Barrier,
        ],
        guarded_outcome(first, second, third, fourth) == Outcome::RanFailure ==> guard_effects(
            first,
            second,
            third,
            fourth,
            raw,
        ) == seq![
            Effect::Asked(SecureBool::False),
            Effect::Barrier,
            Effect::Drew32(raw),
            Effect::Delay(jitter_cycles(raw)),
            Effect::Asked(SecureBool::False),
            Effect::Asked(SecureBool::False),
            Effect::Ran(Action::Failure),
            Effect::Barrier,
        ],
{
    let effects = guard_effects(first, second, third, fourth, raw);
    if guarded_outcome(first, second, third, fourth) == Outcome::RanSuccess {
        assert(effects =~= seq![
            Effect::Asked(SecureBool::True),
            Effect::Asked(SecureBool::True),
            Effect::Barrier,
            Effect::Drew32(raw),
            Effect::Delay(jitter_cycles(raw)),
            Effect::Asked(SecureBool::True),
            Effect::Asked(SecureBool::True),
            Effect::Ran(Action::Success),
            Effect::Barrier,
        ]);
    }
    if guarded_outcome(first, second, third, fourth) == Outcome::RanFailure {
        assert(effects =~= seq![
            Effect::Asked(SecureBool::False),
            Effect::Barrier,
            Effect::Drew32(raw),
            Effect::Delay(jitter_cycles(raw)),
            Effect::Asked(SecureBool::False),
            Effect::Asked(SecureBool::False),
            Effect::Ran(Action::Failure),
            Effect::Barrier,
        ]);
    }
}

/// The steps of a guarded conditional that halts before its jitter, written
/// out: a first answer of `Error` is followed by the reset at once, and a
/// first answer of `True` by the second answer and then the reset. No word
/// is drawn and nothing is delayed.
pub proof fn lemma_steps_of_an_early_halt(
    first: SecureBool,
    second: SecureBool,
    third: SecureBool,
    fourth: SecureBool,
    raw: u32,
)
    requires
        recorded_flag(first, second) is None,
    ensures
        first == SecureBool::Error ==> guard_effects(first, second, third, fourth, raw) == seq![
            Effect::Asked(first),
        ] + reset_sequence(),
        first == SecureBool::True ==> second != SecureBool::True && guard_effects(
            first,
            second,
            third,
            fourth,
            raw,
        ) == seq![Effect::Asked(first), Effect::Asked(second)] + reset_sequence(),
        first != SecureBool::False,
{
}

/// The jitter of a guarded conditional lies in the default window.
pub proof fn lemma_jitter_in_window(raw: u32)
    ensures
        JITTER_MIN_CYCLES <= jitter_cycles(raw) <= JITTER_MAX_CYCLES,
{
}

/// A guarded conditional ends execution once if it halts and not at all if
/// it runs an action; and it runs the one action that its outcome names, or
/// none if it halts.
pub proof fn lemma_guard_summary(
    first: SecureBool,
    second: SecureBool,
    third: SecureBool,
    fourth: SecureBool,
    raw: u32,
)
    ensures
        halts(guard_effects(first, second, third, fourth, raw)) == if guarded_outcome(
            first,
            second,
            third,
            fourth,
        ) is Halted {
            1nat
        } else {
            0nat
        },
        actions(guard_effects(first, second, third, fourth, raw)) == match guarded_outcome(
            first,
            second,
            third,
            fourth,
        ) {
            Outcome::RanSuccess => seq![Action::Success],
            Outcome::RanFailure => seq![Action::Failure],
            Outcome::Halted => Seq::<Action>::empty(),
        },
{
    let outcome = guarded_outcome(first, second, third, fourth);
    let asked = first_answers(first, second);
    lemma_halts_of_reset();
    lemma_actions_of_reset();
    lemma_halts_none(asked);
    lemma_actions_none(asked);
    if recorded_flag(first, second) is None {
        lemma_halts_concat(asked, reset_sequence());
        lemma_actions_concat(asked, reset_sequence());
        assert(actions(asked) + actions(reset_sequence()) =~= Seq::<Action>::empty());
    } else {
        let middle = seq![Effect::Barrier] + jitter_effects(raw) + seq![
            Effect::Asked(third),
            Effect::Asked(fourth),
        ];
        let confirm = confirm_effects(third, fourth, raw, outcome);
        lemma_halts_none(middle);
        lemma_actions_none(middle);
        lemma_halts_concat(middle, ending(outcome));
        lemma_actions_concat(middle, ending(outcome));
        lemma_halts_concat(asked, confirm);
        lemma_actions_concat(asked, confirm);
        assert(actions(middle) + actions(ending(outcome)) =~= actions(ending(outcome)));
        assert(actions(asked) + actions(confirm) =~= actions(confirm));
        match outcome {
            Outcome::Halted => {},
            _ => {
                lemma_halts_none(ending(outcome));
                lemma_actions_none(ending(outcome).drop_last().drop_last());
                assert(ending(outcome).drop_last().drop_last() =~= Seq::<Effect>::empty());
                reveal_with_fuel(actions, 3);
            },
        }
    }
}

/// What a finished guarded conditional has added to the record: `after` is
/// `before` followed by the steps of the conditional, of which one ends
/// execution if the conditional halted, and none otherwise.
pub proof fn lemma_guard_appended(
    before: Seq<Effect>,
    after: Seq<Effect>,
    first: SecureBool,
    second: SecureBool,
    third: SecureBool,
    fourth: SecureBool,
    raw: u32,
)
    requires
        after =~= before + guard_effects(first, second, third, fourth, raw),
    ensures
        after == before + guard_effects(first, second, third, fourth, raw),
        halts(after) == halts(before) + if guarded_outcome(first, second, third, fourth) is Halted {
            1nat
        } else {
            0nat
        },
{
    lemma_guard_summary(first, second, third, fourth, raw);
    lemma_halts_concat(before, guard_effects(first, second, third, fourth, raw));
}

} // verus!
