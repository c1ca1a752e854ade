//! Laws of the debounce engine, proved over its model.
//!
//! The first lemmas say how the engine runs over a sequence of samples that
//! is built up from parts. The laws proper follow: what a run of agreeing
//! samples does, what a run of disagreeing samples does, and how the two
//! combine.

use vstd::prelude::*;
use crate::model::{held, steady, Engine};
use crate::signal::{Change, State};

verus! {

/// A step keeps a well-formed engine well formed and never changes its
/// threshold.
pub proof fn lemma_next_wf(engine: Engine, sample: State)
    requires
        engine.wf(),
    ensures
        engine.next(sample).wf(),
        engine.next(sample).threshold == engine.threshold,
{
}

/// Any number of steps keeps a well-formed engine well formed and never
/// changes its threshold.
pub proof fn lemma_after_wf(engine: Engine, samples: Seq<State>)
    requires
        engine.wf(),
    ensures
        engine.after(samples).wf(),
        engine.after(samples).threshold == engine.threshold,
    decreases samples.len(),
{
    if samples.len() > 0 {
        lemma_after_wf(engine, samples.drop_last());
        lemma_next_wf(engine.after(samples.drop_last()), samples.last());
    }
}

/// A step reports a transition exactly when it commits one, and changes
/// the stable state exactly then. Right after a committed transition the
/// stable state is the sample that committed it, the report is the
/// transition into that state, and the run of disagreeing samples is empty:
/// the same sample cannot fire twice in a row. A step that reports no
/// transition leaves the stable state as it was.
pub proof fn lemma_step_outcome(engine: Engine, sample: State)
    ensures
        engine.emits(sample) is NoChange <==> !engine.commits(sample),
        engine.next(sample).state != engine.state <==> engine.commits(sample),
        engine.commits(sample) ==> {
            &&& engine.emits(sample) == sample.entering()
            &&& engine.next(sample).state == sample
            &&& engine.next(sample).state == engine.state.flipped()
            &&& engine.next(sample).samples == 0
            &&& engine.next(sample).emits(sample) == Change::NoChange(sample)
        },
        !engine.commits(sample) ==> {
            &&& engine.emits(sample) == Change::NoChange(engine.state)
            &&& engine.next(sample).state == engine.state
        },
{
}

/// One more sample is one more step.
pub proof fn lemma_after_push(engine: Engine, samples: Seq<State>, sample: State)
    ensures
        engine.after(samples.push(sample)) == engine.after(samples).next(sample),
{
    assert(samples.push(sample).drop_last() =~= samples);
}

/// One more sample adds one report, that of the step it causes, and leaves
/// the earlier reports as they were.
pub proof fn lemma_changes_push(engine: Engine, samples: Seq<State>, sample: State)
    ensures
        engine.changes(samples.push(sample)) == engine.changes(samples).push(
            engine.after(samples).emits(sample),
        ),
{
    let longer = samples.push(sample);
    let expected = engine.changes(samples).push(engine.after(samples).emits(sample));
    assert forall|i: int| 0 <= i < longer.len() implies engine.changes(longer)[i]
        == expected[i] by {
        if i < samples.len() {
            assert(longer.take(i) =~= samples.take(i));
        } else {
            assert(longer.take(i) =~= samples);
        }
    }
    assert(engine.changes(longer) =~= expected);
}

/// Running over two sequences joined is running over the first and then,
/// from where that ended, over the second.
pub proof fn lemma_after_concat(engine: Engine, first: Seq<State>, second: Seq<State>)
    ensures
        engine.after(first + second) == engine.after(first).after(second),
    decreases second.len(),
{
    if second.len() == 0 {
        assert(first + second =~= first);
    } else {
        lemma_after_concat(engine, first, second.drop_last());
        assert((first + second).drop_last() =~= first + second.drop_last());
    }
}

/// The reports over two sequences joined are the reports over the first,
/// followed by those over the second from where the first ended.
pub proof fn lemma_changes_concat(engine: Engine, first: Seq<State>, second: Seq<State>)
    ensures
        engine.changes(first + second) == engine.changes(first) + engine.after(first).changes(
            second,
        ),
    decreases second.len(),
{
    if second.len() == 0 {
        assert(first + second =~= first);
        assert(engine.changes(first) + engine.after(first).changes(second) =~= engine.changes(
            first,
        ));
    } else {
        let front = second.drop_last();
        let middle = engine.after(first);
        lemma_changes_concat(engine, first, front);
        lemma_after_concat(engine, first, front);
        assert(first + second =~= (first + front).push(second.last()));
        assert(second =~= front.push(second.last()));
        lemma_changes_push(engine, first + front, second.last());
        lemma_changes_push(middle, front, second.last());
        assert(engine.changes(first + second) =~= engine.changes(first) + middle.changes(second));
    }
}

/// Agreement is idempotent. Over any number of samples equal to the stable
/// state, every step reports `NoChange` with that state, the state stays,
/// and from the first such sample on the run of disagreeing samples is
/// empty.
pub proof fn lemma_agreement_idempotent(engine: Engine, n: nat)
    ensures
        engine.changes(steady(engine.state, n)) == held(engine.state, n),
        n >= 1 ==> engine.after(steady(engine.state, n)) == (Engine { samples: 0, ..engine }),
    decreases n,
{
    let state = engine.state;
    if n == 0 {
        assert(engine.changes(steady(state, n)) =~= held(state, n));
    } else {
        let shorter = steady(state, (n - 1) as nat);
        lemma_agreement_idempotent(engine, (n - 1) as nat);
        assert(steady(state, n) =~= shorter.push(state));
        lemma_after_push(engine, shorter, state);
        lemma_changes_push(engine, shorter, state);
        assert(held(state, n) =~= held(state, (n - 1) as nat).push(Change::NoChange(state)));
    }
}

/// A run of disagreeing samples that stays short of the threshold only
/// lengthens the count: every step reports `NoChange` with the old state.
pub proof fn lemma_run_accumulates(engine: Engine, n: nat)
    requires
        engine.wf(),
        engine.samples + n < engine.threshold,
    ensures
        engine.after(steady(engine.state.flipped(), n)) == (Engine {
            samples: engine.samples + n,
            ..engine
        }),
        engine.changes(steady(engine.state.flipped(), n)) == held(engine.state, n),
    decreases n,
{
    let other = engine.state.flipped();
    if n == 0 {
        assert(steady(other, n) =~= Seq::<State>::empty());
        assert(engine.changes(steady(other, n)) =~= held(engine.state, n));
    } else {
        let shorter = steady(other, (n - 1) as nat);
        lemma_run_accumulates(engine, (n - 1) as nat);
        assert(steady(other, n) =~= shorter.push(other));
        lemma_after_push(engine, shorter, other);
        lemma_changes_push(engine, shorter, other);
        assert(held(engine.state, n) =~= held(engine.state, (n - 1) as nat).push(
            Change::NoChange(engine.state),
        ));
    }
}

/// A run of disagreeing samples commits on the sample that brings the count
/// to the threshold, and on no earlier one. With `samples` disagreeing
/// samples counted already, the next `threshold - samples - 1` report
/// `NoChange` with the old state and the one after them reports the
/// transition; the engine then holds the other state with an empty run.
pub proof fn lemma_run_completes(engine: Engine)
    requires
        engine.wf(),
    ensures
        ({
            let other = engine.state.flipped();
            let rest = (engine.threshold - engine.samples) as nat;
            &&& engine.changes(steady(other, rest)) == held(engine.state, (rest - 1) as nat).push(
                other.entering(),
            )
            &&& engine.after(steady(other, rest)) == (Engine { samples: 0, state: other, ..engine })
        }),
{
    let other = engine.state.flipped();
    let rest = (engine.threshold - engine.samples) as nat;
    let shorter = steady(other, (rest - 1) as nat);
    lemma_run_accumulates(engine, (rest - 1) as nat);
    assert(steady(other, rest) =~= shorter.push(other));
    lemma_after_push(engine, shorter, other);
    lemma_changes_push(engine, shorter, other);
}

/// The threshold is exact. From an engine with no disagreeing sample
/// counted, `threshold` consecutive samples of the other state report
/// `NoChange` with the old state `threshold - 1` times and the transition on
/// the last; no shorter run changes the state.
pub proof fn lemma_threshold_exact(engine: Engine)
    requires
        engine.wf(),
        engine.samples == 0,
    ensures
        ({
            let other = engine.state.flipped();
            let first = (engine.threshold - 1) as nat;
            &&& engine.changes(steady(other, engine.threshold)) == held(engine.state, first).push(
                other.entering(),
            )
            &&& engine.after(steady(other, engine.threshold)) == (Engine {
                state: other,
                ..engine
            })
            &&& forall|n: nat|
                n < engine.threshold ==> #[trigger] engine.after(steady(other, n)) == (Engine {
                    samples: n,
                    ..engine
                })
        }),
{
    let other = engine.state.flipped();
    lemma_run_completes(engine);
    assert forall|n: nat| n < engine.threshold implies #[trigger] engine.after(steady(other, n))
        == (Engine { samples: n, ..engine }) by {
        lemma_run_accumulates(engine, n);
    }
}

/// An interruption costs the whole run. However many disagreeing samples
/// have been counted short of the threshold, here `k` more of them, one
/// agreeing sample clears the count; the `threshold` disagreeing samples
/// after that are all needed: every step before the last reports
/// `NoChange`, the last reports the transition.
pub proof fn lemma_interruption_restarts_run(engine: Engine, k: nat)
    requires
        engine.wf(),
        engine.samples + k < engine.threshold,
    ensures
        ({
            let other = engine.state.flipped();
            let broken = steady(other, k).push(engine.state);
            let samples = broken + steady(other, engine.threshold);
            &&& engine.after(broken) == (Engine { samples: 0, ..engine })
            &&& engine.changes(broken) == held(engine.state, k + 1)
            &&& engine.changes(samples) == held(engine.state, k + engine.threshold).push(
                other.entering(),
            )
            &&& engine.after(samples) == (Engine { samples: 0, state: other, ..engine })
        }),
{
    let state = engine.state;
    let other = state.flipped();
    let broken = steady(other, k).push(state);
    let run = steady(other, engine.threshold);
    let cleared = Engine { samples: 0, ..engine };
    lemma_run_accumulates(engine, k);
    lemma_after_push(engine, steady(other, k), state);
    lemma_changes_push(engine, steady(other, k), state);
    assert(held(state, k + 1) =~= held(state, k).push(Change::NoChange(state)));
    lemma_threshold_exact(cleared);
    lemma_after_concat(engine, broken, run);
    lemma_changes_concat(engine, broken, run);
    assert(held(state, k + 1) + held(state, (engine.threshold - 1) as nat).push(other.entering())
        =~= held(state, k + engine.threshold).push(other.entering()));
}

/// The engine works the same in both directions. The run of disagreeing
/// samples that completes the count commits the transition to the other
/// state, and `threshold` samples of the first state then commit the
/// transition back: each run reports its transition on its last sample
/// only, and the stable state is the other one in between and the first
/// one at the end.
pub proof fn lemma_round_trip(engine: Engine)
    requires
        engine.wf(),
    ensures
        ({
            let state = engine.state;
            let other = state.flipped();
            let rest = (engine.threshold - engine.samples) as nat;
            let there = steady(other, rest);
            let back = steady(state, engine.threshold);
            &&& engine.after(there) == (Engine { samples: 0, state: other, ..engine })
            &&& engine.after(there + back) == (Engine { samples: 0, ..engine })
            &&& engine.changes(there + back) == held(state, (rest - 1) as nat).push(
                other.entering(),
            ) + held(other, (engine.threshold - 1) as nat).push(state.entering())
        }),
{
    let state = engine.state;
    let other = state.flipped();
    let there = steady(other, (engine.threshold - engine.samples) as nat);
    let back = steady(state, engine.threshold);
    let middle = Engine { samples: 0, state: other, ..engine };
    lemma_run_completes(engine);
    lemma_threshold_exact(middle);
    assert(middle.state.flipped() == state);
    lemma_after_concat(engine, there, back);
    lemma_changes_concat(engine, there, back);
}

} // verus!
