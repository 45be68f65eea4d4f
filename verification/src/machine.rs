//! The prompt state machine: decides, for each incoming event, whether to
//! show the window, ignore the event, or finish a submission, and maintains
//! the single armed flag that prevents duplicate overlapping prompts.
//!
//! The machine's view of time is a strictly ordered sequence of events; the
//! model here runs over such a sequence, and the laws at the end state the
//! guarantees the program leans on: repeated ticks while a window is active
//! do nothing, a submission disarms the window exactly when its append
//! succeeded, and journal timestamps never decrease when the clock does not.

use vstd::prelude::*;

verus! {

/// Whether a prompt window currently demands the user's attention. `Idle`
/// means armed: the next tick pops the window up. `Active` means the window
/// is shown and a submission is awaited.
#[derive(Clone, Copy, PartialEq, Eq, Structural, Debug)]
pub enum PromptState {
    Idle,
    Active,
}

/// One event consumed by the machine, carrying the data its transition
/// depends on: a submission is stamped with the clock reading it was built
/// from and with whether the append to the journal file succeeded.
pub enum Event {
    Tick,
    Submit { now_secs: i64, appended: bool },
}

/// One record of the journal file, as the model sees it: the submitted text
/// and the clock reading it was stamped with.
pub struct ModelRecord {
    pub text: Seq<char>,
    pub secs: i64,
}

/// The program state the machine governs, as the model sees it: the prompt
/// state, the text sitting in the editor, and the journal file as the
/// sequence of records appended so far.
pub struct Model {
    pub state: PromptState,
    pub editor: Seq<char>,
    pub journal: Seq<ModelRecord>,
}

/// Whether a tick in the given state pops the window up.
pub open spec fn tick_shows(s: PromptState) -> bool {
    s is Idle
}

/// The state after a tick: always `Active` — from `Idle` the window pops up,
/// from `Active` the tick is ignored.
pub open spec fn tick_next(s: PromptState) -> PromptState {
    PromptState::Active
}

/// The state after a submission attempt: `Idle` when the append succeeded,
/// unchanged otherwise.
pub open spec fn submit_next(s: PromptState, appended: bool) -> PromptState {
    if appended {
        PromptState::Idle
    } else {
        s
    }
}

/// One step of the machine on one event. A successful submission appends the
/// editor text as a record, clears the editor and re-arms; a failed one
/// changes nothing, so the user's text survives for a retry.
pub open spec fn step(m: Model, e: Event) -> Model {
    match e {
        Event::Tick => Model { state: tick_next(m.state), editor: m.editor, journal: m.journal },
        Event::Submit { now_secs, appended } => {
            if appended {
                Model {
                    state: PromptState::Idle,
                    editor: Seq::empty(),
                    journal: m.journal.push(ModelRecord { text: m.editor, secs: now_secs }),
                }
            } else {
                m
            }
        },
    }
}

/// The model at launch: armed, empty editor, empty journal.
pub open spec fn init_model() -> Model {
    Model { state: PromptState::Idle, editor: Seq::empty(), journal: Seq::empty() }
}

/// The machine run over a whole sequence of events, in arrival order.
pub open spec fn run(m: Model, es: Seq<Event>) -> Model
    decreases es.len(),
{
    if es.len() == 0 {
        m
    } else {
        run(step(m, es[0]), es.drop_first())
    }
}

/// How many times the window-show side effect fires over a run.
pub open spec fn shows_in_run(m: Model, es: Seq<Event>) -> nat
    decreases es.len(),
{
    if es.len() == 0 {
        0
    } else {
        (match es[0] {
            Event::Tick => if tick_shows(m.state) {
                1 as nat
            } else {
                0 as nat
            },
            Event::Submit { .. } => 0 as nat,
        }) + shows_in_run(step(m, es[0]), es.drop_first())
    }
}

/// The live context the event loop owns. It carries the armed flag as the
/// explicit prompt state; the editor widget and the journal file stay with
/// the unverified shell, which obeys the booleans these methods return.
pub struct Session {
    pub state: PromptState,
}

impl Session {
    /// A fresh session: armed, no window pending.
    pub fn new() -> (s: Session)
        ensures
            s.state is Idle,
    {
        Session { state: PromptState::Idle }
    }

    /// Handles a tick. From the armed state the window must be shown and the
    /// machine goes `Active`; a tick while already `Active` is ignored, so at
    /// most one prompt is ever pending. Returns whether the shell must show
    /// the window and focus the editor.
    pub fn handle_tick(&mut self) -> (show: bool)
        ensures
            final(self).state == tick_next(old(self).state),
            show == tick_shows(old(self).state),
    {
        let show = self.state == PromptState::Idle;
        self.state = PromptState::Active;
        show
    }

    /// Applies the outcome of a submission attempt. A successful append
    /// re-arms the machine whatever state it was in; a failed one changes
    /// nothing, so the user may retry. Returns whether the shell must clear
    /// the editor and hide the window.
    pub fn handle_submit_outcome(&mut self, appended: bool) -> (clear_and_hide: bool)
        ensures
            final(self).state == submit_next(old(self).state, appended),
            clear_and_hide == appended,
    {
        if appended {
            self.state = PromptState::Idle;
        }
        appended
    }
}

/// Law: any sequence of ticks delivered while the window is already active
/// leaves the whole state unchanged and never shows the window again.
pub proof fn lemma_ticks_while_active(m: Model, es: Seq<Event>)
    requires
        m.state is Active,
        forall|i: int| 0 <= i < es.len() ==> es[i] is Tick,
    ensures
        run(m, es) == m,
        shows_in_run(m, es) == 0,
    decreases es.len(),
{
    if es.len() == 0 {
    } else {
        assert(es[0] is Tick);
        assert(step(m, es[0]) == m);
        assert(forall|i: int| 0 <= i < es.drop_first().len() ==> es.drop_first()[i] is Tick);
        lemma_ticks_while_active(m, es.drop_first());
    }
}

/// Law: a submission attempt ends in `Idle` exactly when its append
/// succeeded, and a failed append leaves state, editor text and journal
/// untouched. (From `Idle`, where no window awaits submission, a failed
/// attempt also stays `Idle`.)
pub proof fn lemma_submit_outcome(m: Model, now_secs: i64, appended: bool)
    ensures
        appended ==> step(m, Event::Submit { now_secs, appended }).state is Idle,
        !appended ==> step(m, Event::Submit { now_secs, appended }) == m,
        m.state is Active ==> ((step(m, Event::Submit { now_secs, appended }).state is Idle)
            <==> appended),
{
}

/// The clock readings of a journal, in append order.
pub open spec fn journal_secs(j: Seq<ModelRecord>) -> Seq<i64> {
    j.map_values(|r: ModelRecord| r.secs)
}

/// A sequence of clock readings that never decreases.
pub open spec fn non_decreasing(s: Seq<i64>) -> bool {
    forall|i: int, j: int| 0 <= i <= j < s.len() ==> s[i] <= s[j]
}

/// Whether an event, if it is a submission, is stamped at or after time `t`.
pub open spec fn submit_at_or_after(e: Event, t: i64) -> bool {
    match e {
        Event::Tick => true,
        Event::Submit { now_secs, .. } => t <= now_secs,
    }
}

/// Whether every submission among the events is stamped at or after `t`.
pub open spec fn submits_at_or_after(es: Seq<Event>, t: i64) -> bool {
    forall|i: int| 0 <= i < es.len() ==> submit_at_or_after(es[i], t)
}

/// Whether the submissions among the events carry non-decreasing clock
/// readings: each one is stamped no earlier than every submission before it.
pub open spec fn clock_ordered(es: Seq<Event>) -> bool
    decreases es.len(),
{
    if es.len() == 0 {
        true
    } else {
        (match es[0] {
            Event::Tick => true,
            Event::Submit { now_secs, .. } => submits_at_or_after(es.drop_first(), now_secs),
        }) && clock_ordered(es.drop_first())
    }
}

/// Whether no journal record is stamped after any submission still to come.
pub open spec fn journal_not_after(j: Seq<ModelRecord>, es: Seq<Event>) -> bool {
    forall|r: int, i: int|
        0 <= r < j.len() && 0 <= i < es.len() ==> submit_at_or_after(es[i], j[r].secs)
}

/// Law: journal timestamps are monotonically non-decreasing across
/// successive submissions, provided the clock readings the submissions are
/// stamped with do not themselves decrease. (A wall clock stepped backwards
/// between two submissions is the one case this cannot promise.)
pub proof fn lemma_timestamps_monotonic(m: Model, es: Seq<Event>)
    requires
        non_decreasing(journal_secs(m.journal)),
        clock_ordered(es),
        journal_not_after(m.journal, es),
    ensures
        non_decreasing(journal_secs(run(m, es).journal)),
    decreases es.len(),
{
    if es.len() == 0 {
    } else {
        let m1 = step(m, es[0]);
        let tail = es.drop_first();
        assert(clock_ordered(tail));
        match es[0] {
            Event::Tick => {
                assert(m1.journal == m.journal);
                assert forall|r: int, i: int|
                    0 <= r < m1.journal.len() && 0 <= i < tail.len() implies submit_at_or_after(
                    tail[i],
                    m1.journal[r].secs,
                ) by {
                    assert(submit_at_or_after(es[i + 1], m.journal[r].secs));
                }
            },
            Event::Submit { now_secs, appended } => {
                if appended {
                    let j1 = m.journal.push(ModelRecord { text: m.editor, secs: now_secs });
                    assert(m1.journal == j1);
                    assert(journal_secs(j1) =~= journal_secs(m.journal).push(now_secs));
                    assert forall|r: int, i: int|
                        0 <= r <= i < journal_secs(j1).len() implies journal_secs(j1)[r]
                        <= journal_secs(j1)[i] by {
                        if i < m.journal.len() {
                        } else {
                            if r < m.journal.len() {
                                assert(submit_at_or_after(es[0], m.journal[r].secs));
                            }
                        }
                    }
                    assert(non_decreasing(journal_secs(j1)));
                    assert forall|r: int, i: int|
                        0 <= r < j1.len() && 0 <= i < tail.len() implies submit_at_or_after(
                        tail[i],
                        j1[r].secs,
                    ) by {
                        if r < m.journal.len() {
                            assert(submit_at_or_after(es[i + 1], m.journal[r].secs));
                        } else {
                            assert(submits_at_or_after(tail, now_secs));
                            assert(submit_at_or_after(tail[i], now_secs));
                        }
                    }
                } else {
                    assert(m1 == m);
                    assert forall|r: int, i: int|
                        0 <= r < m1.journal.len() && 0 <= i < tail.len() implies submit_at_or_after(
                        tail[i],
                        m1.journal[r].secs,
                    ) by {
                        assert(submit_at_or_after(es[i + 1], m.journal[r].secs));
                    }
                }
            },
        }
        lemma_timestamps_monotonic(m1, tail);
    }
}

/// The law above from launch: over a whole run of the program, the journal's
/// timestamps come out non-decreasing whenever the clock readings the
/// submissions were stamped with are.
pub proof fn lemma_timestamps_monotonic_from_launch(es: Seq<Event>)
    requires
        clock_ordered(es),
    ensures
        non_decreasing(journal_secs(run(init_model(), es).journal)),
{
    assert(journal_secs(init_model().journal) =~= Seq::<i64>::empty());
    lemma_timestamps_monotonic(init_model(), es);
}

} // verus!
