//! Transfer. The copy loop runs outside this crate (it touches the
//! filesystem and sleeps while paused); every decision it takes comes from
//! here. [`Uploader`] holds the pause/cancel flags the operator sets, and
//! [`TransferRun`] is the per-run state machine: each call to
//! [`TransferRun::step`] observes the flags once and says what the worker
//! must do next. Cancellation and pause are only ever observed at these
//! per-file boundaries; a copy already in flight is never interrupted.

use vstd::prelude::*;
use crate::scanner::Disposition;
use crate::scanner::MediaFile;

verus! {

/// The pause/cancel control surface shared with operator commands. The
/// embedding application guards it with its own lock; all methods are
/// idempotent.
pub struct Uploader {
    pub is_paused: bool,
    pub should_cancel: bool,
}

impl Uploader {
    /// A fresh control object: not paused, not cancelled.
    pub fn new() -> (u: Uploader)
        ensures
            !u.is_paused,
            !u.should_cancel,
    {
        Uploader { is_paused: false, should_cancel: false }
    }

    /// Requests a pause at the next per-file boundary.
    pub fn pause(&mut self)
        ensures
            final(self).is_paused,
            final(self).should_cancel == old(self).should_cancel,
    {
        self.is_paused = true;
    }

    /// Lets a paused run continue.
    pub fn resume(&mut self)
        ensures
            !final(self).is_paused,
            final(self).should_cancel == old(self).should_cancel,
    {
        self.is_paused = false;
    }

    /// Requests cancellation at the next per-file boundary.
    pub fn cancel(&mut self)
        ensures
            final(self).should_cancel,
            final(self).is_paused == old(self).is_paused,
    {
        self.should_cancel = true;
    }

    /// Clears both flags; must run before a new transfer reuses the
    /// object, since completion does not clear them implicitly.
    pub fn reset(&mut self)
        ensures
            !final(self).is_paused,
            !final(self).should_cancel,
    {
        self.is_paused = false;
        self.should_cancel = false;
    }
}

/// Where a transfer run stands.
#[derive(Clone, Copy, PartialEq, Eq, Structural, Debug)]
pub enum RunStatus {
    Running,
    Cancelled,
    Completed,
}

/// What the worker must do next.
#[derive(Clone, Copy, PartialEq, Eq, Structural, Debug)]
pub enum TransferStep {
    /// Paused: yield and ask again shortly.
    Wait,
    /// Copy the record at `index` (disposition upload or overwrite) and
    /// emit a copying event.
    CopyFile { index: usize },
    /// Emit a skipped event for the record at `index`; write nothing.
    SkipFile { index: usize },
    /// The run is over, cleanly or by cancellation.
    Done { cancelled: bool },
}

/// The state of one transfer run over `total` records: `next` is the
/// first record not yet handled.
#[derive(Clone, Copy, PartialEq, Eq, Structural, Debug)]
pub struct TransferRun {
    pub total: usize,
    pub next: usize,
    pub status: RunStatus,
}

/// The dispositions of a record list, in order.
pub open spec fn dispositions(s: Seq<MediaFile>) -> Seq<Disposition> {
    s.map_values(|r: MediaFile| r.status)
}

/// One observation of the control flags: (paused, cancelled).
pub type Signal = (bool, bool);

/// The transfer state machine: what one step does to the run, and what it
/// asks of the worker, given the record dispositions and the flags as
/// observed at this boundary.
pub open spec fn step_spec(
    run: TransferRun,
    dispos: Seq<Disposition>,
    paused: bool,
    cancelled: bool,
) -> (TransferRun, TransferStep) {
    if run.status != RunStatus::Running {
        (run, TransferStep::Done { cancelled: run.status == RunStatus::Cancelled })
    } else if cancelled {
        (
            TransferRun { status: RunStatus::Cancelled, ..run },
            TransferStep::Done { cancelled: true },
        )
    } else if paused {
        (run, TransferStep::Wait)
    } else if run.next >= run.total {
        (
            TransferRun { status: RunStatus::Completed, ..run },
            TransferStep::Done { cancelled: false },
        )
    } else {
        let step = if dispos[run.next as int] == Disposition::Upload || dispos[run.next as int]
            == Disposition::Overwrite {
            TransferStep::CopyFile { index: run.next }
        } else {
            TransferStep::SkipFile { index: run.next }
        };
        (TransferRun { next: (run.next + 1) as usize, ..run }, step)
    }
}

impl TransferRun {
    /// The cursor never runs past the batch.
    pub open spec fn wf(self) -> bool {
        self.next <= self.total
    }

    /// A run over `total` records, about to handle the first.
    pub fn new(total: usize) -> (r: TransferRun)
        ensures
            r == (TransferRun { total, next: 0, status: RunStatus::Running }),
    {
        TransferRun { total, next: 0, status: RunStatus::Running }
    }

    /// One boundary of the copy loop: observes the flags once and decides
    /// the next action, exactly as [`step_spec`] says.
    pub fn step(&mut self, files: &Vec<MediaFile>, paused: bool, cancelled: bool) -> (s:
        TransferStep)
        requires
            old(self).wf(),
            files@.len() == old(self).total,
        ensures
            (*final(self), s) == step_spec(*old(self), dispositions(files@), paused, cancelled),
            final(self).wf(),
            final(self).total == old(self).total,
    {
        match self.status {
            RunStatus::Cancelled => TransferStep::Done { cancelled: true },
            RunStatus::Completed => TransferStep::Done { cancelled: false },
            RunStatus::Running => {
                if cancelled {
                    self.status = RunStatus::Cancelled;
                    TransferStep::Done { cancelled: true }
                } else if paused {
                    TransferStep::Wait
                } else if self.next >= self.total {
                    self.status = RunStatus::Completed;
                    TransferStep::Done { cancelled: false }
                } else {
                    let idx = self.next;
                    proof {
                        assert(dispositions(files@)[idx as int] == files@[idx as int].status);
                    }
                    let copying = match files[idx].status {
                        Disposition::Upload => true,
                        Disposition::Overwrite => true,
                        _ => false,
                    };
                    self.next = idx + 1;
                    if copying {
                        TransferStep::CopyFile { index: idx }
                    } else {
                        TransferStep::SkipFile { index: idx }
                    }
                }
            },
        }
    }
}

/// One progress event, as handed to the operator-facing event sink.
pub struct ProgressEvent {
    /// 1-based position of the file in the batch.
    pub current: usize,
    /// Batch size.
    pub total: usize,
    /// Base name of the file being reported.
    pub filename: String,
    /// True while copying, false for a skipped duplicate.
    pub copying: bool,
}

/// Builds the progress event for the record at `index`.
pub fn progress_event(file: &MediaFile, index: usize, total: usize, copying: bool) -> (e:
    ProgressEvent)
    requires
        index < total,
    ensures
        e.current == index + 1,
        e.total == total,
        e.filename@ == file.filename@,
        e.copying == copying,
{
    ProgressEvent { current: index + 1, total, filename: file.filename.clone(), copying }
}

// ---------------------------------------------------------------------------
// What a run does once cancelled
// ---------------------------------------------------------------------------

/// The steps a run takes from `run` onward, one per observation of the
/// control flags.
pub open spec fn run_trace(
    run: TransferRun,
    dispos: Seq<Disposition>,
    signals: Seq<Signal>,
) -> Seq<TransferStep>
    decreases signals.len(),
{
    if signals.len() == 0 {
        Seq::empty()
    } else {
        let next = step_spec(run, dispos, signals[0].0, signals[0].1);
        seq![next.1] + run_trace(next.0, dispos, signals.drop_first())
    }
}

/// The run state after all of `signals` have been observed.
pub open spec fn run_end(
    run: TransferRun,
    dispos: Seq<Disposition>,
    signals: Seq<Signal>,
) -> TransferRun
    decreases signals.len(),
{
    if signals.len() == 0 {
        run
    } else {
        run_end(step_spec(run, dispos, signals[0].0, signals[0].1).0, dispos, signals.drop_first())
    }
}

/// Law: a cancelled run is inert. Whatever flags are observed later, no
/// step copies or skips anything, the cursor never moves, and every step
/// reports the cancelled stop state.
pub proof fn lemma_cancelled_run_is_inert(
    run: TransferRun,
    dispos: Seq<Disposition>,
    signals: Seq<Signal>,
)
    requires
        run.status == RunStatus::Cancelled,
    ensures
        forall|j: int|
            0 <= j < run_trace(run, dispos, signals).len()
                ==> #[trigger] run_trace(run, dispos, signals)[j] == (TransferStep::Done {
                cancelled: true,
            }),
        run_end(run, dispos, signals) == run,
    decreases signals.len(),
{
    if signals.len() > 0 {
        lemma_cancelled_run_is_inert(run, dispos, signals.drop_first());
        let tr = run_trace(run, dispos, signals);
        let rest = run_trace(run, dispos, signals.drop_first());
        assert forall|j: int| 0 <= j < tr.len() implies #[trigger] tr[j] == (TransferStep::Done {
            cancelled: true,
        }) by {
            if j > 0 {
                assert(tr[j] == rest[j - 1]);
            }
        }
    }
}

/// Law: cancelling mid-run stops the batch where it stands. If the worker
/// has handled the first `k` records and cancellation is observed at the
/// next boundary, that step reports the cancelled state, the cursor stays
/// at `k` forever (records `k+1..n` are never copied), and no later step
/// touches any file (records `1..k` stay as they are).
pub proof fn lemma_cancel_stops_transfer(
    run: TransferRun,
    dispos: Seq<Disposition>,
    signals: Seq<Signal>,
)
    requires
        run.status == RunStatus::Running,
        signals.len() > 0,
        signals[0].1,
    ensures
        run_trace(run, dispos, signals)[0] == (TransferStep::Done { cancelled: true }),
        forall|j: int|
            0 <= j < run_trace(run, dispos, signals).len()
                ==> #[trigger] run_trace(run, dispos, signals)[j] == (TransferStep::Done {
                cancelled: true,
            }),
        run_end(run, dispos, signals) == (TransferRun { status: RunStatus::Cancelled, ..run }),
{
    let cancelled_run = TransferRun { status: RunStatus::Cancelled, ..run };
    lemma_cancelled_run_is_inert(cancelled_run, dispos, signals.drop_first());
    let tr = run_trace(run, dispos, signals);
    let rest = run_trace(cancelled_run, dispos, signals.drop_first());
    assert forall|j: int| 0 <= j < tr.len() implies #[trigger] tr[j] == (TransferStep::Done {
        cancelled: true,
    }) by {
        if j > 0 {
            assert(tr[j] == rest[j - 1]);
        }
    }
}

} // verus!
