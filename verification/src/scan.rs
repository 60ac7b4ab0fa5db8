//! The decisions of the broadcast scanner: it reads the receiver's samples
//! one chunk at a time and, from the strength of each chunk's spectral peak
//! against the noise baseline, decides where a broadcast starts and ends.

use vstd::prelude::*;

verus! {

/// Whether the scanner is waiting for a broadcast or inside one.
#[derive(Clone, Copy, Debug, PartialEq, Eq, Structural)]
pub enum ScanPhase {
    Idle,
    Collecting,
}

/// What the scanner does with the chunk it just read.
#[derive(Clone, Copy, Debug, PartialEq, Eq, Structural)]
pub enum ScanAction {
    /// No broadcast: add the chunk's spectrum to the noise baseline and keep
    /// the chunk as the one preceding the next.
    UpdateBaseline,
    /// A broadcast starts: its samples are the preceding chunk and this one,
    /// and this chunk's peak frequency is recorded.
    StartBroadcast,
    /// The broadcast goes on: append the chunk and record its peak frequency.
    Continue,
    /// The broadcast is over: append the chunk and hand the broadcast out,
    /// centred on the mean of the recorded frequencies.
    Finish,
}

/// The scanner's state between chunks.
pub struct ScanState {
    phase: ScanPhase,
}

/// The scanner's decision on one chunk in phase `phase`, and the phase after
/// it. `baseline_full` tells whether the baseline window holds its full
/// number of spectra; `loud` whether the chunk's peak stands more than 100
/// standard deviations above the baseline mean, `quiet` whether it stands
/// less than that. While idle, a peak counts only once the baseline is full.
pub open spec fn scan_step(phase: ScanPhase, baseline_full: bool, loud: bool, quiet: bool) -> (ScanAction, ScanPhase) {
    match phase {
        ScanPhase::Idle => if baseline_full && loud {
            (ScanAction::StartBroadcast, ScanPhase::Collecting)
        } else {
            (ScanAction::UpdateBaseline, ScanPhase::Idle)
        },
        ScanPhase::Collecting => if quiet {
            (ScanAction::Finish, ScanPhase::Idle)
        } else {
            (ScanAction::Continue, ScanPhase::Collecting)
        },
    }
}

impl ScanState {
    pub closed spec fn spec_phase(&self) -> ScanPhase {
        self.phase
    }

    /// A scanner waiting for the first broadcast.
    pub fn new() -> (s: ScanState)
        ensures
            s.spec_phase() == ScanPhase::Idle,
    {
        ScanState { phase: ScanPhase::Idle }
    }

    /// The current phase.
    pub fn phase(&self) -> (p: ScanPhase)
        ensures
            p == self.spec_phase(),
    {
        self.phase
    }

    /// Decides on one chunk, as `scan_step` says.
    pub fn on_chunk(&mut self, baseline_full: bool, loud: bool, quiet: bool) -> (a: ScanAction)
        ensures
            (a, final(self).spec_phase()) == scan_step(old(self).spec_phase(), baseline_full, loud, quiet),
    {
        match self.phase {
            ScanPhase::Idle => {
                if baseline_full && loud {
                    self.phase = ScanPhase::Collecting;
                    ScanAction::StartBroadcast
                } else {
                    ScanAction::UpdateBaseline
                }
            },
            ScanPhase::Collecting => {
                if quiet {
                    self.phase = ScanPhase::Idle;
                    ScanAction::Finish
                } else {
                    ScanAction::Continue
                }
            },
        }
    }
}

/// The number of broadcasts that `actions` start and do not finish.
pub open spec fn open_broadcasts(actions: Seq<ScanAction>) -> int
    decreases actions.len(),
{
    if actions.len() == 0 {
        0
    } else {
        open_broadcasts(actions.drop_last()) + match actions.last() {
            ScanAction::StartBroadcast => 1int,
            ScanAction::Finish => -1int,
            _ => 0int,
        }
    }
}

/// Over any run of chunks from a new scanner (`phases[i + 1]` and
/// `actions[i]` are what `on_chunk` gives in `phases[i]` for `chunks[i]`),
/// starts and finishes alternate: one broadcast is open exactly while the
/// scanner collects, none otherwise. The baseline is only updated, and a
/// broadcast only started, while idle.
pub proof fn lemma_scan_broadcasts_alternate(
    chunks: Seq<(bool, bool, bool)>,
    phases: Seq<ScanPhase>,
    actions: Seq<ScanAction>,
)
    requires
        phases.len() == chunks.len() + 1,
        actions.len() == chunks.len(),
        phases[0] == ScanPhase::Idle,
        forall|i: int|
            0 <= i < chunks.len() ==> (actions[i], phases[i + 1]) == #[trigger] scan_step(
                phases[i],
                chunks[i].0,
                chunks[i].1,
                chunks[i].2,
            ),
    ensures
        open_broadcasts(actions) == if phases.last() == ScanPhase::Collecting {
            1int
        } else {
            0int
        },
        forall|i: int|
            0 <= i < actions.len() && (actions[i] == ScanAction::UpdateBaseline || actions[i]
                == ScanAction::StartBroadcast) ==> #[trigger] phases[i] == ScanPhase::Idle,
    decreases chunks.len(),
{
    if chunks.len() > 0 {
        let k = chunks.len() - 1;
        let c = chunks.take(k as int);
        let p = phases.take(k + 1);
        let a = actions.take(k as int);
        assert forall|i: int| 0 <= i < c.len() implies (a[i], p[i + 1]) == #[trigger] scan_step(
            p[i],
            c[i].0,
            c[i].1,
            c[i].2,
        ) by {
            assert(scan_step(phases[i], chunks[i].0, chunks[i].1, chunks[i].2) == (actions[i], phases[i + 1]));
        }
        lemma_scan_broadcasts_alternate(c, p, a);
        assert(actions.drop_last() =~= a);
        assert(scan_step(phases[k], chunks[k].0, chunks[k].1, chunks[k].2) == (actions[k], phases[k + 1]));
        assert forall|i: int|
            0 <= i < actions.len() && (actions[i] == ScanAction::UpdateBaseline || actions[i]
                == ScanAction::StartBroadcast) implies #[trigger] phases[i] == ScanPhase::Idle by {
            assert(scan_step(phases[i], chunks[i].0, chunks[i].1, chunks[i].2) == (actions[i], phases[i + 1]));
        }
    } else {
        assert forall|i: int|
            0 <= i < actions.len() && (actions[i] == ScanAction::UpdateBaseline || actions[i]
                == ScanAction::StartBroadcast) implies #[trigger] phases[i] == ScanPhase::Idle by {
        }
    }
}

} // verus!
