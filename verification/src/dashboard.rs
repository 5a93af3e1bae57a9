//! The dashboard's refresh rule: the UI thread takes the newest fetch
//! outcome; a successful one replaces the snapshot on screen, a failed one
//! only changes the status line, so the screen never blanks.

use vstd::prelude::*;
use crate::agh::{FetchOutcome, Snapshot};

verus! {

/// What the UI has to do after an outcome.
#[derive(Debug, PartialEq, Eq)]
pub enum UiUpdate {
    /// Repaint the page from the new snapshot.
    Fill,
    /// Keep the page; show this error in the status line.
    Error(String),
}

/// The snapshot on screen after an outcome.
pub open spec fn after(latest: Option<Snapshot>, outcome: FetchOutcome) -> Option<Snapshot> {
    match outcome {
        FetchOutcome::Refreshed(s) => Some(s),
        _ => latest,
    }
}

/// Take one fetch outcome: a refreshed snapshot replaces the one on screen;
/// rejected credentials and failures keep it and report `credentials
/// rejected` or `stale`.
pub fn apply_outcome(latest: &mut Option<Snapshot>, outcome: FetchOutcome) -> (res: UiUpdate)
    ensures
        *final(latest) == after(*old(latest), outcome),
        match outcome {
            FetchOutcome::Refreshed(_) => res == UiUpdate::Fill,
            FetchOutcome::CredentialsRejected => res matches UiUpdate::Error(t) && t@
                == "credentials rejected"@,
            FetchOutcome::Failed(_) => res matches UiUpdate::Error(t) && t@ == "stale"@,
        },
{
    match outcome {
        FetchOutcome::Refreshed(s) => {
            *latest = Some(s);
            UiUpdate::Fill
        },
        FetchOutcome::CredentialsRejected => UiUpdate::Error(String::from_str("credentials rejected")),
        FetchOutcome::Failed(_) => UiUpdate::Error(String::from_str("stale")),
    }
}

/// The snapshot on screen after a run of outcomes, oldest first.
pub open spec fn after_all(latest: Option<Snapshot>, outcomes: Seq<FetchOutcome>) -> Option<
    Snapshot,
>
    decreases outcomes.len(),
{
    if outcomes.len() == 0 {
        latest
    } else {
        after(after_all(latest, outcomes.drop_last()), outcomes.last())
    }
}

/// The newest refreshed snapshot of a run of outcomes, if any.
pub open spec fn newest_refresh(outcomes: Seq<FetchOutcome>) -> Option<Snapshot>
    decreases outcomes.len(),
{
    if outcomes.len() == 0 {
        None
    } else {
        match outcomes.last() {
            FetchOutcome::Refreshed(s) => Some(s),
            _ => newest_refresh(outcomes.drop_last()),
        }
    }
}

/// A failed refresh never blanks the screen: after any run of outcomes the
/// screen shows the newest successfully refreshed snapshot, or what it
/// showed before the run when no refresh in it succeeded.
pub proof fn law_screen_keeps_newest_refresh(latest: Option<Snapshot>, outcomes: Seq<FetchOutcome>)
    ensures
        after_all(latest, outcomes) == match newest_refresh(outcomes) {
            Some(s) => Some(s),
            None => latest,
        },
    decreases outcomes.len(),
{
    if outcomes.len() > 0 {
        law_screen_keeps_newest_refresh(latest, outcomes.drop_last());
    }
}

} // verus!
