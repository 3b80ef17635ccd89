//! The update-check orchestrator's core: a one-shot state machine that is
//! started once at application startup (production configurations only),
//! waits out a grace delay on a background context, queries the external
//! update-check capability, and resolves to exactly one terminal event.
//! The capability's own "update available" signal is not trusted alone: a
//! candidate version is re-verified with the version comparator, and a
//! candidate that is not strictly newer degrades the outcome to up-to-date.

use crate::clock::today_string;
use crate::version::compare_versions;
use crate::version::spec_compare;
use vstd::prelude::*;
use vstd::string::StringExecFns;

verus! {

/// What the external update-check capability reported.
pub enum UpdateReport {
    /// No update metadata.
    NoUpdate,
    /// Update metadata: a candidate version with optional release notes.
    Available { version: String, notes: Option<String> },
    /// The capability call failed; the error described as text.
    Failed { error: String },
}

/// The payload of an `update-available` event.
pub struct UpdateInfo {
    pub version: String,
    pub current_version: String,
    pub notes: String,
    pub date: Option<String>,
    pub has_update: bool,
}

/// The one event a finished check emits to the UI.
pub enum UpdateEvent {
    /// Emitted on `update-available`: either an accepted update or the news
    /// that the application is up to date.
    Available(UpdateInfo),
    /// Emitted on `update-error`: the capability call failed.
    Error { error: String, has_update: bool },
}

/// An `update-available` payload reporting that no (acceptable) update
/// exists: both versions are the running one, no notes, no date, and
/// `has_update` is off.
pub open spec fn up_to_date_info(current: Seq<char>, i: UpdateInfo) -> bool {
    &&& i.version@ == current
    &&& i.current_version@ == current
    &&& i.notes@.len() == 0
    &&& i.date is None
    &&& i.has_update == false
}

/// What the terminal event of a check must be, given the running version,
/// the capability's report and the date stamped on an accepted update.
pub open spec fn decision_spec(
    current: Seq<char>,
    report: UpdateReport,
    date: String,
    e: UpdateEvent,
) -> bool {
    match report {
        UpdateReport::NoUpdate => e matches UpdateEvent::Available(i) && up_to_date_info(
            current,
            i,
        ),
        UpdateReport::Available { version, notes } => {
            if spec_compare(version@, current) > 0 {
                e matches UpdateEvent::Available(i) && i.version@ == version@
                    && i.current_version@ == current && i.notes@ == (match notes {
                    Option::Some(n) => n@,
                    Option::None => Seq::<char>::empty(),
                }) && (i.date matches Some(d) && d == date) && i.has_update == true
            } else {
                e matches UpdateEvent::Available(i) && up_to_date_info(current, i)
            }
        },
        UpdateReport::Failed { error } => e matches UpdateEvent::Error {
            error: err,
            has_update: hu,
        } && err@ == error@ && hu == false,
    }
}

/// The up-to-date event for the running version.
fn up_to_date_event(current_version: &str) -> (e: UpdateEvent)
    ensures
        e matches UpdateEvent::Available(i) && up_to_date_info(current_version@, i),
{
    UpdateEvent::Available(
        UpdateInfo {
            version: String::from_str(current_version),
            current_version: String::from_str(current_version),
            notes: String::new(),
            date: None,
            has_update: false,
        },
    )
}

/// Decide a finished check's event from the capability's report. A
/// candidate version is accepted only when the comparator finds it strictly
/// newer than the running version; an equal or older candidate degrades to
/// the up-to-date outcome. A failed call becomes the error event.
pub fn evaluate_report(current_version: &str, report: UpdateReport, date: String) -> (e:
    UpdateEvent)
    ensures
        decision_spec(current_version@, report, date, e),
{
    match report {
        UpdateReport::NoUpdate => up_to_date_event(current_version),
        UpdateReport::Available { version, notes } => {
            if compare_versions(version.as_str(), current_version) > 0 {
                let notes_text = match notes {
                    Option::Some(n) => n,
                    Option::None => String::new(),
                };
                UpdateEvent::Available(
                    UpdateInfo {
                        version,
                        current_version: String::from_str(current_version),
                        notes: notes_text,
                        date: Some(date),
                        has_update: true,
                    },
                )
            } else {
                up_to_date_event(current_version)
            }
        },
        UpdateReport::Failed { error } => UpdateEvent::Error { error, has_update: false },
    }
}

/// The event channel the UI receives a finished check's event on.
pub fn event_channel(e: &UpdateEvent) -> (r: &str)
    ensures
        e is Available ==> r@ == "update-available"@,
        e is Error ==> r@ == "update-error"@,
{
    match e {
        UpdateEvent::Available(_) => "update-available",
        UpdateEvent::Error { .. } => "update-error",
    }
}

/// Where a run's one-shot check stands.
pub enum CheckState {
    /// Not started.
    Idle,
    /// Scheduled on a background context, waiting out the startup grace
    /// delay so the UI's event subscribers can attach first.
    Delayed,
    /// The capability call is in flight.
    Checking,
    /// Terminal: the single event has been produced.
    Done,
}

/// The one-shot orchestrator. The caller performs the outside work — the
/// background scheduling, the grace delay, the capability call and the
/// event emission — and drives these transitions; the contracts allow each
/// step exactly once, so one run produces at most one event.
pub struct UpdateOrchestrator {
    pub state: CheckState,
}

impl UpdateOrchestrator {
    /// A fresh orchestrator, not yet started.
    pub fn new() -> (r: UpdateOrchestrator)
        ensures
            r.state == CheckState::Idle,
    {
        UpdateOrchestrator { state: CheckState::Idle }
    }

    /// Startup: the check is scheduled on a background context.
    pub fn begin(&mut self)
        requires
            old(self).state == CheckState::Idle,
        ensures
            final(self).state == CheckState::Delayed,
    {
        self.state = CheckState::Delayed;
    }

    /// The grace delay has elapsed; the capability call begins.
    pub fn delay_elapsed(&mut self)
        requires
            old(self).state == CheckState::Delayed,
        ensures
            final(self).state == CheckState::Checking,
    {
        self.state = CheckState::Checking;
    }

    /// The capability call returned: decide the terminal outcome, stamped
    /// with today's date, and hand back the single event to emit.
    pub fn resolve(&mut self, current_version: &str, report: UpdateReport) -> (e: UpdateEvent)
        requires
            old(self).state == CheckState::Checking,
        ensures
            final(self).state == CheckState::Done,
            exists|d: String|
                #[trigger] decision_spec(current_version@, report, d, e) && d@.len() >= 10,
    {
        self.state = CheckState::Done;
        let date = today_string();
        let ghost stamped = date;
        let e = evaluate_report(current_version, report, date);
        proof {
            assert(decision_spec(current_version@, report, stamped, e) && stamped@.len() >= 10);
        }
        e
    }
}

} // verus!
