use font_browser::update::CheckState;
use font_browser::update::UpdateEvent;
use font_browser::update::UpdateOrchestrator;
use font_browser::update::UpdateReport;
use font_browser::update::evaluate_report;
use font_browser::update::event_channel;

fn date() -> String {
    "2024-05-17".to_string()
}

#[test]
fn older_candidate_degrades_to_up_to_date() {
    // The capability claims 1.0.1 is available while 1.0.2 is running: the
    // comparator rejects the candidate and the event reports no update.
    let report = UpdateReport::Available {
        version: "1.0.1".to_string(),
        notes: Some("old notes".to_string()),
    };
    let e = evaluate_report("1.0.2", report, date());
    match e {
        UpdateEvent::Available(i) => {
            assert!(!i.has_update);
            assert_eq!(i.version, "1.0.2");
            assert_eq!(i.current_version, "1.0.2");
            assert_eq!(i.notes, "");
            assert!(i.date.is_none());
        }
        UpdateEvent::Error { .. } => panic!("expected an update-available event"),
    }
}

#[test]
fn equal_candidate_degrades_to_up_to_date() {
    let report = UpdateReport::Available { version: "v1.0.2".to_string(), notes: None };
    let e = evaluate_report("1.0.2", report, date());
    match e {
        UpdateEvent::Available(i) => assert!(!i.has_update),
        UpdateEvent::Error { .. } => panic!("expected an update-available event"),
    }
}

#[test]
fn newer_candidate_is_accepted() {
    let report = UpdateReport::Available {
        version: "1.1.0".to_string(),
        notes: Some("many fixes".to_string()),
    };
    let e = evaluate_report("1.0.2", report, date());
    match e {
        UpdateEvent::Available(i) => {
            assert!(i.has_update);
            assert_eq!(i.version, "1.1.0");
            assert_eq!(i.current_version, "1.0.2");
            assert_eq!(i.notes, "many fixes");
            assert_eq!(i.date.as_deref(), Some("2024-05-17"));
        }
        UpdateEvent::Error { .. } => panic!("expected an update-available event"),
    }
}

#[test]
fn newer_candidate_without_notes_gets_empty_notes() {
    let report = UpdateReport::Available { version: "2.0.0".to_string(), notes: None };
    let e = evaluate_report("1.0.2", report, date());
    match e {
        UpdateEvent::Available(i) => {
            assert!(i.has_update);
            assert_eq!(i.notes, "");
        }
        UpdateEvent::Error { .. } => panic!("expected an update-available event"),
    }
}

#[test]
fn no_update_reports_up_to_date() {
    let e = evaluate_report("1.0.2", UpdateReport::NoUpdate, date());
    match e {
        UpdateEvent::Available(i) => {
            assert!(!i.has_update);
            assert_eq!(i.version, "1.0.2");
        }
        UpdateEvent::Error { .. } => panic!("expected an update-available event"),
    }
}

#[test]
fn failed_check_becomes_error_event() {
    let report = UpdateReport::Failed { error: "network unreachable".to_string() };
    let e = evaluate_report("1.0.2", report, date());
    match e {
        UpdateEvent::Error { error, has_update } => {
            assert_eq!(error, "network unreachable");
            assert!(!has_update);
        }
        UpdateEvent::Available(_) => panic!("expected an update-error event"),
    }
}

#[test]
fn event_channels_match_the_event() {
    let ok = evaluate_report("1.0.2", UpdateReport::NoUpdate, date());
    assert_eq!(event_channel(&ok), "update-available");
    let failed = evaluate_report(
        "1.0.2",
        UpdateReport::Failed { error: "boom".to_string() },
        date(),
    );
    assert_eq!(event_channel(&failed), "update-error");
}

#[test]
fn orchestrator_walks_to_done() {
    let mut orch = UpdateOrchestrator::new();
    assert!(matches!(orch.state, CheckState::Idle));
    orch.begin();
    assert!(matches!(orch.state, CheckState::Delayed));
    orch.delay_elapsed();
    assert!(matches!(orch.state, CheckState::Checking));
    let report = UpdateReport::Available { version: "1.0.1".to_string(), notes: None };
    let e = orch.resolve("1.0.2", report);
    assert!(matches!(orch.state, CheckState::Done));
    match e {
        UpdateEvent::Available(i) => assert!(!i.has_update),
        UpdateEvent::Error { .. } => panic!("expected an update-available event"),
    }
}
