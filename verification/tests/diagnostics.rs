use devhub::diagnostics::{
    persistence_status_text, PersistenceEvent, PersistenceFailure, PersistenceHistory,
    PersistenceOperation, PersistenceRecoverySource, PersistenceStore,
    PERSISTENCE_HISTORY_CAPACITY,
};

#[test]
fn history_is_bounded_and_retains_the_newest_event() {
    let mut history = PersistenceHistory::default();
    for index in 0..12 {
        let store = if index % 2 == 0 {
            PersistenceStore::Config
        } else {
            PersistenceStore::ProjectCache
        };
        history.record_events(vec![PersistenceEvent::Conflict {
            store,
            operation: PersistenceOperation::Write,
        }]);
    }

    assert_eq!(history.len(), PERSISTENCE_HISTORY_CAPACITY);
    assert_eq!(
        history.latest(),
        Some(&PersistenceEvent::Conflict {
            store: PersistenceStore::ProjectCache,
            operation: PersistenceOperation::Write,
        })
    );
}

#[test]
fn status_text_distinguishes_recovery_source_and_conflicts() {
    assert_eq!(
        persistence_status_text(&PersistenceEvent::Recovered {
            store: PersistenceStore::Config,
            source: PersistenceRecoverySource::Backup,
        }),
        "Config recovered from backup."
    );
    assert_eq!(
        persistence_status_text(&PersistenceEvent::Recovered {
            store: PersistenceStore::ProjectCache,
            source: PersistenceRecoverySource::Temporary,
        }),
        "Project cache recovered from an interrupted write."
    );
    assert_eq!(
        persistence_status_text(&PersistenceEvent::Conflict {
            store: PersistenceStore::Config,
            operation: PersistenceOperation::Write,
        }),
        "Config save blocked while another instance is writing."
    );
}

#[test]
fn a_new_history_is_empty() {
    let history = PersistenceHistory::new();
    assert!(history.is_empty());
    assert_eq!(history.len(), 0);
    assert_eq!(history.latest(), None);
}

#[test]
fn several_events_at_once_keep_the_newest_eight() {
    let mut history = PersistenceHistory::new();
    let mut events = Vec::new();
    for _ in 0..9 {
        events.push(PersistenceEvent::Conflict {
            store: PersistenceStore::Todos,
            operation: PersistenceOperation::Recovery,
        });
    }
    events.push(PersistenceEvent::Recovered {
        store: PersistenceStore::Todos,
        source: PersistenceRecoverySource::Backup,
    });
    history.record_events(events);
    assert_eq!(history.len(), 8);
    assert_eq!(
        history.latest(),
        Some(&PersistenceEvent::Recovered {
            store: PersistenceStore::Todos,
            source: PersistenceRecoverySource::Backup,
        })
    );
}

#[test]
fn failures_record_their_event_only() {
    let mut history = PersistenceHistory::new();
    history.record_failure(&PersistenceFailure {
        event: None,
        message: "disk full".to_string(),
    });
    assert!(history.is_empty());
    history.record_failure(&PersistenceFailure {
        event: Some(PersistenceEvent::Conflict {
            store: PersistenceStore::Config,
            operation: PersistenceOperation::Recovery,
        }),
        message: "busy".to_string(),
    });
    assert_eq!(history.len(), 1);
    assert_eq!(
        persistence_status_text(history.latest().unwrap()),
        "Config recovery stopped because another instance changed it."
    );
}
