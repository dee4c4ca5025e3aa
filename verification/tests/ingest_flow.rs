use blob_mirror::ingest::{
    apply_seen_intent, handle_installation_event, handle_installation_repositories_event,
    handle_push_event, handle_repo_event, updates_for_push, PushError,
};
use blob_mirror::registry::{MsgRef, Registry};
use blob_mirror::schema::{
    Installation, InstallationEvent, InstallationEventAction, InstallationRepositoriesEvent,
    InstallationRepositoriesEventAction, PushEvent, Repo, RepoEvent, RepoEventAction,
};

#[test]
fn true_intent_publishes_exactly_once() {
    let mut reg = Registry::new();
    reg.queue_delete_on_seen(8, 70, 100);
    let first = apply_seen_intent(&mut reg, 8, true);
    let payload = first.expect("the transition to seen publishes");
    assert_eq!(payload.deletions, vec![MsgRef { channel_id: 70, message_id: 100 }]);
    assert!(payload.dereacts.is_empty());
    // an immediate second true intent publishes nothing
    assert!(apply_seen_intent(&mut reg, 8, true).is_none());
    assert!(reg.is_seen(8));
}

#[test]
fn false_intent_never_publishes() {
    let mut reg = Registry::new();
    assert!(apply_seen_intent(&mut reg, 8, false).is_none());
    reg.set_seen(8, true);
    reg.queue_delete_on_seen(8, 1, 2);
    // hiding never triggers the deferred actions
    assert!(apply_seen_intent(&mut reg, 8, false).is_none());
    assert!(!reg.is_seen(8));
}

#[test]
fn installation_created_drains_and_publishes() {
    // repo 42 unseen; a delete-on-seen is queued for (channel 7, msg 100);
    // an installation "created" event for repo 42 arrives
    let mut reg = Registry::new();
    reg.queue_delete_on_seen(42, 7, 100);
    let ev = InstallationEvent {
        action: InstallationEventAction::Created,
        repositories: vec![Repo { id: 42, full_name: "alice/proj".to_string() }],
        installation: Installation { id: 1 },
    };
    let publishes = handle_installation_event(&mut reg, &ev);
    assert!(reg.is_seen(42));
    assert_eq!(publishes.len(), 1);
    assert_eq!(publishes[0].deletions, vec![MsgRef { channel_id: 7, message_id: 100 }]);
    assert!(publishes[0].dereacts.is_empty());
    // a subsequent drain returns empty
    let after = reg.drain_on_seen(42);
    assert!(after.deletions.is_empty());
    assert!(after.dereacts.is_empty());
}

#[test]
fn installation_deleted_publishes_nothing() {
    let mut reg = Registry::new();
    reg.set_seen(42, true);
    let ev = InstallationEvent {
        action: InstallationEventAction::Deleted,
        repositories: vec![Repo { id: 42, full_name: "alice/proj".to_string() }],
        installation: Installation { id: 1 },
    };
    let publishes = handle_installation_event(&mut reg, &ev);
    assert!(publishes.is_empty());
    assert!(!reg.is_seen(42));
}

#[test]
fn repeated_repo_id_in_one_event_publishes_once() {
    let mut reg = Registry::new();
    let ev = InstallationEvent {
        action: InstallationEventAction::Created,
        repositories: vec![
            Repo { id: 5, full_name: "a/b".to_string() },
            Repo { id: 5, full_name: "a/b".to_string() },
        ],
        installation: Installation { id: 1 },
    };
    let publishes = handle_installation_event(&mut reg, &ev);
    assert_eq!(publishes.len(), 1);
}

#[test]
fn installation_repositories_added_marks_seen() {
    let mut reg = Registry::new();
    let ev = InstallationRepositoriesEvent {
        action: InstallationRepositoriesEventAction::Added,
        repositories_added: vec![Repo { id: 10, full_name: "a/b".to_string() }],
        repositories_removed: vec![],
    };
    let publishes = handle_installation_repositories_event(&mut reg, &ev);
    assert_eq!(publishes.len(), 1);
    assert!(reg.is_seen(10));
}

#[test]
fn installation_repositories_removed_marks_unseen() {
    let mut reg = Registry::new();
    reg.set_seen(10, true);
    let ev = InstallationRepositoriesEvent {
        action: InstallationRepositoriesEventAction::Removed,
        repositories_added: vec![],
        repositories_removed: vec![Repo { id: 10, full_name: "a/b".to_string() }],
    };
    let publishes = handle_installation_repositories_event(&mut reg, &ev);
    assert!(publishes.is_empty());
    assert!(!reg.is_seen(10));
}

#[test]
fn repo_event_transferred_changes_nothing() {
    let mut reg = Registry::new();
    reg.queue_delete_on_seen(3, 1, 2);
    let ev = RepoEvent {
        action: RepoEventAction::Transferred,
        repository: Repo { id: 3, full_name: "a/b".to_string() },
        installation: Installation { id: 1 },
    };
    assert!(handle_repo_event(&mut reg, &ev).is_none());
    assert!(!reg.is_seen(3));
    // the queue is still intact
    let out = reg.drain_on_seen(3);
    assert_eq!(out.deletions.len(), 1);
}

#[test]
fn repo_event_created_drains() {
    let mut reg = Registry::new();
    reg.queue_dereact_on_seen(3, 9, 90);
    let ev = RepoEvent {
        action: RepoEventAction::Created,
        repository: Repo { id: 3, full_name: "a/b".to_string() },
        installation: Installation { id: 1 },
    };
    let out = handle_repo_event(&mut reg, &ev).expect("transition publishes");
    assert!(out.deletions.is_empty());
    assert_eq!(out.dereacts, vec![MsgRef { channel_id: 9, message_id: 90 }]);
    assert!(reg.is_seen(3));
}

#[test]
fn push_for_repo_without_groups_publishes_nothing() {
    let reg = Registry::new();
    let ev = PushEvent {
        installation: Installation { id: 1 },
        repository: Repo { id: 77, full_name: "alice/proj".to_string() },
        ref_: "refs/heads/main".to_string(),
    };
    let updates = handle_push_event(&reg, &ev).expect("a push with no groups is not an error");
    assert!(updates.is_empty());
}

#[test]
fn push_builds_one_update_per_group() {
    let mut reg = Registry::new();
    let id1 = reg
        .create_group(77, "main/README.md".to_string(), 9, vec![1, 2])
        .unwrap();
    let _other = reg
        .create_group(78, "main/other.md".to_string(), 9, vec![3])
        .unwrap();
    let id2 = reg
        .create_group(77, "main/doc.md".to_string(), 10, vec![4])
        .unwrap();
    assert_ne!(id1, id2);
    let ev = PushEvent {
        installation: Installation { id: 1 },
        repository: Repo { id: 77, full_name: "alice/proj".to_string() },
        ref_: "refs/heads/main".to_string(),
    };
    let updates = handle_push_event(&reg, &ev).unwrap();
    assert_eq!(updates.len(), 2);
    assert_eq!(updates[0].channel_id, 9);
    assert_eq!(updates[0].message_ids, vec![1, 2]);
    assert_eq!(
        updates[0].url,
        "https://raw.githubusercontent.com/alice/proj/main/README.md"
    );
    assert_eq!(updates[1].channel_id, 10);
    assert_eq!(
        updates[1].url,
        "https://raw.githubusercontent.com/alice/proj/main/doc.md"
    );
}

#[test]
fn push_with_malformed_full_name_is_an_error() {
    let reg = Registry::new();
    let ev = PushEvent {
        installation: Installation { id: 1 },
        repository: Repo { id: 1, full_name: "noslash".to_string() },
        ref_: "r".to_string(),
    };
    assert!(matches!(handle_push_event(&reg, &ev), Err(PushError::MalformedRepoName)));
}

#[test]
fn push_is_not_gated_on_seen_state() {
    // updates are attempted even for repositories whose seen flag is false
    let mut reg = Registry::new();
    reg.create_group(5, "f.txt".to_string(), 1, vec![11]).unwrap();
    assert!(!reg.is_seen(5));
    let updates = updates_for_push(&reg, 5, "u", "r");
    assert_eq!(updates.len(), 1);
    assert_eq!(updates[0].url, "https://raw.githubusercontent.com/u/r/f.txt");
}

#[test]
fn event_actions_map_to_their_seen_intent() {
    assert!(InstallationEventAction::Created.seen());
    assert!(InstallationEventAction::Unsuspend.seen());
    assert!(InstallationEventAction::NewPermissionsAccepted.seen());
    assert!(!InstallationEventAction::Deleted.seen());
    assert!(!InstallationEventAction::Suspend.seen());

    assert!(InstallationRepositoriesEventAction::Added.seen());
    assert!(!InstallationRepositoriesEventAction::Removed.seen());

    assert_eq!(RepoEventAction::Created.seen(), Some(true));
    assert_eq!(RepoEventAction::Unarchived.seen(), Some(true));
    assert_eq!(RepoEventAction::Edited.seen(), Some(true));
    assert_eq!(RepoEventAction::Renamed.seen(), Some(true));
    assert_eq!(RepoEventAction::Publicized.seen(), Some(true));
    assert_eq!(RepoEventAction::Deleted.seen(), Some(false));
    assert_eq!(RepoEventAction::Archived.seen(), Some(false));
    assert_eq!(RepoEventAction::Privatized.seen(), Some(false));
    assert_eq!(RepoEventAction::Transferred.seen(), None);
}
