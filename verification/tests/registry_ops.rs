use blob_mirror::registry::{MsgRef, Registry, RegistryError};

#[test]
fn seen_flag_roundtrip() {
    let mut reg = Registry::new();
    assert!(!reg.is_seen(42));
    assert!(reg.set_seen(42, true));
    assert!(reg.is_seen(42));
    assert!(!reg.set_seen(42, true));
    assert!(reg.is_seen(42));
    assert!(reg.set_seen(42, false));
    assert!(!reg.is_seen(42));
    assert!(!reg.set_seen(42, false));
}

#[test]
fn seen_flags_are_independent() {
    let mut reg = Registry::new();
    reg.set_seen(1, true);
    assert!(reg.is_seen(1));
    assert!(!reg.is_seen(2));
    reg.set_seen(2, true);
    reg.set_seen(1, false);
    assert!(!reg.is_seen(1));
    assert!(reg.is_seen(2));
}

#[test]
fn drain_on_empty_queue_returns_empty() {
    let mut reg = Registry::new();
    let out = reg.drain_on_seen(9);
    assert!(out.deletions.is_empty());
    assert!(out.dereacts.is_empty());
    // draining twice in direct succession stays empty
    let again = reg.drain_on_seen(9);
    assert!(again.deletions.is_empty());
    assert!(again.dereacts.is_empty());
}

#[test]
fn drain_returns_queued_actions_in_order() {
    let mut reg = Registry::new();
    reg.queue_delete_on_seen(3, 70, 100);
    reg.queue_delete_on_seen(3, 70, 101);
    reg.queue_dereact_on_seen(3, 71, 200);
    let out = reg.drain_on_seen(3);
    assert_eq!(
        out.deletions,
        vec![
            MsgRef { channel_id: 70, message_id: 100 },
            MsgRef { channel_id: 70, message_id: 101 },
        ]
    );
    assert_eq!(out.dereacts, vec![MsgRef { channel_id: 71, message_id: 200 }]);
    // a second drain returns empty
    let again = reg.drain_on_seen(3);
    assert!(again.deletions.is_empty());
    assert!(again.dereacts.is_empty());
}

#[test]
fn enqueue_between_drains_is_delivered_exactly_once() {
    let mut reg = Registry::new();
    reg.queue_delete_on_seen(5, 1, 10);
    let first = reg.drain_on_seen(5);
    assert_eq!(first.deletions.len(), 1);
    reg.queue_delete_on_seen(5, 1, 11);
    let second = reg.drain_on_seen(5);
    assert_eq!(second.deletions, vec![MsgRef { channel_id: 1, message_id: 11 }]);
    let third = reg.drain_on_seen(5);
    assert!(third.deletions.is_empty());
}

#[test]
fn queues_of_other_repositories_are_untouched() {
    let mut reg = Registry::new();
    reg.queue_delete_on_seen(1, 10, 100);
    reg.queue_delete_on_seen(2, 20, 200);
    let out = reg.drain_on_seen(1);
    assert_eq!(out.deletions, vec![MsgRef { channel_id: 10, message_id: 100 }]);
    let other = reg.drain_on_seen(2);
    assert_eq!(other.deletions, vec![MsgRef { channel_id: 20, message_id: 200 }]);
}

#[test]
fn add_group_with_id_rejects_a_duplicate() {
    let mut reg = Registry::new();
    assert!(reg
        .add_group_with_id("aaaabbbbccccdddd".to_string(), 1, "p".to_string(), 2, vec![3])
        .is_ok());
    let ret = reg.add_group_with_id("aaaabbbbccccdddd".to_string(), 9, "q".to_string(), 8, vec![7]);
    assert_eq!(ret, Err(RegistryError::IdCollision));
    // the registry is unchanged: still exactly one group, with the old fields
    let ids = reg.lookup_groups_for_repo(1);
    assert_eq!(ids.len(), 1);
    assert!(reg.lookup_groups_for_repo(9).is_empty());
    let g = reg.load_group(&"aaaabbbbccccdddd".to_string()).unwrap();
    assert_eq!(g.repo_id, 1);
    assert_eq!(g.path, "p");
}

#[test]
fn add_group_with_id_rejects_a_message_owned_elsewhere() {
    let mut reg = Registry::new();
    assert!(reg
        .add_group_with_id("aaaabbbbccccdddd".to_string(), 1, "p".to_string(), 2, vec![100, 101])
        .is_ok());
    // a fresh identifier, but message 100 already belongs to the first group
    let ret =
        reg.add_group_with_id("eeeeffffgggghhhh".to_string(), 3, "q".to_string(), 4, vec![100]);
    assert_eq!(ret, Err(RegistryError::MessageInUse));
    // the registry is unchanged
    assert!(reg.lookup_groups_for_repo(3).is_empty());
    assert_eq!(reg.group_of_message(100).unwrap().repo_id, 1);
}

#[test]
fn create_group_rejects_a_message_owned_elsewhere() {
    let mut reg = Registry::new();
    reg.create_group(1, "p".to_string(), 2, vec![100]).unwrap();
    let ret = reg.create_group(3, "q".to_string(), 4, vec![100, 200]);
    assert_eq!(ret, Err(RegistryError::MessageInUse));
    assert!(reg.lookup_groups_for_repo(3).is_empty());
}

#[test]
fn create_group_on_an_empty_registry_succeeds() {
    let mut reg = Registry::new();
    assert!(reg.create_group(9, "p".to_string(), 1, vec![1, 2, 3]).is_ok());
}

#[test]
fn load_group_not_found() {
    let reg = Registry::new();
    let ret = reg.load_group(&"nosuchgroup00000".to_string());
    assert!(matches!(ret, Err(RegistryError::NotFound)));
}

#[test]
fn create_group_generates_a_fresh_well_formed_id() {
    let mut reg = Registry::new();
    let id1 = reg
        .create_group(42, "main/a.txt".to_string(), 7, vec![100, 101])
        .unwrap();
    assert_eq!(id1.len(), 16);
    assert!(id1.chars().all(|c| c.is_ascii_alphanumeric()));
    let id2 = reg
        .create_group(42, "main/b.txt".to_string(), 7, vec![102])
        .unwrap();
    assert_ne!(id1, id2);
    let ids = reg.lookup_groups_for_repo(42);
    assert_eq!(ids, vec![id1.clone(), id2.clone()]);
    let g = reg.load_group(&id1).unwrap();
    assert_eq!(g.repo_id, 42);
    assert_eq!(g.path, "main/a.txt");
    assert_eq!(g.channel_id, 7);
    assert_eq!(g.message_ids, vec![100, 101]);
}

#[test]
fn group_of_message_reverse_lookup() {
    let mut reg = Registry::new();
    let id = reg
        .create_group(1, "f".to_string(), 2, vec![500, 501])
        .unwrap();
    let owner = reg.group_of_message(501).unwrap();
    assert_eq!(owner.id, id);
    assert!(reg.group_of_message(502).is_none());
}

#[test]
fn lookup_groups_only_lists_the_repository_asked_for() {
    let mut reg = Registry::new();
    let a = reg.create_group(1, "x".to_string(), 5, vec![1]).unwrap();
    let _b = reg.create_group(2, "y".to_string(), 5, vec![2]).unwrap();
    let c = reg.create_group(1, "z".to_string(), 5, vec![3]).unwrap();
    assert_eq!(reg.lookup_groups_for_repo(1), vec![a, c]);
    assert!(reg.lookup_groups_for_repo(3).is_empty());
}
