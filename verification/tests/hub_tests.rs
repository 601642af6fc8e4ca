use network_sync::hub::ServerState;

#[test]
fn new_hub_is_empty() {
    let h = ServerState::new();
    assert_eq!(h.connections.len(), 0);
    assert_eq!(h.sessions.len(), 0);
}

#[test]
fn register_then_join_creates_session() {
    let mut h = ServerState::new();
    h.register_connection("a");
    assert!(h.has_connection("a"));
    assert!(!h.has_connection("b"));
    let members = h.join_session("a", "room");
    assert_eq!(members, vec!["a".to_string()]);
    assert!(h.is_in_session("a", "room"));
    assert_eq!(h.get_session_members("room"), vec!["a".to_string()]);
}

#[test]
fn join_orders_members_by_first_join() {
    let mut h = ServerState::new();
    h.register_connection("a");
    h.register_connection("b");
    h.register_connection("c");
    h.join_session("a", "room");
    h.join_session("b", "room");
    let members = h.join_session("c", "room");
    assert_eq!(
        members,
        vec!["a".to_string(), "b".to_string(), "c".to_string()]
    );
}

#[test]
fn joining_twice_does_not_duplicate() {
    let mut h = ServerState::new();
    h.register_connection("a");
    h.join_session("a", "room");
    let members = h.join_session("a", "room");
    assert_eq!(members, vec!["a".to_string()]);
}

#[test]
fn switching_sessions_leaves_the_old_one() {
    let mut h = ServerState::new();
    h.register_connection("a");
    h.register_connection("b");
    h.join_session("a", "one");
    h.join_session("b", "one");
    h.join_session("a", "two");
    assert!(h.is_in_session("a", "two"));
    assert!(!h.is_in_session("a", "one"));
    assert_eq!(h.get_session_members("one"), vec!["b".to_string()]);
    assert_eq!(h.get_session_members("two"), vec!["a".to_string()]);
}

#[test]
fn leave_returns_the_session_and_removes_membership() {
    let mut h = ServerState::new();
    h.register_connection("a");
    h.register_connection("b");
    h.join_session("a", "room");
    h.join_session("b", "room");
    let left = h.leave_session("a");
    assert_eq!(left, Some("room".to_string()));
    assert_eq!(h.get_session_members("room"), vec!["b".to_string()]);
    assert!(!h.is_in_session("a", "room"));
}

#[test]
fn leave_without_session_returns_none() {
    let mut h = ServerState::new();
    h.register_connection("a");
    assert_eq!(h.leave_session("a"), None);
    assert_eq!(h.leave_session("ghost"), None);
}

#[test]
fn emptied_sessions_are_dropped() {
    let mut h = ServerState::new();
    h.register_connection("a");
    h.join_session("a", "room");
    h.leave_session("a");
    assert_eq!(h.get_session_members("room"), Vec::<String>::new());
    assert!(h.sessions.is_empty());
}

#[test]
fn remove_connection_cleans_up_everything() {
    let mut h = ServerState::new();
    h.register_connection("a");
    h.register_connection("b");
    h.join_session("a", "room");
    h.join_session("b", "room");
    h.remove_connection("a");
    assert!(!h.has_connection("a"));
    assert_eq!(h.get_session_members("room"), vec!["b".to_string()]);
    h.remove_connection("b");
    assert!(h.sessions.is_empty());
    assert!(h.connections.is_empty());
}

#[test]
fn remove_unknown_connection_changes_nothing() {
    let mut h = ServerState::new();
    h.register_connection("a");
    h.join_session("a", "room");
    h.remove_connection("ghost");
    assert!(h.has_connection("a"));
    assert_eq!(h.get_session_members("room"), vec!["a".to_string()]);
}

#[test]
fn relay_targets_are_the_whole_session_including_the_sender() {
    let mut h = ServerState::new();
    h.register_connection("a");
    h.register_connection("b");
    h.register_connection("c");
    h.join_session("a", "room");
    h.join_session("b", "room");
    h.join_session("c", "other");
    assert_eq!(
        h.relay_targets("a"),
        vec!["a".to_string(), "b".to_string()]
    );
    assert_eq!(h.relay_targets("c"), vec!["c".to_string()]);
}

#[test]
fn relay_targets_empty_without_session() {
    let mut h = ServerState::new();
    h.register_connection("a");
    assert_eq!(h.relay_targets("a"), Vec::<String>::new());
    assert_eq!(h.relay_targets("ghost"), Vec::<String>::new());
}

#[test]
fn rejoining_a_session_after_leaving_restores_single_membership() {
    let mut h = ServerState::new();
    h.register_connection("c");
    h.join_session("c", "room");
    h.leave_session("c");
    let members = h.join_session("c", "room");
    assert_eq!(members, vec!["c".to_string()]);
    assert!(h.is_in_session("c", "room"));
}

#[test]
fn accept_connection_assigns_uuid_shaped_ids() {
    let mut h = ServerState::new();
    let a = h.accept_connection().expect("fresh id");
    let b = h.accept_connection().expect("fresh id");
    assert_eq!(a.chars().count(), 36);
    assert_eq!(b.chars().count(), 36);
    assert_ne!(a, b);
    assert!(h.has_connection(&a));
    assert!(h.has_connection(&b));
    assert_eq!(a.chars().filter(|c| *c == '-').count(), 4);
}
