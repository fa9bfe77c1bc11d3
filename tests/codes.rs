use groupchat_core::directory::GroupRepository;
use groupchat_core::domain::{ChatError, Group, GroupMember, Message};
use groupchat_core::join_code::{JoinCode, JoinCodeError};
use groupchat_core::migration::MigrateError;
use groupchat_core::service::ChatService;
use groupchat_core::domain::User;
use std::collections::HashSet;
use std::str::FromStr;

#[test]
fn thousand_groups_get_distinct_codes() {
    let mut s = ChatService::new(4);
    let u = User { id: 1, username: "A".to_string() };
    s.add_user(u.clone()).unwrap();
    for i in 0..1000 {
        s.create_group(Some(&u), format!("g{i}"), "a.png".to_string()).unwrap();
    }
    let groups = s.get_groups(Some(&u)).unwrap();
    assert_eq!(groups.len(), 1000);
    let codes: HashSet<String> = groups.iter().map(|g| g.join_code.clone()).collect();
    assert_eq!(codes.len(), 1000);
    for c in &codes {
        assert_eq!(c.chars().count(), 8);
        assert!(c.chars().all(|ch| ch.is_ascii_alphanumeric() || ch == '_' || ch == '-'));
    }
}

#[test]
fn colliding_candidate_is_passed_over() {
    let mut d = GroupRepository::new();
    let g = Group { id: 1, name: "g".to_string(), avatar: None, created_at: 0, join_code: "AAAAAAAA".to_string() };
    d.create_group(g).unwrap();
    let candidates = vec!["AAAAAAAA".to_string(), "BBBBBBBB".to_string()];
    assert_eq!(d.choose_join_code(&candidates), Some(1));
    assert_eq!(d.choose_join_code(&vec!["AAAAAAAA".to_string()]), None);
    assert!(d.join_code_taken(&"AAAAAAAA".to_string()));
}

#[test]
fn new_groups_have_random_codes() {
    let g = Group::new("x".to_string());
    assert_eq!(g.join_code.chars().count(), 8);
    assert!(g.avatar.is_none());
    let h = Group::new_with_avatar("y".to_string(), "p".to_string());
    assert_eq!(h.avatar.as_deref(), Some("p"));
    assert_ne!(g.id, h.id);
    let m = Message::new(1, 2, "hello".to_string());
    assert_eq!((m.group_id, m.user_id, m.content.as_str()), (1, 2, "hello"));
    assert!(m.created_at > 1_600_000_000_000);
}

#[test]
fn directory_memberships() {
    let mut d = GroupRepository::new();
    let g = Group { id: 1, name: "g".to_string(), avatar: None, created_at: 0, join_code: "AAAAAAAA".to_string() };
    d.create_group(g).unwrap();
    assert_eq!(d.add_member(2, 5, 0), Err(ChatError::NotFound));
    assert_eq!(d.add_member(1, 5, 0), Ok(()));
    assert_eq!(d.add_member(1, 5, 1), Err(ChatError::AlreadyMember));
    assert!(d.is_member(1, 5));
    assert_eq!(d.list_members(1), vec![GroupMember::new(1, 5, 0)]);
    assert_eq!(d.list_user_groups(5).len(), 1);
    assert!(d.get_group_by_id(1).is_some());
    assert!(d.get_by_join_code(&"AAAAAAAA".to_string()).is_some());
    assert!(d.remove_member(1, 5));
    assert!(!d.remove_member(1, 5));
    assert!(!d.is_member(1, 5));
    assert!(d.has_group(1));
}

#[test]
fn join_code_lengths() {
    assert_eq!(JoinCode::parse("abc").err(), Some(JoinCodeError::TooShort));
    assert_eq!(JoinCode::parse("abcdefghijklmnopq").err(), Some(JoinCodeError::TooLong));
    assert_eq!(JoinCode::parse("abcd").unwrap().as_str(), "abcd");
    assert_eq!(JoinCode::from_str("abcdefghijklmnop").unwrap().as_ref(), "abcdefghijklmnop");
    assert_eq!(JoinCode::try_from("abcdefg".to_string()).err(), Some(JoinCodeError::TooShort));
    assert_eq!(JoinCode::try_from("abcdefghi".to_string()).err(), Some(JoinCodeError::TooLong));
    assert_eq!(JoinCode::try_from("abcdefgh".to_string()).unwrap().text(), "abcdefgh");
}

#[test]
fn migrate_error_messages() {
    assert_eq!(MigrateError::AcquireIssue.message(), "Failed to acquire database connection");
    assert_eq!(MigrateError::MigrationAdd.message(), "Failed to add migrations");
    assert_eq!(MigrateError::RunMigrate.message(), "Failed to run migrations");
}

#[test]
fn groups_by_name_and_listing() {
    let mut d = GroupRepository::new();
    for (id, name, code) in [(1u128, "x", "AAAAAAAA"), (2, "y", "BBBBBBBB"), (3, "x", "CCCCCCCC")] {
        let g = Group { id, name: name.to_string(), avatar: None, created_at: 0, join_code: code.to_string() };
        d.create_group(g).unwrap();
    }
    assert_eq!(d.get_group_by_name(&"x".to_string()).unwrap().id, 1);
    assert!(d.get_group_by_name(&"z".to_string()).is_none());
    let ids: Vec<u128> = d.list_groups().iter().map(|g| g.id).collect();
    assert_eq!(ids, vec![1, 2, 3]);
}

#[test]
fn remove_member_keeps_other_rows() {
    let mut d = GroupRepository::new();
    let g = Group { id: 1, name: "g".to_string(), avatar: None, created_at: 0, join_code: "AAAAAAAA".to_string() };
    d.create_group(g).unwrap();
    d.add_member(1, 5, 10).unwrap();
    d.add_member(1, 6, 20).unwrap();
    d.add_member(1, 7, 30).unwrap();
    assert!(d.remove_member(1, 6));
    assert_eq!(d.list_members(1), vec![GroupMember::new(1, 5, 10), GroupMember::new(1, 7, 30)]);
    assert!(!d.remove_member(1, 6));
    assert_eq!(d.list_members(1).len(), 2);
}
