use groupchat_core::broker::ChatChannelMessages;
use groupchat_core::domain::{ChatError, Group, User};
use groupchat_core::history::ChatSender;
use groupchat_core::join_code::JoinCode;
use groupchat_core::presence::Role;
use groupchat_core::service::ChatService;

fn user(id: u128, name: &str) -> User {
    User { id, username: name.to_string() }
}

fn group(id: u128, code: &str) -> Group {
    Group {
        id,
        name: format!("group {id}"),
        avatar: None,
        created_at: 1_000,
        join_code: code.to_string(),
    }
}

fn gid(id: u128) -> String {
    uuid::Uuid::from_u128(id).to_string()
}

fn setup() -> (ChatService, User, User, User) {
    let mut s = ChatService::new(64);
    let a = user(1, "A");
    let b = user(2, "B");
    let c = user(3, "C");
    s.add_user(a.clone()).unwrap();
    s.add_user(b.clone()).unwrap();
    s.add_user(c.clone()).unwrap();
    s.create_group_at(Some(&a), group(10, "gggggggg")).unwrap();
    s.create_group_at(Some(&c), group(20, "hhhhhhhh")).unwrap();
    s.join_group(Some(&b), &JoinCode::try_from("gggggggg".to_string()).unwrap()).unwrap();
    (s, a, b, c)
}

#[test]
fn publish_reaches_members_only_of_that_group() {
    let (mut s, a, b, c) = setup();
    let hb = s.subscribe(Some(&b), 10).unwrap();
    let hc = s.subscribe(Some(&c), 20).unwrap();
    s.publish_message(Some(&a), &gid(10), "hi".to_string()).unwrap();
    let got = s.take_events(hb);
    assert_eq!(got.len(), 1);
    match &got[0] {
        ChatChannelMessages::NewMessage(m) => {
            assert_eq!(m.text, "hi");
            assert_eq!(m.username, "A");
        }
    }
    assert!(s.take_events(hc).is_empty());
}

#[test]
fn non_member_is_unauthorized_and_nothing_changes() {
    let (mut s, a, _b, c) = setup();
    let hc = s.subscribe(Some(&c), 20).unwrap();
    assert_eq!(s.publish_message(Some(&a), &gid(20), "x".to_string()), Err(ChatError::Unauthorized));
    assert!(s.take_events(hc).is_empty());
    let page = s.fetch_messages(Some(&c), &gid(20), 0, 10).unwrap();
    assert!(page.is_empty());
}

#[test]
fn signed_out_caller_is_unauthorized() {
    let (mut s, _a, _b, _c) = setup();
    assert_eq!(s.publish_message(None, &gid(10), "x".to_string()), Err(ChatError::Unauthorized));
    assert!(matches!(s.fetch_messages(None, &gid(10), 0, 10), Err(ChatError::Unauthorized)));
}

#[test]
fn malformed_group_id_and_empty_content_are_invalid() {
    let (mut s, a, _b, _c) = setup();
    assert_eq!(s.publish_message(Some(&a), "not-a-uuid", "x".to_string()), Err(ChatError::InvalidInput));
    assert_eq!(s.publish_message(Some(&a), &gid(10), String::new()), Err(ChatError::InvalidInput));
    assert!(matches!(s.fetch_messages(Some(&a), "", 0, 10), Err(ChatError::InvalidInput)));
}

#[test]
fn publish_order_is_kept_for_each_subscriber() {
    let (mut s, a, b, _c) = setup();
    let ha = s.subscribe(Some(&a), 10).unwrap();
    let hb = s.subscribe(Some(&b), 10).unwrap();
    for i in 0..5 {
        s.publish_message_at(Some(&a), Some(10), format!("m{i}"), 100 + i as u128, 5_000 + i as i64).unwrap();
    }
    for h in [ha, hb] {
        let texts: Vec<String> = s
            .take_events(h)
            .into_iter()
            .map(|e| match e {
                ChatChannelMessages::NewMessage(m) => m.text,
            })
            .collect();
        assert_eq!(texts, vec!["m0", "m1", "m2", "m3", "m4"]);
    }
}

#[test]
fn full_outbox_drops_for_that_subscriber_only() {
    let mut s = ChatService::new(2);
    let a = user(1, "A");
    s.add_user(a.clone()).unwrap();
    s.create_group_at(Some(&a), group(10, "gggggggg")).unwrap();
    let slow = s.subscribe(Some(&a), 10).unwrap();
    let fast = s.subscribe(Some(&a), 10).unwrap();
    for i in 0..3u128 {
        s.publish_message_at(Some(&a), Some(10), format!("m{i}"), 100 + i, 10).unwrap();
        if i < 2 {
            assert_eq!(s.take_events(fast).len(), 1);
        }
    }
    assert_eq!(s.take_events(fast).len(), 1);
    assert_eq!(s.take_events(slow).len(), 2);
}

#[test]
fn unsubscribe_is_idempotent_and_stops_delivery() {
    let (mut s, a, b, _c) = setup();
    let hb = s.subscribe(Some(&b), 10).unwrap();
    assert!(s.unsubscribe(hb));
    assert!(!s.unsubscribe(hb));
    s.publish_message(Some(&a), &gid(10), "late".to_string()).unwrap();
    assert!(s.take_events(hb).is_empty());
}

#[test]
fn subscribe_requires_membership() {
    let (mut s, a, _b, _c) = setup();
    assert_eq!(s.subscribe(Some(&a), 20), Err(ChatError::Unauthorized));
    assert_eq!(s.subscribe(None, 10), Err(ChatError::Unauthorized));
}

#[test]
fn fetch_shows_sender_as_sent_or_received() {
    let (mut s, a, b, _c) = setup();
    s.publish_message_at(Some(&a), Some(10), "one".to_string(), 100, 1).unwrap();
    s.publish_message_at(Some(&b), Some(10), "two".to_string(), 101, 2).unwrap();
    let page = s.fetch_messages_at(Some(&a), Some(10), 0, 10).unwrap();
    assert_eq!(page.len(), 2);
    assert_eq!(page[0].text, "two");
    assert!(matches!(&page[0].sender, ChatSender::Received(n) if n == "B"));
    assert_eq!(page[1].text, "one");
    assert!(matches!(page[1].sender, ChatSender::Sent));
}

#[test]
fn fetch_with_unknown_author_is_not_found() {
    let mut s = ChatService::new(8);
    let a = user(1, "A");
    s.create_group_at(Some(&a), group(10, "gggggggg")).unwrap();
    s.publish_message_at(Some(&a), Some(10), "x".to_string(), 100, 1).unwrap();
    assert!(matches!(s.fetch_messages_at(Some(&a), Some(10), 0, 10), Err(ChatError::NotFound)));
}

#[test]
fn stored_times_never_go_back_within_a_group() {
    let (mut s, a, _b, _c) = setup();
    s.publish_message_at(Some(&a), Some(10), "late".to_string(), 100, 9_000).unwrap();
    s.publish_message_at(Some(&a), Some(10), "early".to_string(), 101, 3_000).unwrap();
    let page = s.fetch_messages_at(Some(&a), Some(10), 0, 10).unwrap();
    assert_eq!(page[0].text, "early");
    assert_eq!(page[0].time, 9_000);
    assert_eq!(page[1].time, 9_000);
}

#[test]
fn duplicate_message_id_is_a_conflict() {
    let (mut s, a, _b, _c) = setup();
    s.publish_message_at(Some(&a), Some(10), "x".to_string(), 100, 1).unwrap();
    assert_eq!(
        s.publish_message_at(Some(&a), Some(10), "y".to_string(), 100, 2),
        Err(ChatError::Conflict)
    );
}

#[test]
fn join_group_outcomes() {
    let (mut s, a, b, c) = setup();
    let code = JoinCode::try_from("hhhhhhhh".to_string()).unwrap();
    assert_eq!(s.join_group(Some(&a), &code), Ok(20));
    assert!(s.is_member(20, a.id));
    assert_eq!(s.join_group(Some(&c), &code), Err(ChatError::AlreadyMember));
    let unknown = JoinCode::try_from("zzzzzzzz".to_string()).unwrap();
    assert_eq!(s.join_group(Some(&b), &unknown), Err(ChatError::NotFound));
    assert_eq!(s.join_group(None, &code), Err(ChatError::Unauthorized));
}

#[test]
fn create_group_joins_creator_with_fresh_code() {
    let (mut s, a, _b, _c) = setup();
    let id = s.create_group(Some(&a), "new".to_string(), "pic.png".to_string()).unwrap();
    assert!(s.is_member(id, a.id));
    let groups = s.get_groups(Some(&a)).unwrap();
    let g = groups.iter().find(|g| g.id == id).unwrap();
    assert_eq!(g.name, "new");
    assert_eq!(g.avatar_url, "pic.png");
    assert_eq!(g.last_message, "No messages yet");
    assert_eq!(g.join_code.chars().count(), 8);
    assert_eq!(s.create_group(None, "x".to_string(), "y".to_string()), Err(ChatError::Unauthorized));
}

#[test]
fn group_ids_and_codes_must_be_free() {
    let (mut s, a, _b, _c) = setup();
    assert_eq!(s.create_group_at(Some(&a), group(10, "kkkkkkkk")), Err(ChatError::Conflict));
    assert_eq!(s.create_group_at(Some(&a), group(30, "gggggggg")), Err(ChatError::Conflict));
    assert_eq!(s.create_group_at(Some(&a), group(30, "kkkkkkkk")), Ok(30));
}

#[test]
fn group_list_shows_newest_message_and_default_avatar() {
    let (mut s, a, b, _c) = setup();
    s.publish_message_at(Some(&a), Some(10), "first".to_string(), 100, 1).unwrap();
    s.publish_message_at(Some(&b), Some(10), "second".to_string(), 101, 2).unwrap();
    let groups = s.get_groups(Some(&b)).unwrap();
    assert_eq!(groups.len(), 1);
    assert_eq!(groups[0].id, 10);
    assert_eq!(groups[0].last_message, "second");
    assert_eq!(groups[0].avatar_url, "https://api.dicebear.com/9.x/glass/svg");
    assert_eq!(groups[0].join_code, "gggggggg");
    assert!(s.get_groups(None).is_err());
}

#[test]
fn presence_through_the_service_needs_membership() {
    let (mut s, a, b, _c) = setup();
    s.heartbeat_at(Some(&a), 10, Role::Writer, 1_000).unwrap();
    s.heartbeat_at(Some(&b), 10, Role::Reader, 1_000).unwrap();
    assert_eq!(s.heartbeat_at(Some(&a), 20, Role::Reader, 1_000), Err(ChatError::Unauthorized));
    let writers = s.active_at(Some(&b), 10, Role::Writer, 2_000).unwrap();
    assert_eq!(writers.len(), 1);
    assert_eq!(writers[0].name, "A");
    assert_eq!(s.active_at(Some(&a), 20, Role::Reader, 2_000).err(), Some(ChatError::Unauthorized));
    assert!(s.heartbeat(Some(&b), 10, Role::Writer).is_ok());
}

#[test]
fn scenario_hi_reaches_b_before_unrelated_group() {
    let (mut s, a, b, c) = setup();
    let hb = s.subscribe(Some(&b), 10).unwrap();
    let hc = s.subscribe(Some(&c), 20).unwrap();
    s.publish_message(Some(&a), &gid(10), "hi".to_string()).unwrap();
    assert!(s.take_events(hc).is_empty());
    match &s.take_events(hb)[0] {
        ChatChannelMessages::NewMessage(m) => {
            assert_eq!(m.text, "hi");
            assert_eq!(m.username, "A");
        }
    }
    assert_eq!(s.publish_message(Some(&a), &gid(20), "x".to_string()), Err(ChatError::Unauthorized));
}

#[test]
fn fetch_by_text_with_unknown_author_is_not_found() {
    let mut s = ChatService::new(8);
    let a = user(1, "A");
    s.create_group_at(Some(&a), group(10, "gggggggg")).unwrap();
    s.publish_message(Some(&a), &gid(10), "x".to_string()).unwrap();
    assert!(matches!(s.fetch_messages(Some(&a), &gid(10), 0, 10), Err(ChatError::NotFound)));
}

#[test]
fn first_message_in_empty_store_is_published() {
    let mut s = ChatService::new(8);
    let a = user(1, "A");
    s.add_user(a.clone()).unwrap();
    s.create_group_at(Some(&a), group(10, "gggggggg")).unwrap();
    assert_eq!(s.publish_message(Some(&a), &gid(10), "first".to_string()), Ok(()));
    assert_eq!(s.fetch_messages(Some(&a), &gid(10), 0, 10).unwrap()[0].text, "first");
}
