use groupchat_core::broker::SentChatMessage;
use groupchat_core::domain::Message;
use groupchat_core::history::{classify_sender, from_live, ChatMessage, ChatSender, Conversation};
use groupchat_core::store::MessageRepository;
use std::collections::HashSet;

fn msg(id: u128, time: i64) -> ChatMessage {
    ChatMessage { id, text: format!("m{id}"), time, sender: ChatSender::Sent }
}

fn stored(id: u128, group_id: u128, time: i64) -> Message {
    Message { id, group_id, user_id: 1, content: format!("c{id}"), created_at: time }
}

#[test]
fn initial_live_and_backfill_merge_into_six_unique_ids() {
    let mut c = Conversation::new(3);
    // newest first, as the store serves pages
    c.apply_initial(vec![msg(5, 50), msg(4, 40), msg(3, 30)]);
    assert_eq!(c.offset(), 3);
    assert!(c.push_live(msg(6, 60)));
    assert_eq!(c.offset(), 4);
    c.prepend_page(vec![msg(2, 20), msg(1, 10)]);
    let ids: Vec<u128> = c.messages().iter().map(|m| m.id).collect();
    assert_eq!(ids, vec![1, 2, 3, 4, 5, 6]);
    let times: Vec<i64> = c.messages().iter().map(|m| m.time).collect();
    assert!(times.windows(2).all(|w| w[0] <= w[1]));
    let unique: HashSet<u128> = ids.iter().cloned().collect();
    assert_eq!(unique.len(), 6);
    assert!(c.is_exhausted());
    assert_eq!(c.offset(), 6);
}

#[test]
fn duplicates_from_any_source_are_dropped() {
    let mut c = Conversation::new(2);
    c.apply_initial(vec![msg(2, 20), msg(1, 10)]);
    assert!(!c.push_live(msg(2, 20)));
    assert_eq!(c.offset(), 2);
    c.prepend_page(vec![msg(1, 10), msg(0, 5)]);
    let ids: Vec<u128> = c.messages().iter().map(|m| m.id).collect();
    assert_eq!(ids, vec![0, 1, 2]);
    assert_eq!(c.offset(), 4);
    assert!(!c.is_exhausted());
}

#[test]
fn empty_page_exhausts_history() {
    let mut c = Conversation::new(40);
    c.apply_initial(Vec::new());
    assert!(c.is_exhausted());
    assert_eq!(c.offset(), 0);
    assert!(c.messages().is_empty());
}

#[test]
fn live_message_sender_is_seen_by_name() {
    let live = SentChatMessage { id: 9, text: "hi".to_string(), time: 7, username: "A".to_string() };
    let me = "A".to_string();
    let other = "B".to_string();
    assert!(matches!(from_live(&live, Some(&me)).sender, ChatSender::Sent));
    assert!(matches!(&from_live(&live, Some(&other)).sender, ChatSender::Received(n) if n == "A"));
    assert!(matches!(from_live(&live, None).sender, ChatSender::Received(_)));
    assert_eq!(from_live(&live, None).id, 9);
    assert!(matches!(classify_sender(&me, Some(&me)), ChatSender::Sent));
}

fn store_with(k: u128) -> MessageRepository {
    let mut s = MessageRepository::new();
    for i in 0..k {
        s.create(stored(i, 7, i as i64)).unwrap();
        s.create(stored(1_000 + i, 8, i as i64)).unwrap();
    }
    s
}

#[test]
fn pages_advance_without_repeats_and_end_short() {
    let s = store_with(10);
    let mut seen = HashSet::new();
    let mut offset = 0usize;
    let limit = 4usize;
    loop {
        let page = s.get_by_group_paginated(7, offset, limit);
        for m in &page {
            assert_eq!(m.group_id, 7);
            assert!(seen.insert(m.id));
        }
        offset += page.len();
        if page.len() < limit {
            assert_eq!(offset, 10);
            break;
        }
    }
    assert_eq!(seen.len(), 10);
}

#[test]
fn page_is_newest_first() {
    let s = store_with(5);
    let ids: Vec<u128> = s.get_by_group_paginated(7, 1, 2).iter().map(|m| m.id).collect();
    assert_eq!(ids, vec![3, 2]);
    assert!(s.get_by_group_paginated(7, 9, 2).is_empty());
    assert!(s.get_by_group_paginated(7, 0, 0).is_empty());
}

#[test]
fn full_last_page_when_offset_plus_limit_is_total() {
    let s = store_with(4);
    assert_eq!(s.get_by_group_paginated(7, 0, 4).len(), 4);
    assert_eq!(s.get_by_group_paginated(7, 4, 4).len(), 0);
}

#[test]
fn store_lookups() {
    let mut s = store_with(3);
    assert_eq!(s.get_by_id(1_001).unwrap().content, "c1001");
    assert!(s.get_by_id(55).is_none());
    assert_eq!(s.get_by_group(8).len(), 3);
    assert_eq!(s.last_in_group(7).unwrap().id, 2);
    assert!(s.last_in_group(99).is_none());
    assert!(s.create(stored(2, 7, 0)).is_err());
    let (id, t) = s.create(stored(50, 7, -5)).unwrap();
    assert_eq!((id, t), (50, 2));
}

#[test]
fn messages_by_user_and_delete() {
    let mut s = MessageRepository::new();
    s.create(Message { id: 1, group_id: 7, user_id: 1, content: "a".to_string(), created_at: 0 }).unwrap();
    s.create(Message { id: 2, group_id: 8, user_id: 2, content: "b".to_string(), created_at: 0 }).unwrap();
    s.create(Message { id: 3, group_id: 8, user_id: 1, content: "c".to_string(), created_at: 1 }).unwrap();
    let ids: Vec<u128> = s.get_by_user(1).iter().map(|m| m.id).collect();
    assert_eq!(ids, vec![1, 3]);
    assert!(s.delete(3));
    assert!(!s.delete(3));
    assert!(s.get_by_id(3).is_none());
    assert_eq!(s.get_by_user(1).len(), 1);
}
