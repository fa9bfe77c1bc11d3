//! The chat core as clients use it: every request names its caller, is
//! authorized against group membership, and is then served from the group
//! directory, the message store and the broker.
use vstd::prelude::*;
use crate::broker::{
    Broker, BrokerView, ChatChannelMessages, SentChatMessage, is_ordered_subset, lemma_publish_order,
};
use crate::directory::{GroupRepository, GroupsView};
use crate::domain::{ChatError, Group, Message, User, JOIN_CODE_LEN, is_generated_code};
use crate::history::{ChatMessage, from_stored, sender_seen};
use crate::join_code::JoinCode;
use crate::presence::{
    PresenceRegistry, PresenceView, Person, Role, board_of, boards_wf, empty_presence,
};
use crate::outside::{new_uuid, now_millis, parse_uuid, random_code, uuid_parsed};
use crate::store::{MessageRepository, ids_unique, times_ordered, latest_time, newest_first, page_of};

verus! {

/// How many join codes are drawn when a group is made; a code that some
/// group already has is passed over for the next.
pub const JOIN_CODE_ATTEMPTS: usize = 16;

/// What the service is: its users, groups, stored messages and live
/// channels.
pub struct ServiceView {
    pub users: Seq<User>,
    pub groups: GroupsView,
    pub messages: Seq<Message>,
    pub broker: BrokerView,
    pub presence: Seq<(u128, PresenceView)>,
}

/// Whether user `id` is known.
pub open spec fn has_user(users: Seq<User>, id: u128) -> bool {
    exists|i: int| 0 <= i < users.len() && (#[trigger] users[i]).id == id
}

/// The name of user `id`, where it is known.
pub open spec fn name_of(users: Seq<User>, id: u128) -> String {
    users[choose|i: int| 0 <= i < users.len() && (#[trigger] users[i]).id == id].username
}

/// A stored message as `viewer` sees it.
pub open spec fn seen_as(m: Message, users: Seq<User>, viewer: User) -> ChatMessage {
    ChatMessage {
        id: m.id,
        text: m.content,
        time: m.created_at,
        sender: sender_seen(name_of(users, m.user_id), Some(viewer.username)),
    }
}

/// The live event that broadcasts `content`, posted by `user` to group `g`
/// as message `id` dated `now` when the service was `prev`.
pub open spec fn posted_event(
    prev: ServiceView,
    user: User,
    g: u128,
    content: String,
    id: u128,
    now: i64,
) -> ChatChannelMessages {
    ChatChannelMessages::NewMessage(
        SentChatMessage {
            id,
            text: content,
            time: latest_time(prev.messages, g, now),
            username: user.username,
        },
    )
}

/// `next` is `prev` after `user` posted `content` to group `g` as message
/// `id` dated `now`: the message is stored, with its time raised to that of
/// the group's newest message where needed, and then broadcast to the
/// group.
pub open spec fn posted(
    prev: ServiceView,
    next: ServiceView,
    user: User,
    g: u128,
    content: String,
    id: u128,
    now: i64,
) -> bool {
    let t = latest_time(prev.messages, g, now);
    &&& next.users == prev.users
    &&& next.groups == prev.groups
    &&& next.presence == prev.presence
    &&& next.messages == prev.messages.push(
        Message { id, group_id: g, user_id: user.id, content, created_at: t },
    )
    &&& prev.broker.published(next.broker, g, posted_event(prev, user, g, content, id, now))
}

/// Posting messages to group `g` one after another, through the service
/// states `states`, keeps every subscription that was open at the start in
/// its place, and leaves it with its earlier events followed by some of the
/// posted events in the order they were posted: never reordered, though a
/// subscriber whose outbox is full misses some.
pub proof fn lemma_posts_in_order(
    states: Seq<ServiceView>,
    g: u128,
    users: Seq<User>,
    contents: Seq<String>,
    ids: Seq<u128>,
    nows: Seq<i64>,
    i: int,
)
    requires
        states.len() == contents.len() + 1,
        users.len() == contents.len(),
        ids.len() == contents.len(),
        nows.len() == contents.len(),
        forall|k: int|
            0 <= k < contents.len() ==> #[trigger] posted(
                states[k],
                states[k + 1],
                users[k],
                g,
                contents[k],
                ids[k],
                nows[k],
            ),
        0 <= i < states[0].broker.subs.len(),
    ensures
        states.last().broker.subs.len() == states[0].broker.subs.len(),
        states.last().broker.subs[i].handle == states[0].broker.subs[i].handle,
        states.last().broker.subs[i].group_id == states[0].broker.subs[i].group_id,
        exists|s: Seq<ChatChannelMessages>|
            is_ordered_subset(
                s,
                Seq::new(
                    contents.len(),
                    |k: int| posted_event(states[k], users[k], g, contents[k], ids[k], nows[k]),
                ),
            ) && states.last().broker.subs[i].outbox == states[0].broker.subs[i].outbox + s,
{
    let n = contents.len();
    let bs = Seq::new(states.len(), |k: int| states[k].broker);
    let evs = Seq::new(
        n,
        |k: int| posted_event(states[k], users[k], g, contents[k], ids[k], nows[k]),
    );
    assert forall|k: int| 0 <= k < evs.len() implies #[trigger] bs[k].published(
        bs[k + 1],
        g,
        evs[k],
    ) by {
        assert(posted(states[k], states[k + 1], users[k], g, contents[k], ids[k], nows[k]));
    }
    lemma_publish_order(bs, g, evs, i);
    assert(bs.last() == states.last().broker);
}

/// The newest message of group `g` in `s`, if it has any.
pub open spec fn newest_of(s: Seq<Message>, g: u128) -> Option<Message> {
    if newest_first(s, g).len() > 0 {
        Some(newest_first(s, g)[0])
    } else {
        None
    }
}

/// The chat core of one process.
pub struct ChatService {
    users: Vec<User>,
    groups: GroupRepository,
    messages: MessageRepository,
    broker: Broker,
    presence: PresenceRegistry,
}

impl View for ChatService {
    type V = ServiceView;

    closed spec fn view(&self) -> ServiceView {
        ServiceView {
            users: self.users@,
            groups: self.groups@,
            messages: self.messages@,
            broker: self.broker@,
            presence: self.presence@,
        }
    }
}

impl ServiceView {
    pub open spec fn wf(self) -> bool {
        &&& forall|i: int, j: int|
            0 <= i < j < self.users.len() ==> self.users[i].id != self.users[j].id
        &&& self.groups.wf()
        &&& ids_unique(self.messages)
        &&& times_ordered(self.messages)
        &&& self.broker.wf()
        &&& boards_wf(self.presence)
    }
}

impl ChatService {
    proof fn lemma_view(&self)
        ensures
            self@.messages == self.messages@,
            self@.groups == self.groups@,
            self@.broker == self.broker@,
            self@.users == self.users@,
            self@.presence == self.presence@,
            self.messages.wf() == (ids_unique(self@.messages) && times_ordered(self@.messages)),
    {
    }

    /// A service without users, groups or messages, whose live outboxes
    /// hold up to `capacity` events each.
    pub fn new(capacity: usize) -> (r: ChatService)
        ensures
            r@.wf(),
            r@.users.len() == 0,
            r@.groups.groups.len() == 0,
            r@.groups.members.len() == 0,
            r@.messages.len() == 0,
            r@.broker.subs.len() == 0,
            r@.broker.next_handle == 0,
            r@.broker.capacity == capacity,
            forall|g: u128| board_of(r@.presence, g) == empty_presence(),
    {
        ChatService {
            users: Vec::new(),
            groups: GroupRepository::new(),
            messages: MessageRepository::new(),
            broker: Broker::new(capacity),
            presence: PresenceRegistry::new(),
        }
    }

    /// Makes `user` known, so that its name shows on its messages. A user
    /// whose identifier is taken is refused.
    pub fn add_user(&mut self, user: User) -> (r: Result<(), ChatError>)
        requires
            old(self)@.wf(),
        ensures
            final(self)@.wf(),
            r is Err <==> has_user(old(self)@.users, user.id),
            r is Err ==> r == Err::<(), ChatError>(ChatError::Conflict) && final(self)@
                == old(self)@,
            r is Ok ==> final(self)@ == (ServiceView {
                users: old(self)@.users.push(user),
                ..old(self)@
            }),
    {
        let mut i: usize = 0;
        while i < self.users.len()
            invariant
                i <= self.users.len(),
                self@ == old(self)@,
                old(self)@.wf(),
                forall|k: int| 0 <= k < i ==> self.users@[k].id != user.id,
            decreases self.users.len() - i,
        {
            if self.users[i].id == user.id {
                assert(self@.users[i as int].id == user.id);
                return Err(ChatError::Conflict);
            }
            i = i + 1;
        }
        self.users.push(user);
        proof {
            assert forall|a: int, b: int| 0 <= a < b < self@.users.len() implies self@.users[a].id
                != self@.users[b].id by {
                if b == self@.users.len() - 1 {
                    assert(self@.users[a] == old(self)@.users[a]);
                }
            }
        }
        Ok(())
    }

    /// The name of user `id`, if it is known.
    fn username_of(&self, id: u128) -> (r: Option<String>)
        requires
            self@.wf(),
        ensures
            r is None <==> !has_user(self@.users, id),
            r matches Some(n) ==> n == name_of(self@.users, id),
    {
        let mut i: usize = 0;
        while i < self.users.len()
            invariant
                i <= self.users.len(),
                self@.wf(),
                forall|k: int| 0 <= k < i ==> self.users@[k].id != id,
            decreases self.users.len() - i,
        {
            if self.users[i].id == id {
                proof {
                    assert(self@.users[i as int].id == id);
                    let c = choose|c: int| 0 <= c < self@.users.len() && (#[trigger] self@.users[c]).id == id;
                    assert(c == i);
                }
                return Some(self.users[i].username.clone());
            }
            i = i + 1;
        }
        None
    }

    /// Whether user `user_id` belongs to group `group_id`.
    pub fn is_member(&self, group_id: u128, user_id: u128) -> (r: bool)
        ensures
            r == self@.groups.is_member(group_id, user_id),
    {
        self.groups.is_member(group_id, user_id)
    }

    /// Posts `content` as message `message_id` of the caller in group
    /// `group_id` at time `now`: a caller who is not signed in or not a member
    /// is refused, as are a missing group identifier and empty content.
    /// Otherwise the message is stored and then broadcast to the group.
    pub fn publish_message_at(
        &mut self,
        caller: Option<&User>,
        group_id: Option<u128>,
        content: String,
        message_id: u128,
        now: i64,
    ) -> (r: Result<(), ChatError>)
        requires
            old(self)@.wf(),
        ensures
            final(self)@.wf(),
            r is Err ==> final(self)@ == old(self)@,
            caller is None ==> r == Err::<(), ChatError>(ChatError::Unauthorized),
            caller is Some && group_id is None ==> r == Err::<(), ChatError>(
                ChatError::InvalidInput,
            ),
            caller matches Some(u) ==> (group_id matches Some(g) ==> {
                &&& !old(self)@.groups.is_member(g, u.id) ==> r == Err::<(), ChatError>(
                    ChatError::Unauthorized,
                )
                &&& old(self)@.groups.is_member(g, u.id) && content@.len() == 0 ==> r == Err::<
                    (),
                    ChatError,
                >(ChatError::InvalidInput)
                &&& old(self)@.groups.is_member(g, u.id) && content@.len() > 0 ==> {
                    &&& crate::store::has_id(old(self)@.messages, message_id) ==> r == Err::<
                        (),
                        ChatError,
                    >(ChatError::Conflict)
                    &&& !crate::store::has_id(old(self)@.messages, message_id) ==> r is Ok
                }
                &&& r is Ok ==> posted(old(self)@, final(self)@, *u, g, content, message_id, now)
            }),
    {
        proof {
            self.lemma_view();
        }
        let user = match caller {
            None => return Err(ChatError::Unauthorized),
            Some(u) => u,
        };
        let g = match group_id {
            None => return Err(ChatError::InvalidInput),
            Some(g) => g,
        };
        if !self.groups.is_member(g, user.id) {
            return Err(ChatError::Unauthorized);
        }
        if content.as_str().is_empty() {
            return Err(ChatError::InvalidInput);
        }
        let text = content.clone();
        let message = Message { id: message_id, group_id: g, user_id: user.id, content, created_at: now };
        let (id, t) = match self.messages.create(message) {
            Err(e) => return Err(e),
            Ok(p) => p,
        };
        let event = ChatChannelMessages::NewMessage(
            SentChatMessage { id, text, time: t, username: user.username.clone() },
        );
        self.broker.publish(g, event);
        Ok(())
    }

    /// Posts `content` in the group that `group_id` names, as a new message
    /// of the caller with a fresh identifier and the current time; see
    /// `publish_message_at` for when it is refused.
    pub fn publish_message(&mut self, caller: Option<&User>, group_id: &str, content: String) -> (r:
        Result<(), ChatError>)
        requires
            old(self)@.wf(),
        ensures
            final(self)@.wf(),
            r is Err ==> final(self)@ == old(self)@,
            caller is None ==> r == Err::<(), ChatError>(ChatError::Unauthorized),
            caller is Some && uuid_parsed(group_id@) is None ==> r == Err::<(), ChatError>(
                ChatError::InvalidInput,
            ),
            caller matches Some(u) ==> (uuid_parsed(group_id@) matches Some(g) ==> {
                &&& !old(self)@.groups.is_member(g, u.id) ==> r == Err::<(), ChatError>(
                    ChatError::Unauthorized,
                )
                &&& old(self)@.groups.is_member(g, u.id) && content@.len() == 0 ==> r == Err::<
                    (),
                    ChatError,
                >(ChatError::InvalidInput)
                &&& old(self)@.groups.is_member(g, u.id) && content@.len() > 0 ==> (r is Ok || r
                    == Err::<(), ChatError>(ChatError::Conflict))
                &&& r is Ok ==> exists|id: u128, now: i64|
                    posted(old(self)@, final(self)@, *u, g, content, id, now)
            }),
            r == Err::<(), ChatError>(ChatError::Conflict) ==> old(self)@.messages.len() > 0,
    {
        let parsed = parse_uuid(group_id);
        let id = new_uuid();
        let now = now_millis();
        self.publish_message_at(caller, parsed, content, id, now)
    }

    /// A page of group `group_id`'s history as the caller sees it, newest
    /// first: it skips the `offset` newest messages and holds up to `limit`
    /// of the next. A caller who is not signed in or not a member is
    /// refused, as is a missing group identifier; a message whose author is
    /// unknown makes the page fail as not found.
    pub fn fetch_messages_at(
        &self,
        caller: Option<&User>,
        group_id: Option<u128>,
        offset: usize,
        limit: usize,
    ) -> (r: Result<Vec<ChatMessage>, ChatError>)
        requires
            self@.wf(),
        ensures
            caller is None ==> r == Err::<Vec<ChatMessage>, ChatError>(ChatError::Unauthorized),
            caller is Some && group_id is None ==> r == Err::<Vec<ChatMessage>, ChatError>(
                ChatError::InvalidInput,
            ),
            caller matches Some(u) ==> (group_id matches Some(g) ==> {
                let page = page_of(self@.messages, g, offset as nat, limit as nat);
                &&& !self@.groups.is_member(g, u.id) ==> r == Err::<Vec<ChatMessage>, ChatError>(
                    ChatError::Unauthorized,
                )
                &&& self@.groups.is_member(g, u.id) && (exists|i: int|
                    0 <= i < page.len() && !has_user(self@.users, #[trigger] page[i].user_id))
                    ==> r == Err::<Vec<ChatMessage>, ChatError>(ChatError::NotFound)
                &&& self@.groups.is_member(g, u.id) && (forall|i: int|
                    0 <= i < page.len() ==> has_user(self@.users, #[trigger] page[i].user_id))
                    ==> (r matches Ok(v) && v@ == page.map_values(
                    |m: Message| seen_as(m, self@.users, *u),
                ))
            }),
    {
        proof {
            self.lemma_view();
        }
        let user = match caller {
            None => return Err(ChatError::Unauthorized),
            Some(u) => u,
        };
        let g = match group_id {
            None => return Err(ChatError::InvalidInput),
            Some(g) => g,
        };
        if !self.groups.is_member(g, user.id) {
            return Err(ChatError::Unauthorized);
        }
        let page = self.messages.get_by_group_paginated(g, offset, limit);
        let ghost users = self@.users;
        let mut out: Vec<ChatMessage> = Vec::new();
        let mut i: usize = 0;
        while i < page.len()
            invariant
                i <= page.len(),
                users == self@.users,
                caller == Some(user),
                group_id == Some(g),
                self@.groups.is_member(g, user.id),
                page@ == page_of(self@.messages, g, offset as nat, limit as nat),
                self@.wf(),
                forall|k: int| 0 <= k < i ==> has_user(users, #[trigger] page@[k].user_id),
                out@ == page@.subrange(0, i as int).map_values(|m: Message| seen_as(m, users, *user)),
            decreases page.len() - i,
        {
            let name = match self.username_of(page[i].user_id) {
                None => return Err(ChatError::NotFound),
                Some(n) => n,
            };
            let cm = from_stored(&page[i], &name, &user.username);
            out.push(cm);
            assert(page@.subrange(0, i + 1).map_values(|m: Message| seen_as(m, users, *user))
                =~= page@.subrange(0, i as int).map_values(|m: Message| seen_as(m, users, *user)).push(
                seen_as(page@[i as int], users, *user),
            ));
            i = i + 1;
        }
        assert(page@.subrange(0, page@.len() as int) =~= page@);
        Ok(out)
    }

    /// As `fetch_messages_at`, for the group that `group_id` names.
    pub fn fetch_messages(&self, caller: Option<&User>, group_id: &str, offset: usize, limit: usize) -> (r:
        Result<Vec<ChatMessage>, ChatError>)
        requires
            self@.wf(),
        ensures
            caller is None ==> r == Err::<Vec<ChatMessage>, ChatError>(ChatError::Unauthorized),
            caller is Some && uuid_parsed(group_id@) is None ==> r == Err::<
                Vec<ChatMessage>,
                ChatError,
            >(ChatError::InvalidInput),
            caller matches Some(u) ==> (uuid_parsed(group_id@) matches Some(g) ==> {
                let page = page_of(self@.messages, g, offset as nat, limit as nat);
                &&& !self@.groups.is_member(g, u.id) ==> r == Err::<Vec<ChatMessage>, ChatError>(
                    ChatError::Unauthorized,
                )
                &&& self@.groups.is_member(g, u.id) && (exists|i: int|
                    0 <= i < page.len() && !has_user(self@.users, #[trigger] page[i].user_id))
                    ==> r == Err::<Vec<ChatMessage>, ChatError>(ChatError::NotFound)
                &&& self@.groups.is_member(g, u.id) && (forall|i: int|
                    0 <= i < page.len() ==> has_user(self@.users, #[trigger] page[i].user_id))
                    ==> (r matches Ok(v) && v@ == page.map_values(
                    |m: Message| seen_as(m, self@.users, *u),
                ))
            }),
    {
        let parsed = parse_uuid(group_id);
        self.fetch_messages_at(caller, parsed, offset, limit)
    }
    /// Makes `group` with the caller as its first member, as of the group's
    /// creation time. A caller who is not signed in is refused, as is a group
    /// whose identifier or join code is taken.
    pub fn create_group_at(&mut self, caller: Option<&User>, group: Group) -> (r: Result<
        u128,
        ChatError,
    >)
        requires
            old(self)@.wf(),
        ensures
            final(self)@.wf(),
            r is Err ==> final(self)@ == old(self)@,
            caller is None ==> r == Err::<u128, ChatError>(ChatError::Unauthorized),
            caller matches Some(u) ==> {
                &&& (old(self)@.groups.has_group(group.id) || old(self)@.groups.code_taken(
                    group.join_code@,
                )) ==> r == Err::<u128, ChatError>(ChatError::Conflict)
                &&& !(old(self)@.groups.has_group(group.id) || old(self)@.groups.code_taken(
                    group.join_code@,
                )) ==> r == Ok::<u128, ChatError>(group.id)
                &&& r is Ok ==> final(self)@ == (ServiceView {
                    groups: GroupsView {
                        groups: old(self)@.groups.groups.push(group),
                        members: old(self)@.groups.members.push(
                            crate::domain::GroupMember {
                                group_id: group.id,
                                user_id: u.id,
                                joined_at: group.created_at,
                            },
                        ),
                    },
                    ..old(self)@
                })
            },
    {
        proof {
            self.lemma_view();
        }
        let user = match caller {
            None => return Err(ChatError::Unauthorized),
            Some(u) => u,
        };
        let created_at = group.created_at;
        let ghost gr = group;
        let id = match self.groups.create_group(group) {
            Err(e) => return Err(e),
            Ok(id) => id,
        };
        proof {
            assert(self@.groups.groups.last() == gr);
            assert(self@.groups.has_group(id));
            if self@.groups.is_member(id, user.id) {
                let k = choose|k: int|
                    0 <= k < self@.groups.members.len() && (#[trigger] self@.groups.members[k]).group_id == id
                        && self@.groups.members[k].user_id == user.id;
                assert(old(self)@.groups.has_group(old(self)@.groups.members[k].group_id));
            }
        }
        let _ = self.groups.add_member(id, user.id, created_at);
        Ok(id)
    }

    /// Makes a group named `name` with avatar `avatar`, a fresh identifier,
    /// the current time and a join code that no group has, with the caller as
    /// its first member. Of `JOIN_CODE_ATTEMPTS` random codes the first that
    /// is free is taken; if none is, or the identifier is taken, the group
    /// is refused as a conflict.
    pub fn create_group(&mut self, caller: Option<&User>, name: String, avatar: String) -> (r:
        Result<u128, ChatError>)
        requires
            old(self)@.wf(),
        ensures
            final(self)@.wf(),
            r is Err ==> final(self)@ == old(self)@,
            caller is None ==> r == Err::<u128, ChatError>(ChatError::Unauthorized),
            caller matches Some(u) ==> (r matches Ok(id) ==> {
                &&& !old(self)@.groups.has_group(id)
                &&& final(self)@.users == old(self)@.users
                &&& final(self)@.messages == old(self)@.messages
                &&& final(self)@.broker == old(self)@.broker
                &&& final(self)@.groups.groups.len() == old(self)@.groups.groups.len() + 1
                &&& final(self)@.groups.groups.drop_last() == old(self)@.groups.groups
                &&& final(self)@.groups.groups.last().id == id
                &&& final(self)@.groups.groups.last().name == name
                &&& final(self)@.groups.groups.last().avatar == Some(avatar)
                &&& is_generated_code(final(self)@.groups.groups.last().join_code@)
                &&& !old(self)@.groups.code_taken(final(self)@.groups.groups.last().join_code@)
                &&& final(self)@.groups.is_member(id, u.id)
            }),
            caller is Some ==> (r is Ok || r == Err::<u128, ChatError>(ChatError::Conflict)),
            r == Err::<u128, ChatError>(ChatError::Conflict) ==> old(self)@.groups.groups.len() > 0,
    {
        if caller.is_none() {
            return Err(ChatError::Unauthorized);
        }
        let mut group = Group::new_with_avatar(name, avatar);
        let mut candidates: Vec<String> = Vec::new();
        candidates.push(group.join_code.clone());
        let mut k: usize = 1;
        while k < JOIN_CODE_ATTEMPTS
            invariant
                1 <= k <= JOIN_CODE_ATTEMPTS,
                candidates@.len() == k,
                forall|i: int| 0 <= i < k ==> is_generated_code(#[trigger] candidates@[i]@),
            decreases JOIN_CODE_ATTEMPTS - k,
        {
            candidates.push(random_code(JOIN_CODE_LEN));
            k = k + 1;
        }
        match self.groups.choose_join_code(&candidates) {
            None => {
                proof {
                    self.lemma_view();
                    assert(self@.groups.code_taken(candidates@[0]@));
                }
                Err(ChatError::Conflict)
            },
            Some(i) => {
                group.join_code = candidates[i].clone();
                let ghost gr = group;
                let r = self.create_group_at(caller, group);
                proof {
                    if r == Err::<u128, ChatError>(ChatError::Conflict) {
                        if old(self)@.groups.has_group(gr.id) {
                            let k = choose|k: int| 0 <= k < old(self)@.groups.groups.len() && (#[trigger] old(self)@.groups.groups[k]).id == gr.id;
                        } else {
                            let k = choose|k: int| 0 <= k < old(self)@.groups.groups.len() && (#[trigger] old(self)@.groups.groups[k]).join_code@ == gr.join_code@;
                        }
                    }
                    if r is Ok {
                        let u = caller->0;
                        let m = crate::domain::GroupMember {
                            group_id: gr.id,
                            user_id: u.id,
                            joined_at: gr.created_at,
                        };
                        assert(self@.groups.members.last() == m);
                        assert(self@.groups.groups.drop_last() =~= old(self)@.groups.groups);
                    }
                }
                r
            },
        }
    }

    /// Makes the caller a member of the group whose join code is `code`, and
    /// returns the group's identifier. A caller who is not signed in is
    /// refused; an unknown code is not found; a member is refused as
    /// already one.
    pub fn join_group(&mut self, caller: Option<&User>, code: &JoinCode) -> (r: Result<
        u128,
        ChatError,
    >)
        requires
            old(self)@.wf(),
        ensures
            final(self)@.wf(),
            r is Err ==> final(self)@ == old(self)@,
            caller is None ==> r == Err::<u128, ChatError>(ChatError::Unauthorized),
            caller matches Some(u) ==> {
                &&& !old(self)@.groups.code_taken(code@) ==> r == Err::<u128, ChatError>(
                    ChatError::NotFound,
                )
                &&& old(self)@.groups.code_taken(code@) ==> (r is Ok || r == Err::<
                    u128,
                    ChatError,
                >(ChatError::AlreadyMember))
                &&& r == Err::<u128, ChatError>(ChatError::AlreadyMember) ==> exists|i: int|
                    0 <= i < old(self)@.groups.groups.len() && (#[trigger] old(self)@.groups.groups[i]).join_code@ == code@
                        && old(self)@.groups.is_member(old(self)@.groups.groups[i].id, u.id)
                &&& r matches Ok(g) ==> {
                    &&& exists|i: int|
                        0 <= i < old(self)@.groups.groups.len() && (#[trigger] old(self)@.groups.groups[i]).id == g
                            && old(self)@.groups.groups[i].join_code@ == code@
                    &&& !old(self)@.groups.is_member(g, u.id)
                    &&& final(self)@.users == old(self)@.users
                    &&& final(self)@.messages == old(self)@.messages
                    &&& final(self)@.broker == old(self)@.broker
                    &&& final(self)@.groups.groups == old(self)@.groups.groups
                    &&& final(self)@.groups.members.len() == old(self)@.groups.members.len() + 1
                    &&& final(self)@.groups.members.drop_last() == old(self)@.groups.members
                    &&& final(self)@.groups.members.last().group_id == g
                    &&& final(self)@.groups.members.last().user_id == u.id
                }
            },
    {
        proof {
            self.lemma_view();
        }
        let user = match caller {
            None => return Err(ChatError::Unauthorized),
            Some(u) => u,
        };
        let group = match self.groups.get_by_join_code(code.text()) {
            None => return Err(ChatError::NotFound),
            Some(gr) => gr,
        };
        let now = now_millis();
        match self.groups.add_member(group.id, user.id, now) {
            Err(e) => Err(e),
            Ok(()) => Ok(group.id),
        }
    }

    /// The groups of the caller, in the order they were made, each with the
    /// text of its newest message.
    pub fn get_groups(&self, caller: Option<&User>) -> (r: Result<Vec<crate::groups::Group>, ChatError>)
        requires
            self@.wf(),
        ensures
            caller is None ==> r == Err::<Vec<crate::groups::Group>, ChatError>(
                ChatError::Unauthorized,
            ),
            caller matches Some(u) ==> (r matches Ok(v) && {
                let mine = self@.groups.groups.filter(crate::directory::joined_by(self@.groups, u.id));
                &&& v@.len() == mine.len()
                &&& forall|i: int|
                    0 <= i < mine.len() ==> crate::groups::lists(
                        #[trigger] v@[i],
                        mine[i],
                        newest_of(self@.messages, mine[i].id),
                    )
            }),
    {
        proof {
            self.lemma_view();
        }
        let user = match caller {
            None => return Err(ChatError::Unauthorized),
            Some(u) => u,
        };
        let mine = self.groups.list_user_groups(user.id);
        let mut out: Vec<crate::groups::Group> = Vec::new();
        let mut i: usize = 0;
        while i < mine.len()
            invariant
                i <= mine.len(),
                out@.len() == i,
                forall|k: int|
                    0 <= k < i ==> crate::groups::lists(
                        #[trigger] out@[k],
                        mine@[k],
                        newest_of(self@.messages, mine@[k].id),
                    ),
            decreases mine.len() - i,
        {
            let gr = mine[i].clone();
            let last = self.messages.last_in_group(gr.id);
            out.push(crate::groups::to_listing(gr, last));
            i = i + 1;
        }
        Ok(out)
    }

    /// Opens a live channel subscription of the caller to group `group_id`.
    /// A caller who is not signed in or not a member is refused.
    pub fn subscribe(&mut self, caller: Option<&User>, group_id: u128) -> (r: Result<u64, ChatError>)
        requires
            old(self)@.wf(),
            old(self)@.broker.next_handle < u64::MAX,
        ensures
            final(self)@.wf(),
            r is Err ==> final(self)@ == old(self)@,
            caller is None ==> r == Err::<u64, ChatError>(ChatError::Unauthorized),
            caller matches Some(u) ==> {
                &&& !old(self)@.groups.is_member(group_id, u.id) ==> r == Err::<u64, ChatError>(
                    ChatError::Unauthorized,
                )
                &&& old(self)@.groups.is_member(group_id, u.id) ==> r == Ok::<u64, ChatError>(
                    old(self)@.broker.next_handle,
                ) && final(self)@ == (ServiceView {
                    broker: BrokerView {
                        subs: old(self)@.broker.subs.push(
                            crate::broker::SubscriptionView {
                                handle: old(self)@.broker.next_handle,
                                group_id,
                                outbox: Seq::empty(),
                            },
                        ),
                        next_handle: (old(self)@.broker.next_handle + 1) as u64,
                        capacity: old(self)@.broker.capacity,
                    },
                    ..old(self)@
                })
            },
    {
        proof {
            self.lemma_view();
        }
        let user = match caller {
            None => return Err(ChatError::Unauthorized),
            Some(u) => u,
        };
        if !self.groups.is_member(group_id, user.id) {
            return Err(ChatError::Unauthorized);
        }
        Ok(self.broker.subscribe(group_id))
    }

    /// Closes subscription `handle`; closing one that is not open changes
    /// nothing. Returns whether it was open.
    pub fn unsubscribe(&mut self, handle: u64) -> (r: bool)
        requires
            old(self)@.wf(),
        ensures
            final(self)@.wf(),
            r == old(self)@.broker.has_handle(handle),
            !final(self)@.broker.has_handle(handle),
            final(self)@.users == old(self)@.users,
            final(self)@.groups == old(self)@.groups,
            final(self)@.messages == old(self)@.messages,
            r ==> exists|i: int|
                0 <= i < old(self)@.broker.subs.len() && old(self)@.broker.subs[i].handle == handle
                    && final(self)@.broker.subs == old(self)@.broker.subs.remove(i),
            !r ==> final(self)@ == old(self)@,
    {
        proof {
            self.lemma_view();
        }
        self.broker.unsubscribe(handle)
    }

    /// Hands out the events waiting for subscription `handle`, oldest first.
    pub fn take_events(&mut self, handle: u64) -> (r: Vec<ChatChannelMessages>)
        requires
            old(self)@.wf(),
        ensures
            final(self)@.wf(),
            final(self)@.users == old(self)@.users,
            final(self)@.groups == old(self)@.groups,
            final(self)@.messages == old(self)@.messages,
            forall|i: int|
                0 <= i < old(self)@.broker.subs.len() && old(self)@.broker.subs[i].handle == handle
                    ==> {
                    &&& r@ == old(self)@.broker.subs[i].outbox
                    &&& final(self)@.broker.subs == old(self)@.broker.subs.update(
                        i,
                        crate::broker::SubscriptionView { outbox: Seq::empty(), ..old(self)@.broker.subs[i] },
                    )
                },
            !old(self)@.broker.has_handle(handle) ==> r@.len() == 0 && final(self)@ == old(self)@,
    {
        proof {
            self.lemma_view();
        }
        self.broker.take_events(handle)
    }
    /// Records that the caller is present in group `group_id` in `role` at
    /// time `now`. A caller who is not signed in or not a member is refused.
    pub fn heartbeat_at(&mut self, caller: Option<&User>, group_id: u128, role: Role, now: i64) -> (r:
        Result<(), ChatError>)
        requires
            old(self)@.wf(),
        ensures
            final(self)@.wf(),
            r is Err ==> final(self)@ == old(self)@,
            caller is None ==> r == Err::<(), ChatError>(ChatError::Unauthorized),
            caller matches Some(u) ==> {
                &&& !old(self)@.groups.is_member(group_id, u.id) ==> r == Err::<(), ChatError>(
                    ChatError::Unauthorized,
                )
                &&& old(self)@.groups.is_member(group_id, u.id) ==> r is Ok
                &&& r is Ok ==> {
                    &&& final(self)@.users == old(self)@.users
                    &&& final(self)@.groups == old(self)@.groups
                    &&& final(self)@.messages == old(self)@.messages
                    &&& final(self)@.broker == old(self)@.broker
                    &&& board_of(final(self)@.presence, group_id) == board_of(
                        old(self)@.presence,
                        group_id,
                    ).after_heartbeat(Person { name: u.username, last_activity: now }, role)
                    &&& forall|h: u128|
                        h != group_id ==> board_of(final(self)@.presence, h) == board_of(
                            old(self)@.presence,
                            h,
                        )
                }
            },
    {
        proof {
            self.lemma_view();
        }
        let user = match caller {
            None => return Err(ChatError::Unauthorized),
            Some(u) => u,
        };
        if !self.groups.is_member(group_id, user.id) {
            return Err(ChatError::Unauthorized);
        }
        self.presence.heartbeat(group_id, user.username.clone(), role, now);
        Ok(())
    }

    /// As `heartbeat_at`, at the current time.
    pub fn heartbeat(&mut self, caller: Option<&User>, group_id: u128, role: Role) -> (r: Result<
        (),
        ChatError,
    >)
        requires
            old(self)@.wf(),
        ensures
            final(self)@.wf(),
            r is Err ==> final(self)@ == old(self)@,
            caller is None ==> r == Err::<(), ChatError>(ChatError::Unauthorized),
            caller matches Some(u) ==> {
                &&& !old(self)@.groups.is_member(group_id, u.id) ==> r == Err::<(), ChatError>(
                    ChatError::Unauthorized,
                )
                &&& old(self)@.groups.is_member(group_id, u.id) ==> r is Ok
                &&& r is Ok ==> exists|now: i64|
                    board_of(final(self)@.presence, group_id) == #[trigger] board_of(
                        old(self)@.presence,
                        group_id,
                    ).after_heartbeat(Person { name: u.username, last_activity: now }, role)
            },
    {
        let now = now_millis();
        self.heartbeat_at(caller, group_id, role, now)
    }

    /// The entries of `role` in group `group_id` that are active at time
    /// `now`, for a member of the group. A caller who is not signed in or
    /// not a member is refused.
    pub fn active_at(&self, caller: Option<&User>, group_id: u128, role: Role, now: i64) -> (r:
        Result<Vec<Person>, ChatError>)
        requires
            self@.wf(),
        ensures
            caller is None ==> r == Err::<Vec<Person>, ChatError>(ChatError::Unauthorized),
            caller matches Some(u) ==> {
                &&& !self@.groups.is_member(group_id, u.id) ==> r == Err::<Vec<Person>, ChatError>(
                    ChatError::Unauthorized,
                )
                &&& self@.groups.is_member(group_id, u.id) ==> (r matches Ok(v) && v@ == board_of(
                    self@.presence,
                    group_id,
                ).active(role, now))
            },
    {
        proof {
            self.lemma_view();
        }
        let user = match caller {
            None => return Err(ChatError::Unauthorized),
            Some(u) => u,
        };
        if !self.groups.is_member(group_id, user.id) {
            return Err(ChatError::Unauthorized);
        }
        Ok(self.presence.active(group_id, role, now))
    }
}

} // verus!
