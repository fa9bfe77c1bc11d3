//! The records of the chat: groups, memberships and messages, with the
//! errors that the core reports.
use vstd::prelude::*;
use crate::outside::{is_code_char, new_uuid, now_millis, random_code};

verus! {

/// The length of a generated join code.
pub const JOIN_CODE_LEN: usize = 8;

/// Why a request of the core was refused.
#[derive(Clone, Copy, Debug, PartialEq, Eq, Structural)]
pub enum ChatError {
    /// The caller is not signed in, or not a member of the group.
    Unauthorized,
    /// No group has the given identifier or join code.
    NotFound,
    /// The caller already belongs to the group that it tried to join.
    AlreadyMember,
    /// An identifier or a join code is already taken.
    Conflict,
    /// The group identifier or the content is malformed.
    InvalidInput,
}

/// Whether a text is a well-formed join code as the core generates them.
pub open spec fn is_generated_code(s: Seq<char>) -> bool {
    &&& s.len() == JOIN_CODE_LEN
    &&& forall|i: int| 0 <= i < s.len() ==> is_code_char(#[trigger] s[i])
}

/// A message posted to a group. Times are milliseconds since the Unix epoch.
#[derive(Debug)]
pub struct Message {
    pub id: u128,
    pub group_id: u128,
    pub user_id: u128,
    pub content: String,
    pub created_at: i64,
}

impl Clone for Message {
    fn clone(&self) -> (r: Self)
        ensures
            r == *self,
    {
        Message {
            id: self.id,
            group_id: self.group_id,
            user_id: self.user_id,
            content: self.content.clone(),
            created_at: self.created_at,
        }
    }
}

impl Message {
    /// A new message of `user_id` in `group_id`, with a fresh random
    /// identifier and the current time.
    pub fn new(group_id: u128, user_id: u128, content: String) -> (r: Message)
        ensures
            r.group_id == group_id,
            r.user_id == user_id,
            r.content == content,
    {
        Message { id: new_uuid(), group_id, user_id, content, created_at: now_millis() }
    }
}

/// A chat group. Its join code lets users join it by themselves.
#[derive(Debug)]
pub struct Group {
    pub id: u128,
    pub name: String,
    pub avatar: Option<String>,
    pub created_at: i64,
    pub join_code: String,
}

impl Clone for Group {
    fn clone(&self) -> (r: Self)
        ensures
            r == *self,
    {
        let avatar = match &self.avatar {
            Some(a) => Some(a.clone()),
            None => None,
        };
        Group {
            id: self.id,
            name: self.name.clone(),
            avatar,
            created_at: self.created_at,
            join_code: self.join_code.clone(),
        }
    }
}

impl Group {
    /// A new group without an avatar, with a fresh identifier, the current
    /// time and a random join code.
    pub fn new(name: String) -> (r: Group)
        ensures
            r.name == name,
            r.avatar is None,
            is_generated_code(r.join_code@),
    {
        Group {
            id: new_uuid(),
            name,
            avatar: None,
            created_at: now_millis(),
            join_code: random_code(JOIN_CODE_LEN),
        }
    }

    /// As `new`, with an avatar.
    pub fn new_with_avatar(name: String, avatar: String) -> (r: Group)
        ensures
            r.name == name,
            r.avatar == Some(avatar),
            is_generated_code(r.join_code@),
    {
        Group {
            id: new_uuid(),
            name,
            avatar: Some(avatar),
            created_at: now_millis(),
            join_code: random_code(JOIN_CODE_LEN),
        }
    }
}

/// A signed-in user, as the authentication collaborator hands it to the
/// core.
#[derive(Debug)]
pub struct User {
    pub id: u128,
    pub username: String,
}

impl Clone for User {
    fn clone(&self) -> (r: Self)
        ensures
            r == *self,
    {
        User { id: self.id, username: self.username.clone() }
    }
}

/// The membership of a user in a group.
#[derive(Clone, Copy, Debug, PartialEq, Eq, Structural)]
pub struct GroupMember {
    pub group_id: u128,
    pub user_id: u128,
    pub joined_at: i64,
}

impl GroupMember {
    pub fn new(group_id: u128, user_id: u128, joined_at: i64) -> (r: GroupMember)
        ensures
            r == (GroupMember { group_id, user_id, joined_at }),
    {
        GroupMember { group_id, user_id, joined_at }
    }
}

} // verus!
