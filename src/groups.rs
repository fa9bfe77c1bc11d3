//! Groups as a member's group list shows them.
use vstd::prelude::*;
use vstd::string::StringExecFns;
use crate::domain::Message;

verus! {

/// A group in a member's list: its identifier, name, avatar, the text of its
/// newest message and its join code.
#[derive(Debug)]
pub struct Group {
    pub id: u128,
    pub name: String,
    pub avatar_url: String,
    pub last_message: String,
    pub join_code: String,
}

/// The avatar of a group that has none of its own.
pub open spec fn default_avatar() -> Seq<char> {
    "https://api.dicebear.com/9.x/glass/svg"@
}

/// What the list shows of a group without messages.
pub open spec fn no_messages() -> Seq<char> {
    "No messages yet"@
}

/// Whether `r` lists `group`, whose newest message is `last`.
pub open spec fn lists(r: Group, group: crate::domain::Group, last: Option<Message>) -> bool {
    &&& r.id == group.id
    &&& r.name == group.name
    &&& r.join_code == group.join_code
    &&& r.avatar_url@ == match group.avatar {
        Some(a) => a@,
        None => default_avatar(),
    }
    &&& r.last_message@ == match last {
        Some(m) => m.content@,
        None => no_messages(),
    }
}

/// The list entry of `group`, whose newest message is `last`.
pub fn to_listing(group: crate::domain::Group, last: Option<Message>) -> (r: Group)
    ensures
        lists(r, group, last),
{
    let avatar_url = match group.avatar {
        Some(a) => a,
        None => <String as StringExecFns>::from_str("https://api.dicebear.com/9.x/glass/svg"),
    };
    let last_message = match last {
        Some(m) => m.content,
        None => <String as StringExecFns>::from_str("No messages yet"),
    };
    Group { id: group.id, name: group.name, avatar_url, last_message, join_code: group.join_code }
}

} // verus!
