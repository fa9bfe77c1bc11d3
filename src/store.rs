//! The messages of all groups in the order they were stored, with the page
//! query that serves history newest first.
use vstd::prelude::*;
use crate::domain::{ChatError, Message};

verus! {

/// The test for a message of group `g`.
pub open spec fn of_group(g: u128) -> spec_fn(Message) -> bool {
    |m: Message| m.group_id == g
}

/// The test for a message of user `u`.
pub open spec fn by_user(u: u128) -> spec_fn(Message) -> bool {
    |m: Message| m.user_id == u
}

/// Whether no two messages of `s` share an identifier.
pub open spec fn ids_unique(s: Seq<Message>) -> bool {
    forall|i: int, j: int| 0 <= i < j < s.len() ==> s[i].id != s[j].id
}

/// Whether some message of `s` has identifier `id`.
pub open spec fn has_id(s: Seq<Message>, id: u128) -> bool {
    exists|i: int| 0 <= i < s.len() && (#[trigger] s[i]).id == id
}

/// Within each group, later messages are never older.
pub open spec fn times_ordered(s: Seq<Message>) -> bool {
    forall|i: int, j: int|
        0 <= i < j < s.len() && s[i].group_id == s[j].group_id ==> s[i].created_at
            <= s[j].created_at
}

/// The time a new message of group `g` dated `floor` is stored with: the
/// latest of `floor` and the times of the group's messages in `s`.
pub open spec fn latest_time(s: Seq<Message>, g: u128, floor: i64) -> i64
    decreases s.len(),
{
    if s.len() == 0 {
        floor
    } else {
        let t = latest_time(s.drop_last(), g, floor);
        if s.last().group_id == g && s.last().created_at > t {
            s.last().created_at
        } else {
            t
        }
    }
}

/// The messages of group `g`, newest first.
pub open spec fn newest_first(s: Seq<Message>, g: u128) -> Seq<Message> {
    let all = s.filter(of_group(g));
    Seq::new(all.len(), |k: int| all[all.len() - 1 - k])
}

/// The page of group `g` that skips the `offset` newest messages and holds
/// up to `limit` of the next ones, newest first.
pub open spec fn page_of(s: Seq<Message>, g: u128, offset: nat, limit: nat) -> Seq<Message> {
    let n = newest_first(s, g);
    let lo = if offset <= n.len() { offset as int } else { n.len() as int };
    let hi = if offset + limit <= n.len() { (offset + limit) as int } else { n.len() as int };
    n.subrange(lo, hi)
}

/// Filtering keeps identifiers unique.
proof fn lemma_filter_ids_unique(s: Seq<Message>, pred: spec_fn(Message) -> bool)
    requires
        ids_unique(s),
    ensures
        ids_unique(s.filter(pred)),
    decreases s.len(),
{
    reveal(Seq::filter);
    if s.len() > 0 {
        lemma_filter_ids_unique(s.drop_last(), pred);
        let f = s.drop_last().filter(pred);
        if pred(s.last()) {
            assert forall|i: int, j: int| 0 <= i < j < f.len() + 1 implies f.push(s.last())[i].id
                != f.push(s.last())[j].id by {
                if j == f.len() {
                    assert(f.contains(f[i]));
                    s.drop_last().lemma_filter_contains_rev(pred, f[i]);
                    let k = choose|k: int| 0 <= k < s.len() - 1 && s.drop_last()[k] == f[i];
                    assert(s[k] == f[i]);
                }
            }
        }
    }
}

/// Two pages of one group, the second taken at an offset at least the
/// first's offset plus the first's length, share no message identifier.
pub proof fn lemma_pages_disjoint(s: Seq<Message>, g: u128, o1: nat, l1: nat, o2: nat, l2: nat)
    requires
        ids_unique(s),
        o2 >= o1 + page_of(s, g, o1, l1).len(),
    ensures
        forall|i: int, j: int|
            0 <= i < page_of(s, g, o1, l1).len() && 0 <= j < page_of(s, g, o2, l2).len()
                ==> page_of(s, g, o1, l1)[i].id != page_of(s, g, o2, l2)[j].id,
{
    let all = s.filter(of_group(g));
    lemma_filter_ids_unique(s, of_group(g));
    let n = newest_first(s, g);
    assert forall|i: int, j: int|
        0 <= i < page_of(s, g, o1, l1).len() && 0 <= j < page_of(s, g, o2, l2).len()
            implies page_of(s, g, o1, l1)[i].id != page_of(s, g, o2, l2)[j].id by {
        let a = o1 + i;
        let b = o2 + j;
        assert(page_of(s, g, o1, l1)[i] == n[a]);
        assert(page_of(s, g, o2, l2)[j] == n[b]);
        assert(n[a] == all[all.len() - 1 - a]);
        assert(n[b] == all[all.len() - 1 - b]);
    }
}

/// Where `offset` is at most the number `K` of messages of the group, a page
/// shorter than `limit` ends the history: `offset` plus its length is `K`.
/// The converse holds unless `offset + limit` is exactly `K`, where the
/// page is full and still the last.
pub proof fn lemma_last_page(s: Seq<Message>, g: u128, offset: nat, limit: nat)
    requires
        offset <= s.filter(of_group(g)).len(),
    ensures
        page_of(s, g, offset, limit).len() < limit ==> offset + page_of(s, g, offset, limit).len()
            == s.filter(of_group(g)).len(),
        offset + limit != s.filter(of_group(g)).len() ==> (page_of(s, g, offset, limit).len()
            < limit <==> offset + page_of(s, g, offset, limit).len() == s.filter(
            of_group(g),
        ).len()),
{
}

/// The stored messages of all groups.
pub struct MessageRepository {
    messages: Vec<Message>,
}

impl View for MessageRepository {
    type V = Seq<Message>;

    closed spec fn view(&self) -> Seq<Message> {
        self.messages@
    }
}

impl MessageRepository {
    pub open spec fn wf(&self) -> bool {
        ids_unique(self@) && times_ordered(self@)
    }

    /// A store without messages.
    pub fn new() -> (r: MessageRepository)
        ensures
            r.wf(),
            r@.len() == 0,
    {
        MessageRepository { messages: Vec::new() }
    }

    /// Stores `message` and returns its identifier and its time. The time is
    /// that of the message, raised where needed to that of the newest
    /// message of its group, so that times never go back within a group. A
    /// message whose identifier is taken is refused.
    pub fn create(&mut self, message: Message) -> (r: Result<(u128, i64), ChatError>)
        requires
            old(self).wf(),
        ensures
            final(self).wf(),
            r is Err <==> has_id(old(self)@, message.id),
            r is Err ==> r == Err::<(u128, i64), ChatError>(ChatError::Conflict) && final(self)@
                == old(self)@,
            r matches Ok((id, t)) ==> {
                &&& id == message.id
                &&& t == latest_time(old(self)@, message.group_id, message.created_at)
                &&& final(self)@ == old(self)@.push(Message { created_at: t, ..message })
                &&& t >= message.created_at
                &&& forall|i: int|
                    0 <= i < old(self)@.len() && old(self)@[i].group_id == message.group_id
                        ==> old(self)@[i].created_at <= t
                &&& t == message.created_at || exists|i: int|
                    0 <= i < old(self)@.len() && old(self)@[i].group_id == message.group_id
                        && old(self)@[i].created_at == t
            },
    {
        let mut t = message.created_at;
        let mut i: usize = 0;
        while i < self.messages.len()
            invariant
                i <= self.messages.len(),
                self@ == old(self)@,
                old(self).wf(),
                t == latest_time(self@.subrange(0, i as int), message.group_id, message.created_at),
                forall|k: int| 0 <= k < i ==> self@[k].id != message.id,
                t >= message.created_at,
                forall|k: int|
                    0 <= k < i && self@[k].group_id == message.group_id ==> self@[k].created_at
                        <= t,
                t == message.created_at || exists|k: int|
                    0 <= k < i && self@[k].group_id == message.group_id && self@[k].created_at
                        == t,
            decreases self.messages.len() - i,
        {
            if self.messages[i].id == message.id {
                return Err(ChatError::Conflict);
            }
            assert(self@.subrange(0, i + 1).drop_last() =~= self@.subrange(0, i as int));
            if self.messages[i].group_id == message.group_id && self.messages[i].created_at > t {
                t = self.messages[i].created_at;
            }
            i = i + 1;
        }
        assert(self@.subrange(0, self@.len() as int) =~= self@);
        let id = message.id;
        self.messages.push(Message { created_at: t, ..message });
        Ok((id, t))
    }

    /// The message with identifier `id`, if it is stored.
    pub fn get_by_id(&self, id: u128) -> (r: Option<Message>)
        ensures
            r is None <==> !has_id(self@, id),
            r matches Some(m) ==> m.id == id && self@.contains(m),
    {
        let mut i: usize = 0;
        while i < self.messages.len()
            invariant
                i <= self.messages.len(),
                forall|k: int| 0 <= k < i ==> self@[k].id != id,
            decreases self.messages.len() - i,
        {
            if self.messages[i].id == id {
                let m = self.messages[i].clone();
                assert(self@[i as int] == m);
                return Some(m);
            }
            i = i + 1;
        }
        None
    }

    /// The messages of group `group_id`, oldest first.
    pub fn get_by_group(&self, group_id: u128) -> (r: Vec<Message>)
        ensures
            r@ == self@.filter(of_group(group_id)),
    {
        let mut out: Vec<Message> = Vec::new();
        let mut i: usize = 0;
        while i < self.messages.len()
            invariant
                i <= self.messages.len(),
                out@ == self@.subrange(0, i as int).filter(of_group(group_id)),
            decreases self.messages.len() - i,
        {
            proof {
                reveal(Seq::filter);
                assert(self@.subrange(0, i + 1).drop_last() =~= self@.subrange(0, i as int));
            }
            if self.messages[i].group_id == group_id {
                out.push(self.messages[i].clone());
            }
            i = i + 1;
        }
        proof {
            assert(self@.subrange(0, self@.len() as int) =~= self@);
        }
        out
    }

    /// The messages of user `user_id` in all groups, oldest first.
    pub fn get_by_user(&self, user_id: u128) -> (r: Vec<Message>)
        ensures
            r@ == self@.filter(by_user(user_id)),
    {
        let mut out: Vec<Message> = Vec::new();
        let mut i: usize = 0;
        while i < self.messages.len()
            invariant
                i <= self.messages.len(),
                out@ == self@.subrange(0, i as int).filter(by_user(user_id)),
            decreases self.messages.len() - i,
        {
            proof {
                reveal(Seq::filter);
                assert(self@.subrange(0, i + 1).drop_last() =~= self@.subrange(0, i as int));
            }
            if self.messages[i].user_id == user_id {
                out.push(self.messages[i].clone());
            }
            i = i + 1;
        }
        proof {
            assert(self@.subrange(0, self@.len() as int) =~= self@);
        }
        out
    }

    /// Deletes the message with identifier `id`. Returns whether there was
    /// one.
    pub fn delete(&mut self, id: u128) -> (r: bool)
        requires
            old(self).wf(),
        ensures
            final(self).wf(),
            r == has_id(old(self)@, id),
            !has_id(final(self)@, id),
            r ==> exists|i: int|
                0 <= i < old(self)@.len() && old(self)@[i].id == id && final(self)@ == old(
                    self,
                )@.remove(i),
            !r ==> final(self)@ == old(self)@,
    {
        let mut i: usize = 0;
        while i < self.messages.len()
            invariant
                i <= self.messages.len(),
                self@ == old(self)@,
                old(self).wf(),
                forall|k: int| 0 <= k < i ==> self@[k].id != id,
            decreases self.messages.len() - i,
        {
            if self.messages[i].id == id {
                let ghost before = self@;
                let _ = self.messages.remove(i);
                proof {
                    let after = self@;
                    assert(after =~= before.remove(i as int));
                    assert forall|a: int, b: int| 0 <= a < b < after.len() implies after[a].id
                        != after[b].id && (after[a].group_id == after[b].group_id ==> after[a].created_at
                        <= after[b].created_at) by {
                        let a2 = if a < i { a } else { a + 1 };
                        let b2 = if b < i { b } else { b + 1 };
                        assert(after[a] == before[a2]);
                        assert(after[b] == before[b2]);
                    }
                    if has_id(after, id) {
                        let k = choose|k: int| 0 <= k < after.len() && (#[trigger] after[k]).id == id;
                        let k2 = if k < i { k } else { k + 1 };
                        assert(after[k] == before[k2]);
                        assert(before[i as int].id == id);
                    }
                    assert(before[i as int].id == id);
                }
                return true;
            }
            i = i + 1;
        }
        false
    }

    /// The newest message of group `group_id`, if it has any.
    pub fn last_in_group(&self, group_id: u128) -> (r: Option<Message>)
        ensures
            newest_first(self@, group_id).len() == 0 ==> r is None,
            newest_first(self@, group_id).len() > 0 ==> r == Some(newest_first(self@, group_id)[0]),
    {
        let all = self.get_by_group(group_id);
        let n = all.len();
        if n == 0 {
            None
        } else {
            Some(all[n - 1].clone())
        }
    }

    /// The page of group `group_id` that skips its `offset` newest messages
    /// and holds up to `limit` of the next ones, newest first.
    pub fn get_by_group_paginated(&self, group_id: u128, offset: usize, limit: usize) -> (r: Vec<
        Message,
    >)
        ensures
            r@ == page_of(self@, group_id, offset as nat, limit as nat),
    {
        let all = self.get_by_group(group_id);
        let n = all.len();
        let ghost newest = newest_first(self@, group_id);
        let lo = if offset <= n {
            offset
        } else {
            n
        };
        let hi = if limit <= n - lo {
            lo + limit
        } else {
            n
        };
        let mut out: Vec<Message> = Vec::new();
        let mut k: usize = lo;
        while k < hi
            invariant
                lo <= k <= hi <= n,
                n == all@.len(),
                newest.len() == n,
                newest == newest_first(self@, group_id),
                all@ == self@.filter(of_group(group_id)),
                out@ == newest.subrange(lo as int, k as int),
            decreases hi - k,
        {
            let m = all[n - 1 - k].clone();
            out.push(m);
            assert(newest.subrange(lo as int, k + 1) =~= newest.subrange(lo as int, k as int).push(
                m,
            ));
            k = k + 1;
        }
        assert(page_of(self@, group_id, offset as nat, limit as nat) =~= newest.subrange(
            lo as int,
            hi as int,
        ));
        out
    }
}

} // verus!
