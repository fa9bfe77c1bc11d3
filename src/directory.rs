//! Groups and memberships: who belongs to which group, and the join codes
//! by which users enter groups by themselves.
use vstd::prelude::*;
use crate::domain::{ChatError, Group, GroupMember};

verus! {

/// What the directory is: its groups and its memberships, in the order they
/// were made.
pub struct GroupsView {
    pub groups: Seq<Group>,
    pub members: Seq<GroupMember>,
}

impl GroupsView {
    pub open spec fn has_group(self, g: u128) -> bool {
        exists|i: int| 0 <= i < self.groups.len() && (#[trigger] self.groups[i]).id == g
    }

    pub open spec fn code_taken(self, code: Seq<char>) -> bool {
        exists|i: int| 0 <= i < self.groups.len() && (#[trigger] self.groups[i]).join_code@ == code
    }

    pub open spec fn is_member(self, g: u128, u: u128) -> bool {
        exists|i: int|
            0 <= i < self.members.len() && (#[trigger] self.members[i]).group_id == g
                && self.members[i].user_id == u
    }

    /// Identifiers and join codes are unique among groups, a user belongs to
    /// a group at most once, and every membership is of an existing group.
    pub open spec fn wf(self) -> bool {
        &&& forall|i: int, j: int|
            0 <= i < j < self.groups.len() ==> self.groups[i].id != self.groups[j].id
        &&& forall|i: int, j: int|
            0 <= i < j < self.groups.len() ==> self.groups[i].join_code@
                != self.groups[j].join_code@
        &&& forall|i: int, j: int|
            0 <= i < j < self.members.len() ==> !(self.members[i].group_id
                == self.members[j].group_id && self.members[i].user_id == self.members[j].user_id)
        &&& forall|i: int|
            0 <= i < self.members.len() ==> self.has_group(#[trigger] self.members[i].group_id)
    }
}

/// The test for a group that user `u` belongs to in `v`.
pub open spec fn joined_by(v: GroupsView, u: u128) -> spec_fn(Group) -> bool {
    |gr: Group| v.is_member(gr.id, u)
}

/// The test for a membership of group `g`.
pub open spec fn member_of(g: u128) -> spec_fn(GroupMember) -> bool {
    |m: GroupMember| m.group_id == g
}

/// Join codes of groups in a well-formed directory are pairwise distinct.
pub proof fn lemma_join_codes_distinct(v: GroupsView)
    requires
        v.wf(),
    ensures
        forall|i: int, j: int|
            0 <= i < v.groups.len() && 0 <= j < v.groups.len() && i != j ==> v.groups[i].join_code@
                != v.groups[j].join_code@,
{
    assert forall|i: int, j: int|
        0 <= i < v.groups.len() && 0 <= j < v.groups.len() && i != j implies v.groups[i].join_code@
        != v.groups[j].join_code@ by {
        if j < i {
            assert(v.groups[j].join_code@ != v.groups[i].join_code@);
        }
    }
}

/// The groups and their members.
pub struct GroupRepository {
    groups: Vec<Group>,
    members: Vec<GroupMember>,
}

impl View for GroupRepository {
    type V = GroupsView;

    closed spec fn view(&self) -> GroupsView {
        GroupsView { groups: self.groups@, members: self.members@ }
    }
}

impl GroupRepository {
    /// A directory without groups.
    pub fn new() -> (r: GroupRepository)
        ensures
            r@.wf(),
            r@.groups.len() == 0,
            r@.members.len() == 0,
    {
        GroupRepository { groups: Vec::new(), members: Vec::new() }
    }

    fn find_group(&self, g: u128) -> (r: Option<usize>)
        ensures
            r matches Some(i) ==> i < self@.groups.len() && self@.groups[i as int].id == g,
            r is None ==> !self@.has_group(g),
    {
        let mut i: usize = 0;
        while i < self.groups.len()
            invariant
                i <= self.groups.len(),
                forall|k: int| 0 <= k < i ==> self@.groups[k].id != g,
            decreases self.groups.len() - i,
        {
            if self.groups[i].id == g {
                return Some(i);
            }
            i = i + 1;
        }
        None
    }

    fn find_code(&self, code: &String) -> (r: Option<usize>)
        ensures
            r matches Some(i) ==> i < self@.groups.len() && self@.groups[i as int].join_code@
                == code@,
            r is None ==> !self@.code_taken(code@),
    {
        let mut i: usize = 0;
        while i < self.groups.len()
            invariant
                i <= self.groups.len(),
                forall|k: int| 0 <= k < i ==> self@.groups[k].join_code@ != code@,
            decreases self.groups.len() - i,
        {
            if self.groups[i].join_code == *code {
                return Some(i);
            }
            i = i + 1;
        }
        None
    }

    /// Whether user `user_id` belongs to group `group_id`.
    pub fn is_member(&self, group_id: u128, user_id: u128) -> (r: bool)
        ensures
            r == self@.is_member(group_id, user_id),
    {
        let mut i: usize = 0;
        while i < self.members.len()
            invariant
                i <= self.members.len(),
                forall|k: int|
                    0 <= k < i ==> !(self@.members[k].group_id == group_id
                        && self@.members[k].user_id == user_id),
            decreases self.members.len() - i,
        {
            if self.members[i].group_id == group_id && self.members[i].user_id == user_id {
                assert(self@.members[i as int].group_id == group_id);
                return true;
            }
            i = i + 1;
        }
        false
    }

    /// Whether group `group_id` exists.
    pub fn has_group(&self, group_id: u128) -> (r: bool)
        ensures
            r == self@.has_group(group_id),
    {
        self.find_group(group_id).is_some()
    }

    /// Whether a group already has join code `code`.
    pub fn join_code_taken(&self, code: &String) -> (r: bool)
        ensures
            r == self@.code_taken(code@),
    {
        self.find_code(code).is_some()
    }

    /// Stores a new group. A group whose identifier or join code is taken is
    /// refused.
    pub fn create_group(&mut self, group: Group) -> (r: Result<u128, ChatError>)
        requires
            old(self)@.wf(),
        ensures
            final(self)@.wf(),
            r is Err <==> (old(self)@.has_group(group.id) || old(self)@.code_taken(
                group.join_code@,
            )),
            r is Err ==> r == Err::<u128, ChatError>(ChatError::Conflict) && final(self)@
                == old(self)@,
            r is Ok ==> r == Ok::<u128, ChatError>(group.id) && final(self)@ == (GroupsView {
                groups: old(self)@.groups.push(group),
                members: old(self)@.members,
            }),
    {
        if self.find_group(group.id).is_some() || self.find_code(&group.join_code).is_some() {
            return Err(ChatError::Conflict);
        }
        let id = group.id;
        let ghost gr = group;
        self.groups.push(group);
        proof {
            assert forall|i: int|
                0 <= i < self@.members.len() implies self@.has_group(
                #[trigger] self@.members[i].group_id,
            ) by {
                let g = self@.members[i].group_id;
                assert(old(self)@.has_group(g));
                let k = choose|k: int| 0 <= k < old(self)@.groups.len() && (#[trigger] old(self)@.groups[k]).id == g;
                assert(self@.groups[k] == old(self)@.groups[k]);
            }
        }
        Ok(id)
    }

    /// Makes user `user_id` a member of group `group_id` as of `joined_at`.
    pub fn add_member(&mut self, group_id: u128, user_id: u128, joined_at: i64) -> (r: Result<
        (),
        ChatError,
    >)
        requires
            old(self)@.wf(),
        ensures
            final(self)@.wf(),
            !old(self)@.has_group(group_id) ==> r == Err::<(), ChatError>(ChatError::NotFound),
            old(self)@.has_group(group_id) && old(self)@.is_member(group_id, user_id) ==> r == Err::<
                (),
                ChatError,
            >(ChatError::AlreadyMember),
            r is Err ==> final(self)@ == old(self)@,
            r is Ok <==> old(self)@.has_group(group_id) && !old(self)@.is_member(group_id, user_id),
            r is Ok ==> final(self)@ == (GroupsView {
                groups: old(self)@.groups,
                members: old(self)@.members.push(GroupMember { group_id, user_id, joined_at }),
            }),
    {
        if self.find_group(group_id).is_none() {
            return Err(ChatError::NotFound);
        }
        if self.is_member(group_id, user_id) {
            return Err(ChatError::AlreadyMember);
        }
        self.members.push(GroupMember::new(group_id, user_id, joined_at));
        proof {
            assert(self@.members.last().group_id == group_id);
            assert forall|i: int, j: int| 0 <= i < j < self@.members.len() implies !(
            self@.members[i].group_id == self@.members[j].group_id && self@.members[i].user_id
                == self@.members[j].user_id) by {
                if j == self@.members.len() - 1 {
                    assert(self@.members[i] == old(self)@.members[i]);
                }
            }
            assert forall|i: int|
                0 <= i < self@.members.len() implies self@.has_group(
                #[trigger] self@.members[i].group_id,
            ) by {
                if i < old(self)@.members.len() {
                    assert(self@.members[i] == old(self)@.members[i]);
                }
            }
        }
        Ok(())
    }

    /// Ends the membership of user `user_id` in group `group_id`. Returns
    /// whether there was one.
    pub fn remove_member(&mut self, group_id: u128, user_id: u128) -> (r: bool)
        requires
            old(self)@.wf(),
        ensures
            final(self)@.wf(),
            r == old(self)@.is_member(group_id, user_id),
            !final(self)@.is_member(group_id, user_id),
            final(self)@.groups == old(self)@.groups,
            forall|g: u128, u: u128|
                !(g == group_id && u == user_id) ==> final(self)@.is_member(g, u)
                    == old(self)@.is_member(g, u),
            r ==> exists|i: int|
                0 <= i < old(self)@.members.len() && old(self)@.members[i].group_id == group_id
                    && old(self)@.members[i].user_id == user_id && final(self)@.members == old(
                    self,
                )@.members.remove(i),
            !r ==> final(self)@ == old(self)@,
    {
        let mut i: usize = 0;
        while i < self.members.len()
            invariant
                i <= self.members.len(),
                self@ == old(self)@,
                old(self)@.wf(),
                forall|k: int|
                    0 <= k < i ==> !(self@.members[k].group_id == group_id
                        && self@.members[k].user_id == user_id),
            decreases self.members.len() - i,
        {
            if self.members[i].group_id == group_id && self.members[i].user_id == user_id {
                let ghost before = self@.members;
                let _ = self.members.remove(i);
                proof {
                    let after = self@.members;
                    assert(after =~= before.remove(i as int));
                    assert forall|g: u128, u: u128|
                        !(g == group_id && u == user_id) implies self@.is_member(g, u)
                        == old(self)@.is_member(g, u) by {
                        if old(self)@.is_member(g, u) {
                            let k = choose|k: int|
                                0 <= k < before.len() && (#[trigger] before[k]).group_id == g
                                    && before[k].user_id == u;
                            if k < i {
                                assert(after[k] == before[k]);
                            } else {
                                assert(after[k - 1] == before[k]);
                            }
                        }
                        if self@.is_member(g, u) {
                            let k = choose|k: int|
                                0 <= k < after.len() && (#[trigger] after[k]).group_id == g
                                    && after[k].user_id == u;
                            if k < i {
                                assert(before[k] == after[k]);
                            } else {
                                assert(before[k + 1] == after[k]);
                            }
                        }
                    }
                    if self@.is_member(group_id, user_id) {
                        let k = choose|k: int|
                            0 <= k < after.len() && (#[trigger] after[k]).group_id == group_id
                                && after[k].user_id == user_id;
                        if k < i {
                            assert(before[k] == after[k]);
                        } else {
                            assert(before[k + 1] == after[k]);
                            assert(before[i as int].group_id == group_id);
                            assert(before[i as int].user_id == user_id);
                        }
                    }
                    assert forall|a: int, b: int| 0 <= a < b < after.len() implies !(
                    after[a].group_id == after[b].group_id && after[a].user_id == after[b].user_id) by {
                        let a2 = if a < i { a } else { a + 1 };
                        let b2 = if b < i { b } else { b + 1 };
                        assert(after[a] == before[a2]);
                        assert(after[b] == before[b2]);
                    }
                    assert forall|a: int| 0 <= a < after.len() implies self@.has_group(
                        #[trigger] after[a].group_id,
                    ) by {
                        let a2 = if a < i { a } else { a + 1 };
                        assert(after[a] == before[a2]);
                    }
                    assert(old(self)@.members[i as int].group_id == group_id);
                }
                return true;
            }
            i = i + 1;
        }
        false
    }

    /// The group with identifier `id`, if any.
    pub fn get_group_by_id(&self, id: u128) -> (r: Option<Group>)
        ensures
            r is None <==> !self@.has_group(id),
            r matches Some(gr) ==> gr.id == id && self@.groups.contains(gr),
    {
        match self.find_group(id) {
            Some(i) => {
                let gr = self.groups[i].clone();
                assert(self@.groups[i as int] == gr);
                Some(gr)
            },
            None => None,
        }
    }

    /// Every group, in the order they were made.
    pub fn list_groups(&self) -> (r: Vec<Group>)
        ensures
            r@ == self@.groups,
    {
        let mut out: Vec<Group> = Vec::new();
        let mut i: usize = 0;
        while i < self.groups.len()
            invariant
                i <= self.groups.len(),
                out@ == self@.groups.subrange(0, i as int),
            decreases self.groups.len() - i,
        {
            out.push(self.groups[i].clone());
            assert(self@.groups.subrange(0, i + 1) =~= self@.groups.subrange(0, i as int).push(
                self@.groups[i as int],
            ));
            i = i + 1;
        }
        assert(self@.groups.subrange(0, self@.groups.len() as int) =~= self@.groups);
        out
    }

    /// The first group named `name`, if any.
    pub fn get_group_by_name(&self, name: &String) -> (r: Option<Group>)
        ensures
            r is None <==> forall|i: int| 0 <= i < self@.groups.len() ==> (#[trigger] self@.groups[i]).name@ != name@,
            r matches Some(gr) ==> exists|i: int|
                0 <= i < self@.groups.len() && self@.groups[i] == gr && gr.name@ == name@
                    && forall|k: int| 0 <= k < i ==> (#[trigger] self@.groups[k]).name@ != name@,
    {
        let mut i: usize = 0;
        while i < self.groups.len()
            invariant
                i <= self.groups.len(),
                forall|k: int| 0 <= k < i ==> (#[trigger] self@.groups[k]).name@ != name@,
            decreases self.groups.len() - i,
        {
            if self.groups[i].name == *name {
                let gr = self.groups[i].clone();
                assert(self@.groups[i as int] == gr);
                return Some(gr);
            }
            i = i + 1;
        }
        None
    }

    /// The group whose join code is `code`, if any.
    pub fn get_by_join_code(&self, code: &String) -> (r: Option<Group>)
        ensures
            r is None <==> !self@.code_taken(code@),
            r matches Some(gr) ==> gr.join_code@ == code@ && self@.groups.contains(gr),
    {
        match self.find_code(code) {
            Some(i) => {
                let gr = self.groups[i].clone();
                assert(self@.groups[i as int] == gr);
                Some(gr)
            },
            None => None,
        }
    }

    /// The groups that user `user_id` belongs to, in the order they were made.
    pub fn list_user_groups(&self, user_id: u128) -> (r: Vec<Group>)
        ensures
            r@ == self@.groups.filter(joined_by(self@, user_id)),
    {
        let mut out: Vec<Group> = Vec::new();
        let mut i: usize = 0;
        while i < self.groups.len()
            invariant
                i <= self.groups.len(),
                out@ == self@.groups.subrange(0, i as int).filter(joined_by(self@, user_id)),
            decreases self.groups.len() - i,
        {
            proof {
                reveal(Seq::filter);
                assert(self@.groups.subrange(0, i + 1).drop_last() =~= self@.groups.subrange(
                    0,
                    i as int,
                ));
            }
            if self.is_member(self.groups[i].id, user_id) {
                out.push(self.groups[i].clone());
            }
            i = i + 1;
        }
        proof {
            assert(self@.groups.subrange(0, self@.groups.len() as int) =~= self@.groups);
        }
        out
    }

    /// The memberships of group `group_id`, in the order they were made.
    pub fn list_members(&self, group_id: u128) -> (r: Vec<GroupMember>)
        ensures
            r@ == self@.members.filter(member_of(group_id)),
    {
        let mut out: Vec<GroupMember> = Vec::new();
        let mut i: usize = 0;
        while i < self.members.len()
            invariant
                i <= self.members.len(),
                out@ == self@.members.subrange(0, i as int).filter(member_of(group_id)),
            decreases self.members.len() - i,
        {
            proof {
                reveal(Seq::filter);
                assert(self@.members.subrange(0, i + 1).drop_last() =~= self@.members.subrange(
                    0,
                    i as int,
                ));
            }
            if self.members[i].group_id == group_id {
                out.push(self.members[i]);
            }
            i = i + 1;
        }
        proof {
            assert(self@.members.subrange(0, self@.members.len() as int) =~= self@.members);
        }
        out
    }

    /// The first of `candidates` that no group has as its join code, if any:
    /// a code that collides is passed over for the next one.
    pub fn choose_join_code(&self, candidates: &Vec<String>) -> (r: Option<usize>)
        ensures
            r matches Some(i) ==> i < candidates@.len() && !self@.code_taken(candidates@[i as int]@)
                && forall|k: int| 0 <= k < i ==> self@.code_taken(#[trigger] candidates@[k]@),
            r is None ==> forall|k: int|
                0 <= k < candidates@.len() ==> self@.code_taken(#[trigger] candidates@[k]@),
    {
        let mut i: usize = 0;
        while i < candidates.len()
            invariant
                i <= candidates.len(),
                forall|k: int| 0 <= k < i ==> self@.code_taken(#[trigger] candidates@[k]@),
            decreases candidates.len() - i,
        {
            if self.find_code(&candidates[i]).is_none() {
                return Some(i);
            }
            i = i + 1;
        }
        None
    }
}

} // verus!
