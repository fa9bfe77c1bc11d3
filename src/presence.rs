//! Who is reading and who is writing in a group. Each member's client sends a
//! heartbeat with its role; an entry counts as active while it is at most
//! twenty seconds old, and older entries are filtered out when read.
use vstd::prelude::*;
use vstd::string::StringExecFns;

verus! {

/// How long, in milliseconds, a presence entry stays active.
pub const STALE_AFTER_MS: i64 = 20_000;

/// How long, in milliseconds, typing keeps a member in the writer role.
pub const TYPING_IDLE_MS: i64 = 2_000;

/// The two roles a member can have in a group.
#[derive(Clone, Copy, Debug, PartialEq, Eq, Structural)]
pub enum Role {
    Reader,
    Writer,
}

/// A member's presence entry: a name and the time of its last heartbeat.
#[derive(Debug)]
pub struct Person {
    pub name: String,
    pub last_activity: i64,
}

impl Clone for Person {
    fn clone(&self) -> (r: Self)
        ensures
            r == *self,
    {
        Person { name: self.name.clone(), last_activity: self.last_activity }
    }
}

/// Whether an entry is still active at time `now`.
pub open spec fn is_active(p: Person, now: i64) -> bool {
    now - p.last_activity <= STALE_AFTER_MS
}

/// The test for an entry active at time `now`.
pub open spec fn active_at(now: i64) -> spec_fn(Person) -> bool {
    |p: Person| is_active(p, now)
}

/// The test for an entry of someone other than `name`.
pub open spec fn other_than(name: Seq<char>) -> spec_fn(Person) -> bool {
    |p: Person| p.name@ != name
}

/// Whether someone named `name` has an entry in `s`.
pub open spec fn has_name(s: Seq<Person>, name: Seq<char>) -> bool {
    exists|i: int| 0 <= i < s.len() && (#[trigger] s[i]).name@ == name
}

/// Whether no two entries of `s` have the same name.
pub open spec fn names_unique(s: Seq<Person>) -> bool {
    forall|i: int, j: int| 0 <= i < j < s.len() ==> s[i].name@ != s[j].name@
}

/// The readers and the writers of one group.
pub struct PresenceView {
    pub readers: Seq<Person>,
    pub writers: Seq<Person>,
}

impl PresenceView {
    pub open spec fn of_role(self, role: Role) -> Seq<Person> {
        match role {
            Role::Reader => self.readers,
            Role::Writer => self.writers,
        }
    }

    /// Names are unique in each role, and nobody has both roles.
    pub open spec fn wf(self) -> bool {
        &&& names_unique(self.readers)
        &&& names_unique(self.writers)
        &&& forall|n: Seq<char>| !(has_name(self.readers, n) && has_name(self.writers, n))
    }

    /// The state after the heartbeat `me` in `role`: the entry of the same
    /// name in the other role is gone, and its entry in `role` is `me`.
    pub open spec fn after_heartbeat(self, me: Person, role: Role) -> PresenceView {
        let keep = other_than(me.name@);
        match role {
            Role::Reader => PresenceView {
                readers: self.readers.filter(keep).push(me),
                writers: self.writers.filter(keep),
            },
            Role::Writer => PresenceView {
                readers: self.readers.filter(keep),
                writers: self.writers.filter(keep).push(me),
            },
        }
    }

    /// The active entries of `role` at time `now`.
    pub open spec fn active(self, role: Role, now: i64) -> Seq<Person> {
        self.of_role(role).filter(active_at(now))
    }
}

/// The entries of `list` whose name is not `name`, in their order.
fn without(list: &Vec<Person>, name: &String) -> (r: Vec<Person>)
    ensures
        r@ == list@.filter(other_than(name@)),
{
    let mut out: Vec<Person> = Vec::new();
    let mut i: usize = 0;
    while i < list.len()
        invariant
            i <= list.len(),
            out@ == list@.subrange(0, i as int).filter(other_than(name@)),
        decreases list.len() - i,
    {
        proof {
            reveal(Seq::filter);
            assert(list@.subrange(0, i + 1).drop_last() =~= list@.subrange(0, i as int));
        }
        if !(list[i].name == *name) {
            out.push(list[i].clone());
        }
        i = i + 1;
    }
    proof {
        assert(list@.subrange(0, list.len() as int) =~= list@);
    }
    out
}

/// The entries of `list` that are active at time `now`, in their order.
fn active_in(list: &Vec<Person>, now: i64) -> (r: Vec<Person>)
    ensures
        r@ == list@.filter(active_at(now)),
{
    let mut out: Vec<Person> = Vec::new();
    let mut i: usize = 0;
    while i < list.len()
        invariant
            i <= list.len(),
            out@ == list@.subrange(0, i as int).filter(active_at(now)),
        decreases list.len() - i,
    {
        proof {
            reveal(Seq::filter);
            assert(list@.subrange(0, i + 1).drop_last() =~= list@.subrange(0, i as int));
        }
        if now as i128 - list[i].last_activity as i128 <= STALE_AFTER_MS as i128 {
            out.push(list[i].clone());
        }
        i = i + 1;
    }
    proof {
        assert(list@.subrange(0, list.len() as int) =~= list@);
    }
    out
}

/// The presence entries of one group, shared by all its members.
#[derive(Debug)]
pub struct ReadersAndWriters {
    readers: Vec<Person>,
    writers: Vec<Person>,
}

impl View for ReadersAndWriters {
    type V = PresenceView;

    closed spec fn view(&self) -> PresenceView {
        PresenceView { readers: self.readers@, writers: self.writers@ }
    }
}

impl ReadersAndWriters {
    /// A group where nobody is present.
    pub fn new() -> (r: ReadersAndWriters)
        ensures
            r@.wf(),
            r@.readers.len() == 0,
            r@.writers.len() == 0,
    {
        ReadersAndWriters { readers: Vec::new(), writers: Vec::new() }
    }

    /// Records that `name` is present in `role` at time `now`, and drops its
    /// entry in the other role.
    pub fn heartbeat(&mut self, name: String, role: Role, now: i64)
        requires
            old(self)@.wf(),
        ensures
            final(self)@.wf(),
            final(self)@ == old(self)@.after_heartbeat(
                Person { name, last_activity: now },
                role,
            ),
    {
        let readers = without(&self.readers, &name);
        let writers = without(&self.writers, &name);
        let ghost me = Person { name, last_activity: now };
        proof {
            broadcast use Seq::lemma_filter_pred, Seq::lemma_filter_contains_rev;
            lemma_filter_unique(self.readers@, other_than(name@));
            lemma_filter_unique(self.writers@, other_than(name@));
        }
        match role {
            Role::Reader => {
                self.readers = readers;
                self.readers.push(Person { name, last_activity: now });
                self.writers = writers;
            },
            Role::Writer => {
                self.readers = readers;
                self.writers = writers;
                self.writers.push(Person { name, last_activity: now });
            },
        }
        proof {
            assert(self@ == old(self)@.after_heartbeat(me, role));
            broadcast use Seq::lemma_filter_pred, Seq::lemma_filter_contains_rev;
            let keep = other_than(name@);
            let fr = old(self)@.readers.filter(keep);
            let fw = old(self)@.writers.filter(keep);
            assert forall|n: Seq<char>| !(has_name(self@.readers, n) && has_name(self@.writers, n)) by {
                if has_name(self@.readers, n) && has_name(self@.writers, n) {
                    if n != name@ {
                        if role == Role::Reader {
                            lemma_push_has_name(fr, me, n);
                        } else {
                            lemma_push_has_name(fw, me, n);
                        }
                        lemma_filter_has_name(old(self)@.readers, keep, n);
                        lemma_filter_has_name(old(self)@.writers, keep, n);
                    } else {
                        let k = choose|k: int| 0 <= k < fr.len() && (#[trigger] fr[k]).name@ == n;
                        let l = choose|l: int| 0 <= l < fw.len() && (#[trigger] fw[l]).name@ == n;
                        if role == Role::Reader {
                            assert(has_name(fw, n));
                            assert(keep(fw[l]));
                        } else {
                            assert(has_name(fr, n));
                            assert(keep(fr[k]));
                        }
                    }
                }
            }
        }
    }

    /// The entries of `role` that are active at time `now`.
    pub fn active(&self, role: Role, now: i64) -> (r: Vec<Person>)
        ensures
            r@ == self@.active(role, now),
    {
        match role {
            Role::Reader => active_in(&self.readers, now),
            Role::Writer => active_in(&self.writers, now),
        }
    }
}

/// The typing state of one member: typing makes it a writer, and it falls
/// back to reader once `TYPING_IDLE_MS` pass without typing.
#[derive(Clone, Copy, Debug, PartialEq, Eq, Structural)]
pub struct Typing {
    pub writing: bool,
    /// When the writer role lapses, in milliseconds since the Unix epoch.
    pub deadline: i64,
}

impl Typing {
    /// A member who is not typing.
    pub fn new() -> (r: Typing)
        ensures
            !r.writing,
    {
        Typing { writing: false, deadline: 0 }
    }

    /// A keystroke at time `now`: the member writes, and the fall back to
    /// reader is put off until `TYPING_IDLE_MS` after `now`.
    pub fn on_input(&mut self, now: i64)
        ensures
            final(self).writing,
            final(self).deadline == if now <= i64::MAX - TYPING_IDLE_MS {
                now + TYPING_IDLE_MS
            } else {
                i64::MAX as int
            },
    {
        self.writing = true;
        self.deadline = if now <= i64::MAX - TYPING_IDLE_MS {
            now + TYPING_IDLE_MS
        } else {
            i64::MAX
        };
    }

    /// The clock reads `now`: the writer role lapses once the deadline is
    /// reached.
    pub fn tick(&mut self, now: i64)
        ensures
            final(self).writing == (old(self).writing && now < old(self).deadline),
            final(self).deadline == old(self).deadline,
    {
        if now >= self.deadline {
            self.writing = false;
        }
    }

    /// The role the member's heartbeats report.
    pub fn role(&self) -> (r: Role)
        ensures
            r == (if self.writing { Role::Writer } else { Role::Reader }),
    {
        if self.writing {
            Role::Writer
        } else {
            Role::Reader
        }
    }
}

/// The names of `s` in order, separated by " and ".
pub open spec fn names_joined(s: Seq<Person>) -> Seq<char>
    decreases s.len(),
{
    if s.len() == 0 {
        Seq::empty()
    } else if s.len() == 1 {
        s[0].name@
    } else {
        names_joined(s.drop_last()) + " and "@ + s.last().name@
    }
}

/// The animated dots after "writing", one to three of them.
pub open spec fn dot_frame(tick: usize) -> Seq<char> {
    if tick % 3 == 0 {
        "."@
    } else if tick % 3 == 1 {
        ".."@
    } else {
        "..."@
    }
}

/// The status line of a group: its writers if anyone writes, else its
/// readers, else that no one is here.
pub open spec fn status_line(readers: Seq<Person>, writers: Seq<Person>, tick: usize) -> Seq<char> {
    if writers.len() > 0 {
        names_joined(writers) + (if writers.len() == 1 {
            " is writing"@
        } else {
            " are writing"@
        }) + dot_frame(tick)
    } else if readers.len() > 0 {
        names_joined(readers) + (if readers.len() == 1 {
            " is looking"@
        } else {
            " are looking"@
        })
    } else {
        "No one is here"@
    }
}

fn join_names(list: &Vec<Person>) -> (r: String)
    ensures
        r@ == names_joined(list@),
{
    let mut out = String::new();
    let mut i: usize = 0;
    while i < list.len()
        invariant
            i <= list.len(),
            out@ == names_joined(list@.subrange(0, i as int)),
        decreases list.len() - i,
    {
        assert(list@.subrange(0, i + 1).drop_last() =~= list@.subrange(0, i as int));
        if i > 0 {
            out.append(" and ");
        }
        out.append(list[i].name.as_str());
        i = i + 1;
    }
    assert(list@.subrange(0, list.len() as int) =~= list@);
    out
}

/// The status line for the active `readers` and `writers`; `tick` picks the
/// frame of the dots.
pub fn status_text(readers: &Vec<Person>, writers: &Vec<Person>, tick: usize) -> (r: String)
    ensures
        r@ == status_line(readers@, writers@, tick),
{
    if writers.len() > 0 {
        let mut out = join_names(writers);
        if writers.len() == 1 {
            out.append(" is writing");
        } else {
            out.append(" are writing");
        }
        if tick % 3 == 0 {
            out.append(".");
        } else if tick % 3 == 1 {
            out.append("..");
        } else {
            out.append("...");
        }
        out
    } else if readers.len() > 0 {
        let mut out = join_names(readers);
        if readers.len() == 1 {
            out.append(" is looking");
        } else {
            out.append(" are looking");
        }
        out
    } else {
        <String as StringExecFns>::from_str("No one is here")
    }
}

/// The presence of nobody.
pub open spec fn empty_presence() -> PresenceView {
    PresenceView { readers: Seq::empty(), writers: Seq::empty() }
}

/// The presence entries of group `g` among `boards`.
pub open spec fn board_of(boards: Seq<(u128, PresenceView)>, g: u128) -> PresenceView {
    if exists|i: int| 0 <= i < boards.len() && (#[trigger] boards[i]).0 == g {
        boards[choose|i: int| 0 <= i < boards.len() && (#[trigger] boards[i]).0 == g].1
    } else {
        empty_presence()
    }
}

/// Whether no group occurs twice among `boards`, and each board is well
/// formed.
pub open spec fn boards_wf(boards: Seq<(u128, PresenceView)>) -> bool {
    &&& forall|i: int, j: int| 0 <= i < j < boards.len() ==> boards[i].0 != boards[j].0
    &&& forall|i: int| 0 <= i < boards.len() ==> (#[trigger] boards[i]).1.wf()
}

proof fn lemma_board_at(boards: Seq<(u128, PresenceView)>, i: int)
    requires
        boards_wf(boards),
        0 <= i < boards.len(),
    ensures
        board_of(boards, boards[i].0) == boards[i].1,
{
    let g = boards[i].0;
    let c = choose|c: int| 0 <= c < boards.len() && (#[trigger] boards[c]).0 == g;
    if c != i {
        if c < i {
            assert(boards[c].0 != boards[i].0);
        } else {
            assert(boards[i].0 != boards[c].0);
        }
    }
}

struct GroupPresence {
    group_id: u128,
    board: ReadersAndWriters,
}

/// The presence entries of every group, one board per group that has had a
/// heartbeat.
pub struct PresenceRegistry {
    boards: Vec<GroupPresence>,
}

impl View for PresenceRegistry {
    type V = Seq<(u128, PresenceView)>;

    closed spec fn view(&self) -> Seq<(u128, PresenceView)> {
        self.boards@.map_values(|b: GroupPresence| (b.group_id, b.board@))
    }
}

impl PresenceRegistry {
    /// A registry where nobody is present anywhere.
    pub fn new() -> (r: PresenceRegistry)
        ensures
            boards_wf(r@),
            forall|g: u128| board_of(r@, g) == empty_presence(),
    {
        PresenceRegistry { boards: Vec::new() }
    }

    /// Records a heartbeat of `name` in `role` at time `now` in group
    /// `group_id`; the boards of other groups do not change.
    pub fn heartbeat(&mut self, group_id: u128, name: String, role: Role, now: i64)
        requires
            boards_wf(old(self)@),
        ensures
            boards_wf(final(self)@),
            board_of(final(self)@, group_id) == board_of(old(self)@, group_id).after_heartbeat(
                Person { name, last_activity: now },
                role,
            ),
            forall|h: u128| h != group_id ==> board_of(final(self)@, h) == board_of(old(self)@, h),
    {
        let ghost me = Person { name, last_activity: now };
        let mut i: usize = 0;
        while i < self.boards.len()
            invariant
                i <= self.boards.len(),
                self@ == old(self)@,
                me == (Person { name, last_activity: now }),
                boards_wf(self@),
                forall|k: int| 0 <= k < i ==> self@[k].0 != group_id,
            decreases self.boards.len() - i,
        {
            if self.boards[i].group_id == group_id {
                proof {
                    assert(self@[i as int].0 == group_id);
                    lemma_board_at(self@, i as int);
                }
                let ghost before = self@;
                assert(self.boards@[i as int].board@ == before[i as int].1);
                assert(before[i as int].1.wf());
                let mut board = ReadersAndWriters::new();
                std::mem::swap(&mut self.boards[i].board, &mut board);
                assert(board@ == before[i as int].1);
                board.heartbeat(name, role, now);
                std::mem::swap(&mut self.boards[i].board, &mut board);
                proof {
                    let after = self@;
                    assert(after =~= before.update(
                        i as int,
                        (group_id, before[i as int].1.after_heartbeat(me, role)),
                    ));
                    assert(boards_wf(after));
                    lemma_board_at(after, i as int);
                    assert forall|h: u128| h != group_id implies board_of(after, h) == board_of(
                        before,
                        h,
                    ) by {
                        if exists|k: int| 0 <= k < before.len() && (#[trigger] before[k]).0 == h {
                            let k = choose|k: int| 0 <= k < before.len() && (#[trigger] before[k]).0 == h;
                            lemma_board_at(before, k);
                            assert(after[k] == before[k]);
                            lemma_board_at(after, k);
                        } else {
                            assert forall|k: int| 0 <= k < after.len() implies (#[trigger] after[k]).0 != h by {
                                assert(after[k].0 == before[k].0);
                            }
                        }
                    }
                }
                return;
            }
            i = i + 1;
        }
        let ghost before = self@;
        let mut board = ReadersAndWriters::new();
        proof {
            assert(board@.readers =~= empty_presence().readers);
            assert(board@.writers =~= empty_presence().writers);
        }
        board.heartbeat(name, role, now);
        self.boards.push(GroupPresence { group_id, board });
        proof {
            let after = self@;
            assert(after =~= before.push((group_id, empty_presence().after_heartbeat(me, role))));
            assert(!(exists|k: int| 0 <= k < before.len() && (#[trigger] before[k]).0 == group_id));
            assert(board_of(before, group_id) == empty_presence());
            assert(boards_wf(after));
            lemma_board_at(after, before.len() as int);
            assert forall|h: u128| h != group_id implies board_of(after, h) == board_of(before, h) by {
                if exists|k: int| 0 <= k < before.len() && (#[trigger] before[k]).0 == h {
                    let k = choose|k: int| 0 <= k < before.len() && (#[trigger] before[k]).0 == h;
                    lemma_board_at(before, k);
                    assert(after[k] == before[k]);
                    lemma_board_at(after, k);
                } else {
                    assert forall|k: int| 0 <= k < after.len() implies (#[trigger] after[k]).0 != h by {
                        if k < before.len() {
                            assert(after[k] == before[k]);
                        }
                    }
                }
            }
        }
    }

    /// The entries of `role` in group `group_id` that are active at time
    /// `now`.
    pub fn active(&self, group_id: u128, role: Role, now: i64) -> (r: Vec<Person>)
        requires
            boards_wf(self@),
        ensures
            r@ == board_of(self@, group_id).active(role, now),
    {
        let mut i: usize = 0;
        while i < self.boards.len()
            invariant
                i <= self.boards.len(),
                boards_wf(self@),
                forall|k: int| 0 <= k < i ==> self@[k].0 != group_id,
            decreases self.boards.len() - i,
        {
            if self.boards[i].group_id == group_id {
                proof {
                    assert(self@[i as int].0 == group_id);
                    lemma_board_at(self@, i as int);
                    assert(self.boards@[i as int].board@ == self@[i as int].1);
                }
                return self.boards[i].board.active(role, now);
            }
            i = i + 1;
        }
        proof {
            reveal(Seq::filter);
        }
        let out: Vec<Person> = Vec::new();
        proof {
            assert(empty_presence().of_role(role).filter(active_at(now)) =~= Seq::<Person>::empty());
        }
        out
    }
}

/// The entries of `s` whose name has not occurred before them, in order.
pub open spec fn first_of_each_name(s: Seq<Person>) -> Seq<Person>
    decreases s.len(),
{
    if s.len() == 0 {
        Seq::empty()
    } else {
        let before = first_of_each_name(s.drop_last());
        if has_name(before, s.last().name@) {
            before
        } else {
            before.push(s.last())
        }
    }
}

fn has_person(list: &Vec<Person>, name: &String) -> (r: bool)
    ensures
        r == has_name(list@, name@),
{
    let mut i: usize = 0;
    while i < list.len()
        invariant
            i <= list.len(),
            forall|k: int| 0 <= k < i ==> list@[k].name@ != name@,
        decreases list.len() - i,
    {
        if list[i].name == *name {
            assert(list@[i as int].name@ == name@);
            return true;
        }
        i = i + 1;
    }
    false
}

/// Everyone present in a group, readers first and then writers, each name
/// once: the people whose avatars the status bar shows.
pub fn present_people(readers: &Vec<Person>, writers: &Vec<Person>) -> (r: Vec<Person>)
    requires
        readers@.len() + writers@.len() <= usize::MAX,
    ensures
        r@ == first_of_each_name(readers@ + writers@),
{
    let ghost all = readers@ + writers@;
    let n = readers.len() + writers.len();
    let mut out: Vec<Person> = Vec::new();
    let mut i: usize = 0;
    while i < n
        invariant
            n == readers@.len() + writers@.len(),
            all == readers@ + writers@,
            i <= n,
            out@ == first_of_each_name(all.subrange(0, i as int)),
        decreases n - i,
    {
        let p = if i < readers.len() {
            &readers[i]
        } else {
            &writers[i - readers.len()]
        };
        assert(all[i as int] == *p);
        assert(all.subrange(0, i + 1).drop_last() =~= all.subrange(0, i as int));
        if !has_person(&out, &p.name) {
            out.push(p.clone());
        }
        i = i + 1;
    }
    assert(all.subrange(0, n as int) =~= all);
    out
}

/// After a heartbeat of `name` as a writer and then one as a reader, the
/// active writers never include `name`, at any time.
pub proof fn lemma_roles_exclusive(p: PresenceView, name: String, t1: i64, t2: i64, now: i64)
    ensures
        !has_name(
            p.after_heartbeat(Person { name, last_activity: t1 }, Role::Writer).after_heartbeat(
                Person { name, last_activity: t2 },
                Role::Reader,
            ).active(Role::Writer, now),
            name@,
        ),
{
    let q = p.after_heartbeat(Person { name, last_activity: t1 }, Role::Writer);
    let w = q.writers.filter(other_than(name@));
    let a = w.filter(active_at(now));
    if has_name(a, name@) {
        let i = choose|i: int| 0 <= i < a.len() && (#[trigger] a[i]).name@ == name@;
        assert(a.contains(a[i]));
        w.lemma_filter_contains_rev(active_at(now), a[i]);
        let k = choose|k: int| 0 <= k < w.len() && w[k] == a[i];
        q.writers.lemma_filter_pred(other_than(name@), k);
    }
}

/// An entry whose last heartbeat is 21 seconds old is not active; one whose
/// last heartbeat is 19 seconds old is.
pub proof fn lemma_staleness(p: PresenceView, role: Role, now: i64, who: Person)
    requires
        p.of_role(role).contains(who),
    ensures
        now - who.last_activity == 21_000 ==> !p.active(role, now).contains(who),
        now - who.last_activity == 19_000 ==> p.active(role, now).contains(who),
{
    let s = p.of_role(role);
    let a = s.filter(active_at(now));
    if a.contains(who) {
        let i = choose|i: int| 0 <= i < a.len() && a[i] == who;
        s.lemma_filter_pred(active_at(now), i);
    }
    let k = choose|k: int| 0 <= k < s.len() && s[k] == who;
    if now - who.last_activity == 19_000 {
        s.lemma_filter_contains(active_at(now), k);
    }
}

/// A name found in a filtered sequence is found in the sequence.
proof fn lemma_filter_has_name(s: Seq<Person>, pred: spec_fn(Person) -> bool, n: Seq<char>)
    requires
        has_name(s.filter(pred), n),
    ensures
        has_name(s, n),
{
    let f = s.filter(pred);
    let i = choose|i: int| 0 <= i < f.len() && (#[trigger] f[i]).name@ == n;
    assert(f.contains(f[i]));
    s.lemma_filter_contains_rev(pred, f[i]);
    let k = choose|k: int| 0 <= k < s.len() && s[k] == f[i];
    assert(s[k].name@ == n);
}

/// A name other than that of `p` found in `s.push(p)` is found in `s`.
proof fn lemma_push_has_name(s: Seq<Person>, p: Person, n: Seq<char>)
    requires
        has_name(s.push(p), n),
        n != p.name@,
    ensures
        has_name(s, n),
{
    let t = s.push(p);
    let i = choose|i: int| 0 <= i < t.len() && (#[trigger] t[i]).name@ == n;
    assert(s[i].name@ == n);
}

/// Filtering keeps names unique.
proof fn lemma_filter_unique(s: Seq<Person>, pred: spec_fn(Person) -> bool)
    requires
        names_unique(s),
    ensures
        names_unique(s.filter(pred)),
    decreases s.len(),
{
    reveal(Seq::filter);
    if s.len() > 0 {
        lemma_filter_unique(s.drop_last(), pred);
        broadcast use Seq::lemma_filter_contains_rev;
        let f = s.drop_last().filter(pred);
        if pred(s.last()) {
            assert forall|i: int, j: int| 0 <= i < j < f.len() + 1 implies f.push(s.last())[i].name@ != f.push(s.last())[j].name@ by {
                if j == f.len() {
                    assert(f.contains(f[i]));
                    s.drop_last().lemma_filter_contains_rev(pred, f[i]);
                    let k = choose|k: int| 0 <= k < s.len() - 1 && s.drop_last()[k] == f[i];
                    assert(s[k] == f[i]);
                }
            }
        }
    }
}

} // verus!
