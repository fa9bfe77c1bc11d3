//! The conversation a client shows: history fetched page by page, newest
//! pages first, and live messages, merged into one sequence ordered oldest
//! first in which no message identifier occurs twice.
use vstd::prelude::*;
use crate::broker::SentChatMessage;
use crate::domain::Message;

verus! {

/// Who sent a message, as seen by the viewer.
#[derive(Debug)]
pub enum ChatSender {
    /// The viewer sent it.
    Sent,
    /// Someone else sent it: their name.
    Received(String),
}

impl Clone for ChatSender {
    fn clone(&self) -> (r: Self)
        ensures
            r == *self,
    {
        match self {
            ChatSender::Sent => ChatSender::Sent,
            ChatSender::Received(n) => ChatSender::Received(n.clone()),
        }
    }
}

/// A message as the viewer sees it.
#[derive(Debug)]
pub struct ChatMessage {
    pub id: u128,
    pub text: String,
    pub time: i64,
    pub sender: ChatSender,
}

impl Clone for ChatMessage {
    fn clone(&self) -> (r: Self)
        ensures
            r == *self,
    {
        ChatMessage {
            id: self.id,
            text: self.text.clone(),
            time: self.time,
            sender: self.sender.clone(),
        }
    }
}

/// The sender of a message by `author`, as seen by `viewer`.
pub open spec fn sender_seen(author: String, viewer: Option<String>) -> ChatSender {
    if viewer matches Some(v) && v@ == author@ {
        ChatSender::Sent
    } else {
        ChatSender::Received(author)
    }
}

/// How `viewer` sees a message written by `author`.
pub fn classify_sender(author: &String, viewer: Option<&String>) -> (r: ChatSender)
    ensures
        r == sender_seen(*author, match viewer {
            Some(v) => Some(*v),
            None => None,
        }),
{
    match viewer {
        Some(v) => {
            if *v == *author {
                ChatSender::Sent
            } else {
                ChatSender::Received(author.clone())
            }
        },
        None => ChatSender::Received(author.clone()),
    }
}

/// A stored message of `author` as `viewer` sees it.
pub fn from_stored(message: &Message, author: &String, viewer: &String) -> (r: ChatMessage)
    ensures
        r == (ChatMessage {
            id: message.id,
            text: message.content,
            time: message.created_at,
            sender: sender_seen(*author, Some(*viewer)),
        }),
{
    ChatMessage {
        id: message.id,
        text: message.content.clone(),
        time: message.created_at,
        sender: classify_sender(author, Some(viewer)),
    }
}

/// A live message as `viewer` sees it; a viewer whose name is unknown sees
/// every message as received.
pub fn from_live(message: &SentChatMessage, viewer: Option<&String>) -> (r: ChatMessage)
    ensures
        r == (ChatMessage {
            id: message.id,
            text: message.text,
            time: message.time,
            sender: sender_seen(message.username, match viewer {
                Some(v) => Some(*v),
                None => None,
            }),
        }),
{
    ChatMessage {
        id: message.id,
        text: message.text.clone(),
        time: message.time,
        sender: classify_sender(&message.username, viewer),
    }
}

/// Whether some message of `s` has identifier `id`.
pub open spec fn has_chat_id(s: Seq<ChatMessage>, id: u128) -> bool {
    exists|i: int| 0 <= i < s.len() && (#[trigger] s[i]).id == id
}

/// Whether no two messages of `s` share an identifier.
pub open spec fn chat_ids_unique(s: Seq<ChatMessage>) -> bool {
    forall|i: int, j: int| 0 <= i < j < s.len() ==> s[i].id != s[j].id
}

/// A page that the store serves newest first, put oldest first.
pub open spec fn oldest_first(page: Seq<ChatMessage>) -> Seq<ChatMessage> {
    Seq::new(page.len(), |i: int| page[page.len() - 1 - i])
}

/// The messages of `asc`, in order, whose identifiers are neither in `known`
/// nor taken by an earlier message of `asc`.
pub open spec fn fresh(asc: Seq<ChatMessage>, known: Seq<ChatMessage>) -> Seq<ChatMessage>
    decreases asc.len(),
{
    if asc.len() == 0 {
        Seq::empty()
    } else {
        let before = fresh(asc.drop_last(), known);
        if has_chat_id(known + before, asc.last().id) {
            before
        } else {
            before.push(asc.last())
        }
    }
}

/// Whether the times of `s` never go back.
pub open spec fn sorted_by_time(s: Seq<ChatMessage>) -> bool {
    forall|i: int, j: int| 0 <= i < j < s.len() ==> s[i].time <= s[j].time
}

/// The fresh messages of `asc` are messages of `asc`, and in time order where
/// `asc` is.
proof fn lemma_fresh_sorted(asc: Seq<ChatMessage>, known: Seq<ChatMessage>)
    ensures
        forall|i: int| 0 <= i < fresh(asc, known).len() ==> asc.contains(#[trigger] fresh(asc, known)[i]),
        sorted_by_time(asc) ==> sorted_by_time(fresh(asc, known)),
    decreases asc.len(),
{
    if asc.len() > 0 {
        let rest = asc.drop_last();
        lemma_fresh_sorted(rest, known);
        let before = fresh(rest, known);
        assert forall|i: int| 0 <= i < before.len() implies asc.contains(#[trigger] before[i]) by {
            assert(rest.contains(before[i]));
            let k = choose|k: int| 0 <= k < rest.len() && rest[k] == before[i];
            assert(asc[k] == before[i]);
        }
        if sorted_by_time(asc) {
            assert forall|i: int| 0 <= i < before.len() implies #[trigger] before[i].time <= asc.last().time by {
                assert(rest.contains(before[i]));
                let k = choose|k: int| 0 <= k < rest.len() && rest[k] == before[i];
                assert(asc[k] == before[i]);
            }
            assert(sorted_by_time(rest));
        }
        assert(asc.contains(asc.last()) ) by { assert(asc[asc.len() - 1] == asc.last()); }
    }
}

/// Merging keeps a conversation in time order. Where the messages shown are
/// in time order and a page served newest first is in time order, no message
/// of it newer than the oldest shown, the page put in front leaves them in
/// time order; and a live message no older than the newest shown, appended,
/// leaves them in time order.
pub proof fn lemma_merge_in_time_order(shown: Seq<ChatMessage>, page: Seq<ChatMessage>, live: ChatMessage)
    requires
        sorted_by_time(shown),
        sorted_by_time(oldest_first(page)),
    ensures
        (forall|i: int| 0 <= i < page.len() && shown.len() > 0 ==> #[trigger] page[i].time <= shown[0].time)
            ==> sorted_by_time(fresh(oldest_first(page), shown) + shown),
        (shown.len() > 0 ==> shown.last().time <= live.time) ==> sorted_by_time(shown.push(live)),
{
    let asc = oldest_first(page);
    lemma_fresh_sorted(asc, shown);
    let f = fresh(asc, shown);
    if forall|i: int| 0 <= i < page.len() && shown.len() > 0 ==> #[trigger] page[i].time <= shown[0].time {
        let all = f + shown;
        assert forall|i: int, j: int| 0 <= i < j < all.len() implies all[i].time <= all[j].time by {
            if i < f.len() && j >= f.len() {
                assert(asc.contains(f[i]));
                let k = choose|k: int| 0 <= k < asc.len() && asc[k] == f[i];
                assert(asc[k] == page[page.len() - 1 - k]);
                assert(all[j] == shown[j - f.len()]);
                if j - f.len() > 0 {
                    assert(shown[0].time <= shown[j - f.len()].time);
                }
            } else if i >= f.len() {
                assert(all[i] == shown[i - f.len()]);
                assert(all[j] == shown[j - f.len()]);
            }
        }
    }
    if shown.len() > 0 ==> shown.last().time <= live.time {
        let t = shown.push(live);
        assert forall|i: int, j: int| 0 <= i < j < t.len() implies t[i].time <= t[j].time by {
            if j == shown.len() && i < shown.len() - 1 {
                assert(shown[i].time <= shown[shown.len() - 1].time);
            }
        }
    }
}

/// Merging never shows an identifier twice: where the messages shown have
/// unique identifiers, putting the fresh messages of any page in front keeps
/// them unique, and so does appending a live message whose identifier is
/// not shown. Every operation of a conversation is one of these two steps,
/// so any interleaving of first page, older pages and live messages keeps
/// identifiers unique.
pub proof fn lemma_merge_keeps_ids_distinct(
    shown: Seq<ChatMessage>,
    page: Seq<ChatMessage>,
    live: ChatMessage,
)
    requires
        chat_ids_unique(shown),
    ensures
        chat_ids_unique(fresh(oldest_first(page), shown) + shown),
        !has_chat_id(shown, live.id) ==> chat_ids_unique(shown.push(live)),
{
    let f = fresh(oldest_first(page), shown);
    lemma_fresh_unique(oldest_first(page), shown);
    let all = f + shown;
    assert forall|i: int, j: int| 0 <= i < j < all.len() implies all[i].id != all[j].id by {
        if i < f.len() && j >= f.len() {
            assert(all[j] == shown[j - f.len()]);
            assert(!has_chat_id(shown, f[i].id));
        } else if i >= f.len() {
            assert(all[i] == shown[i - f.len()]);
            assert(all[j] == shown[j - f.len()]);
        }
    }
    if !has_chat_id(shown, live.id) {
        let t = shown.push(live);
        assert forall|i: int, j: int| 0 <= i < j < t.len() implies t[i].id != t[j].id by {
            if j == shown.len() {
                assert(t[i] == shown[i]);
            }
        }
    }
}

/// What a conversation is: the messages shown, oldest first; how many of the
/// group's newest messages it covers; the page size; and whether the oldest
/// history has been reached.
pub struct ConversationView {
    pub messages: Seq<ChatMessage>,
    pub offset: nat,
    pub page_size: nat,
    pub exhausted: bool,
}

/// One client's view of a group's messages.
pub struct Conversation {
    messages: Vec<ChatMessage>,
    offset: usize,
    page_size: usize,
    exhausted: bool,
}

impl View for Conversation {
    type V = ConversationView;

    closed spec fn view(&self) -> ConversationView {
        ConversationView {
            messages: self.messages@,
            offset: self.offset as nat,
            page_size: self.page_size as nat,
            exhausted: self.exhausted,
        }
    }
}

fn contains_id(v: &Vec<ChatMessage>, id: u128) -> (r: bool)
    ensures
        r == has_chat_id(v@, id),
{
    let mut i: usize = 0;
    while i < v.len()
        invariant
            i <= v.len(),
            forall|k: int| 0 <= k < i ==> v@[k].id != id,
        decreases v.len() - i,
    {
        if v[i].id == id {
            assert(v@[i as int].id == id);
            return true;
        }
        i = i + 1;
    }
    false
}

proof fn lemma_has_chat_id_concat(a: Seq<ChatMessage>, b: Seq<ChatMessage>, id: u128)
    ensures
        has_chat_id(a + b, id) == (has_chat_id(a, id) || has_chat_id(b, id)),
{
    if has_chat_id(a + b, id) {
        let i = choose|i: int| 0 <= i < (a + b).len() && (#[trigger] (a + b)[i]).id == id;
        if i >= a.len() {
            assert(b[i - a.len()] == (a + b)[i]);
        }
    }
    if has_chat_id(b, id) {
        let j = choose|j: int| 0 <= j < b.len() && (#[trigger] b[j]).id == id;
        assert((a + b)[a.len() + j] == b[j]);
    }
    if has_chat_id(a, id) {
        let j = choose|j: int| 0 <= j < a.len() && (#[trigger] a[j]).id == id;
        assert((a + b)[j] == a[j]);
    }
}

/// The fresh messages have unique identifiers, none of them in `known`.
proof fn lemma_fresh_unique(asc: Seq<ChatMessage>, known: Seq<ChatMessage>)
    ensures
        chat_ids_unique(fresh(asc, known)),
        forall|i: int|
            0 <= i < fresh(asc, known).len() ==> !has_chat_id(known, #[trigger] fresh(asc, known)[i].id),
    decreases asc.len(),
{
    if asc.len() > 0 {
        lemma_fresh_unique(asc.drop_last(), known);
        let before = fresh(asc.drop_last(), known);
        lemma_has_chat_id_concat(known, before, asc.last().id);
        if !has_chat_id(known + before, asc.last().id) {
            let f = before.push(asc.last());
            assert forall|i: int, j: int| 0 <= i < j < f.len() implies f[i].id != f[j].id by {
                if j == before.len() {
                    assert(before[i] == f[i]);
                }
            }
        }
    }
}

impl Conversation {
    pub open spec fn wf(&self) -> bool {
        chat_ids_unique(self@.messages)
    }

    /// An empty conversation that fetches `page_size` messages at a time.
    pub fn new(page_size: usize) -> (r: Conversation)
        ensures
            r.wf(),
            r@ == (ConversationView {
                messages: Seq::empty(),
                offset: 0,
                page_size: page_size as nat,
                exhausted: false,
            }),
    {
        Conversation { messages: Vec::new(), offset: 0, page_size, exhausted: false }
    }

    /// The number of the group's newest messages covered, the offset of the
    /// next page to fetch.
    pub fn offset(&self) -> (r: usize)
        ensures
            r == self@.offset,
    {
        self.offset
    }

    /// Whether a page shorter than the page size has shown that no older
    /// history exists.
    pub fn is_exhausted(&self) -> (r: bool)
        ensures
            r == self@.exhausted,
    {
        self.exhausted
    }

    /// The messages shown, oldest first.
    pub fn messages(&self) -> (r: &Vec<ChatMessage>)
        ensures
            r@ == self@.messages,
    {
        &self.messages
    }

    /// The messages of `asc` whose identifiers are new, in order.
    fn fresh_of(&self, page: &Vec<ChatMessage>) -> (r: Vec<ChatMessage>)
        ensures
            r@ == fresh(oldest_first(page@), self@.messages),
    {
        let ghost asc = oldest_first(page@);
        let n = page.len();
        let mut out: Vec<ChatMessage> = Vec::new();
        let mut i: usize = 0;
        while i < n
            invariant
                n == page.len(),
                i <= n,
                asc == oldest_first(page@),
                out@ == fresh(asc.subrange(0, i as int), self@.messages),
            decreases n - i,
        {
            let m = &page[n - 1 - i];
            assert(asc.subrange(0, i + 1).drop_last() =~= asc.subrange(0, i as int));
            assert(asc.subrange(0, i + 1).last() == *m);
            let seen = contains_id(&self.messages, m.id) || contains_id(&out, m.id);
            proof {
                lemma_has_chat_id_concat(self@.messages, out@, m.id);
            }
            if !seen {
                out.push(m.clone());
            }
            i = i + 1;
        }
        assert(asc.subrange(0, n as int) =~= asc);
        out
    }

    /// Puts a page of older history, served newest first, in front of the
    /// messages shown, oldest first and without messages already shown. The
    /// offset advances by the length of the page, and a page shorter than
    /// the page size marks the history as exhausted.
    pub fn prepend_page(&mut self, page: Vec<ChatMessage>)
        requires
            old(self).wf(),
            old(self)@.offset + page@.len() <= usize::MAX,
        ensures
            final(self).wf(),
            final(self)@ == (ConversationView {
                messages: fresh(oldest_first(page@), old(self)@.messages) + old(self)@.messages,
                offset: old(self)@.offset + page@.len(),
                exhausted: old(self)@.exhausted || page@.len() < old(self)@.page_size,
                ..old(self)@
            }),
    {
        let mut front = self.fresh_of(&page);
        proof {
            lemma_fresh_unique(oldest_first(page@), self@.messages);
        }
        let ghost f = front@;
        let ghost old_msgs = self@.messages;
        let mut rest: Vec<ChatMessage> = Vec::new();
        std::mem::swap(&mut self.messages, &mut rest);
        front.append(&mut rest);
        self.messages = front;
        self.offset = self.offset + page.len();
        if page.len() < self.page_size {
            self.exhausted = true;
        }
        proof {
            let all = f + old_msgs;
            assert(self@.messages == all);
            assert forall|i: int, j: int| 0 <= i < j < all.len() implies all[i].id != all[j].id by {
                if i < f.len() && j >= f.len() {
                    assert(all[j] == old_msgs[j - f.len()]);
                    assert(!has_chat_id(old_msgs, f[i].id));
                } else if i >= f.len() {
                    assert(all[i] == old_msgs[i - f.len()]);
                    assert(all[j] == old_msgs[j - f.len()]);
                }
            }
        }
    }

    /// Shows the initial page of history, served newest first, in place of
    /// the messages shown, and covers that many messages.
    pub fn apply_initial(&mut self, page: Vec<ChatMessage>)
        ensures
            final(self).wf(),
            final(self)@ == (ConversationView {
                messages: fresh(oldest_first(page@), Seq::empty()),
                offset: page@.len(),
                exhausted: page@.len() < old(self)@.page_size,
                ..old(self)@
            }),
    {
        self.messages = Vec::new();
        self.offset = 0;
        self.exhausted = false;
        assert(page@.len() == page.len());
        self.prepend_page(page);
    }

    /// Appends a live message unless its identifier is already shown; a
    /// message appended is one more of the group's newest messages covered.
    /// Returns whether it was appended.
    pub fn push_live(&mut self, message: ChatMessage) -> (r: bool)
        requires
            old(self).wf(),
            old(self)@.offset < usize::MAX,
        ensures
            final(self).wf(),
            r == !has_chat_id(old(self)@.messages, message.id),
            r ==> final(self)@ == (ConversationView {
                messages: old(self)@.messages.push(message),
                offset: old(self)@.offset + 1,
                ..old(self)@
            }),
            !r ==> final(self)@ == old(self)@,
    {
        if contains_id(&self.messages, message.id) {
            false
        } else {
            let ghost m = message;
            self.messages.push(message);
            self.offset = self.offset + 1;
            proof {
                assert forall|i: int, j: int|
                    0 <= i < j < self@.messages.len() implies self@.messages[i].id
                    != self@.messages[j].id by {
                    if j == old(self)@.messages.len() {
                        assert(self@.messages[i] == old(self)@.messages[i]);
                    }
                }
            }
            true
        }
    }
}

} // verus!
