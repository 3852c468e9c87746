//! The chat log: join, leave and chat messages, newest kept, read back a
//! page at a time with the most recent first.
use vstd::prelude::*;
use std::collections::VecDeque;

verus! {

/// How many messages the log keeps after an addition.
pub const MAX_MESSAGES: usize = 10000;
/// How many messages one page holds.
pub const PER_PAGE: u32 = 50;

#[derive(Debug, Clone, Copy, PartialEq, Eq, Structural)]
pub enum MessageType {
    Chat,
    Join,
    Leave,
}

#[derive(Debug)]
pub struct Message {
    pub id: String,
    pub player_name: String,
    pub message_type: MessageType,
    pub content: String,
    /// Microseconds since the Unix epoch.
    pub timestamp: i64,
}

pub struct MessageV {
    pub id: Seq<char>,
    pub player_name: Seq<char>,
    pub message_type: MessageType,
    pub content: Seq<char>,
    pub timestamp: i64,
}

impl View for Message {
    type V = MessageV;

    open spec fn view(&self) -> MessageV {
        MessageV {
            id: self.id@,
            player_name: self.player_name@,
            message_type: self.message_type,
            content: self.content@,
            timestamp: self.timestamp,
        }
    }
}

impl Clone for Message {
    fn clone(&self) -> (r: Self)
        ensures
            r@ == self@,
    {
        Message {
            id: self.id.clone(),
            player_name: self.player_name.clone(),
            message_type: self.message_type,
            content: self.content.clone(),
            timestamp: self.timestamp,
        }
    }
}

#[derive(Debug)]
pub struct MessagePage {
    pub messages: Vec<Message>,
    pub page: u32,
    pub total_pages: u32,
    pub total_count: u32,
    pub per_page: u32,
}

/// The log after adding `x`: when it then holds more than the maximum, the
/// oldest message goes.
pub open spec fn log_push(s: Seq<MessageV>, x: MessageV) -> Seq<MessageV> {
    if s.len() + 1 > MAX_MESSAGES { s.push(x).drop_first() } else { s.push(x) }
}

pub open spec fn newest_first(s: Seq<MessageV>) -> Seq<MessageV> {
    Seq::new(s.len(), |k: int| s[s.len() - 1 - k])
}

pub open spec fn total_pages_of(count: nat) -> nat {
    (count + 49) / 50
}

/// The page actually shown when `page` is asked for.
pub open spec fn clamp_page(page: nat, total_pages: nat) -> nat {
    let hi = if total_pages >= 1 { total_pages } else { 1 };
    let lo = if page >= 1 { page } else { 1 };
    if lo <= hi { lo } else { hi }
}

/// The messages on page `p` (counting from one), most recent first.
pub open spec fn page_items(s: Seq<MessageV>, p: nat) -> Seq<MessageV> {
    let skip = ((p - 1) * 50) as int;
    let all = newest_first(s);
    let end = if skip + 50 <= all.len() { skip + 50 } else { all.len() as int };
    if skip <= end { all.subrange(skip, end) } else { Seq::empty() }
}

#[derive(Debug)]
pub struct MessageStore {
    msgs: VecDeque<Message>,
}

impl MessageStore {
    /// The messages, oldest first.
    pub closed spec fn messages(&self) -> Seq<MessageV> {
        self.msgs@.map_values(|m: Message| m@)
    }

    pub fn new() -> (s: MessageStore)
        ensures
            s.messages() == Seq::<MessageV>::empty(),
    {
        let s = MessageStore { msgs: VecDeque::new() };
        assert(s.messages() =~= Seq::<MessageV>::empty());
        s
    }

    /// A log holding exactly the given messages, oldest first.
    pub fn from_messages(v: Vec<Message>) -> (s: MessageStore)
        ensures
            s.messages() == v@.map_values(|m: Message| m@),
    {
        let mut d: VecDeque<Message> = VecDeque::new();
        let mut v = v;
        let ghost orig = v@;
        let n = v.len();
        let mut i: usize = 0;
        while i < n
            invariant
                n == orig.len(),
                i <= n,
                v@ == orig.subrange(i as int, n as int),
                d@ == orig.subrange(0, i as int),
            decreases n - i,
        {
            let m = v.remove(0);
            d.push_back(m);
            assert(d@ =~= orig.subrange(0, i + 1));
            i = i + 1;
        }
        let s = MessageStore { msgs: d };
        assert(orig.subrange(0, n as int) =~= orig);
        s
    }

    /// How many messages the log holds.
    pub fn len(&self) -> (n: usize)
        ensures
            n == self.messages().len(),
    {
        self.msgs.len()
    }

    /// The messages, oldest first, for saving.
    pub fn to_vec(&self) -> (v: Vec<Message>)
        ensures
            v@.map_values(|m: Message| m@) == self.messages(),
    {
        let mut v: Vec<Message> = Vec::new();
        let mut i: usize = 0;
        while i < self.msgs.len()
            invariant
                i <= self.msgs@.len(),
                v@.len() == i,
                forall|k: int| 0 <= k < i ==> (#[trigger] v@[k])@ == self.msgs@[k]@,
            decreases self.msgs@.len() - i,
        {
            v.push(self.msgs[i].clone());
            i = i + 1;
        }
        assert(v@.map_values(|m: Message| m@) =~= self.messages());
        v
    }

    /// Record a message with id `id` and time `ts`; returns it.
    pub fn add_at(&mut self, player_name: String, message_type: MessageType, content: String, id: String, ts: i64) -> (m: Message)
        ensures
            m@ == (MessageV { id: id@, player_name: player_name@, message_type, content: content@, timestamp: ts }),
            final(self).messages() == log_push(old(self).messages(), m@),
    {
        let message = Message { id, player_name, message_type, content, timestamp: ts };
        let copy = message.clone();
        let ghost before = self.msgs@;
        self.msgs.push_back(copy);
        if self.msgs.len() > MAX_MESSAGES {
            self.msgs.pop_front();
        }
        proof {
            let f = |m: Message| m@;
            if before.len() + 1 > MAX_MESSAGES {
                assert(self.messages() =~= before.map_values(f).push(message@).drop_first());
            } else {
                assert(self.messages() =~= before.map_values(f).push(message@));
            }
        }
        message
    }

    /// Record a message under a fresh random id, stamped with the current time.
    pub fn add(&mut self, player_name: String, message_type: MessageType, content: String) -> (m: Message)
        ensures
            m@.player_name == player_name@,
            m@.message_type == message_type,
            m@.content == content@,
            crate::ids::is_hyphenated_uuid(m@.id),
            final(self).messages() == log_push(old(self).messages(), m@),
    {
        let id = crate::ids::random_uuid();
        let ts = crate::clock::now_micros();
        self.add_at(player_name, message_type, content, id, ts)
    }

    /// Page `page` of the log, fifty messages a page, most recent first; a
    /// page number out of range is brought into range.
    /// The counts are 32-bit: the page count is reckoned as
    /// `(count + 50 - 1) / 50`, so `count + 50` must fit in a `u32`.
    pub fn get_page(&self, page: u32) -> (r: MessagePage)
        requires
            self.messages().len() + 50 <= u32::MAX,
        ensures
            r.total_count == self.messages().len(),
            r.total_pages == total_pages_of(self.messages().len()),
            r.page == clamp_page(page as nat, r.total_pages as nat),
            r.per_page == PER_PAGE,
            r.messages@.map_values(|m: Message| m@) == page_items(self.messages(), r.page as nat),
    {
        let len = self.msgs.len();
        assert(self.msgs@.len() == self.messages().len());
        let total_count: u32 = len as u32;
        assert(total_count == len);
        let total_pages: u32 = (total_count + PER_PAGE - 1) / PER_PAGE;
        let hi: u32 = if total_pages >= 1 { total_pages } else { 1 };
        let lo: u32 = if page >= 1 { page } else { 1 };
        let p: u32 = if lo <= hi { lo } else { hi };
        assert(p >= 1);
        assert(p as int <= (len as int + 49) / 50 || p == 1);
        assert((p - 1) * 50 <= len as int) by (nonlinear_arith)
            requires
                p >= 1,
                p <= (len + 49) / 50 || p == 1,
        ;
        let skip: usize = ((p - 1) * PER_PAGE) as usize;
        let end: usize = if skip + 50 <= len { skip + 50 } else { len };
        let mut out: Vec<Message> = Vec::new();
        let mut k: usize = skip;
        while k < end
            invariant
                len == self.msgs@.len(),
                skip <= k <= end <= len,
                out@.len() == k - skip,
                forall|j: int| 0 <= j < k - skip ==> (#[trigger] out@[j])@ == self.msgs@[len - 1 - (skip + j)]@,
            decreases end - k,
        {
            out.push(self.msgs[len - 1 - k].clone());
            k = k + 1;
        }
        assert(out@.map_values(|m: Message| m@) =~= page_items(self.messages(), p as nat));
        MessagePage { messages: out, page: p, total_pages, total_count, per_page: PER_PAGE }
    }

    /// Every message, most recent first.
    pub fn list_all(&self) -> (r: Vec<Message>)
        ensures
            r@.map_values(|m: Message| m@) == newest_first(self.messages()),
    {
        let len = self.msgs.len();
        let mut out: Vec<Message> = Vec::new();
        let mut k: usize = 0;
        while k < len
            invariant
                len == self.msgs@.len(),
                k <= len,
                out@.len() == k,
                forall|j: int| 0 <= j < k ==> (#[trigger] out@[j])@ == self.msgs@[len - 1 - j]@,
            decreases len - k,
        {
            out.push(self.msgs[len - 1 - k].clone());
            k = k + 1;
        }
        assert(out@.map_values(|m: Message| m@) =~= newest_first(self.messages()));
        out
    }
}

/// Adding to a log that is within its bound keeps it within its bound, and
/// the new message is the newest.
pub proof fn law_log_bounded(s: Seq<MessageV>, x: MessageV)
    requires
        s.len() <= MAX_MESSAGES,
    ensures
        log_push(s, x).len() <= MAX_MESSAGES,
        log_push(s, x).last() == x,
        newest_first(log_push(s, x))[0] == x,
{
}

/// Every message appears on exactly the page its recency puts it on: the
/// pages, read in order, give the whole log most recent first.
pub proof fn law_pages_cover(s: Seq<MessageV>, k: int)
    requires
        0 <= k < s.len(),
    ensures
        ({
            let p = (k / 50 + 1) as nat;
            &&& 1 <= p <= total_pages_of(s.len())
            &&& clamp_page(p, total_pages_of(s.len())) == p
            &&& page_items(s, p)[k % 50] == newest_first(s)[k]
        }),
{
    let p = (k / 50 + 1) as nat;
    assert(k / 50 * 50 + k % 50 == k) by (nonlinear_arith) requires k >= 0;
    assert(p <= total_pages_of(s.len())) by (nonlinear_arith)
        requires p == k / 50 + 1, 0 <= k < s.len(), k / 50 * 50 + k % 50 == k, 0 <= k % 50 < 50;
    assert(((p - 1) * 50) as int == k / 50 * 50) by (nonlinear_arith) requires p == k / 50 + 1;
}

/// A page never holds more than fifty messages.
pub proof fn law_page_size(s: Seq<MessageV>, p: nat)
    requires
        p >= 1,
    ensures
        page_items(s, p).len() <= 50,
{
}

} // verus!
