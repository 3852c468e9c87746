//! The console: a bounded buffer of the server's output lines, each with a
//! sequence number. Writing the log file and broadcasting lines to the
//! browser are done by the program around the library.
use vstd::prelude::*;
use std::collections::VecDeque;

verus! {

#[derive(Debug)]
pub struct ConsoleLine {
    pub seq: u64,
    /// Microseconds since the Unix epoch.
    pub ts: i64,
    /// "stdout", "stderr" or "system".
    pub stream: &'static str,
    pub line: String,
}

pub struct ConsoleLineV {
    pub seq: u64,
    pub ts: i64,
    pub stream: Seq<char>,
    pub line: Seq<char>,
}

impl View for ConsoleLine {
    type V = ConsoleLineV;

    open spec fn view(&self) -> ConsoleLineV {
        ConsoleLineV { seq: self.seq, ts: self.ts, stream: self.stream@, line: self.line@ }
    }
}

impl Clone for ConsoleLine {
    fn clone(&self) -> (r: Self)
        ensures
            r@ == self@,
    {
        ConsoleLine { seq: self.seq, ts: self.ts, stream: self.stream, line: self.line.clone() }
    }
}

/// The buffer after appending `x`: when it is full, the oldest line goes.
pub open spec fn bounded_push<A>(s: Seq<A>, cap: nat, x: A) -> Seq<A> {
    if s.len() == cap && s.len() > 0 {
        s.drop_first().push(x)
    } else {
        s.push(x)
    }
}

/// The last `n` items of `s` (all of them when there are fewer).
pub open spec fn tail_of<A>(s: Seq<A>, n: nat) -> Seq<A> {
    if n >= s.len() { s } else { s.subrange(s.len() - n, s.len() as int) }
}

/// The lines carry consecutive sequence numbers ending just before `next`.
pub open spec fn seqs_consecutive(s: Seq<ConsoleLineV>, next: nat) -> bool {
    forall|i: int| 0 <= i < s.len() ==> (#[trigger] s[i]).seq + s.len() - i == next
}

#[derive(Debug)]
pub struct ConsoleBuffer {
    buf: VecDeque<ConsoleLine>,
    cap: usize,
    next_seq: u64,
}

impl ConsoleBuffer {
    /// The buffered lines, oldest first.
    pub closed spec fn lines(&self) -> Seq<ConsoleLineV> {
        self.buf@.map_values(|l: ConsoleLine| l@)
    }

    pub closed spec fn cap(&self) -> nat {
        self.cap as nat
    }

    /// The sequence number the next line gets.
    pub closed spec fn next_seq(&self) -> nat {
        self.next_seq as nat
    }

    /// An empty console keeping up to `cap` lines; numbering starts at 1.
    /// The buffer never holds more lines than its capacity (a capacity of
    /// zero bounds nothing), and its lines are numbered consecutively up to
    /// the next number to hand out.
    pub open spec fn wf(&self) -> bool {
        &&& (self.cap() == 0 || self.lines().len() <= self.cap())
        &&& seqs_consecutive(self.lines(), self.next_seq())
    }

    pub fn new(cap: usize) -> (c: ConsoleBuffer)
        ensures
            c.wf(),
            c.lines() == Seq::<ConsoleLineV>::empty(),
            c.cap() == cap,
            c.next_seq() == 1,
    {
        let c = ConsoleBuffer { buf: VecDeque::new(), cap, next_seq: 1 };
        assert(c.lines() =~= Seq::<ConsoleLineV>::empty());
        c
    }

    pub fn next_seq_value(&self) -> (n: u64)
        ensures
            n == self.next_seq(),
    {
        self.next_seq
    }

    pub fn len(&self) -> (n: usize)
        ensures
            n == self.lines().len(),
    {
        self.buf.len()
    }

    /// Append a line stamped `ts`; returns the stored line.
    pub fn push_at(&mut self, stream: &'static str, line: String, ts: i64) -> (entry: ConsoleLine)
        requires
            old(self).wf(),
            old(self).next_seq() < u64::MAX,
        ensures
            final(self).wf(),
            entry@ == (ConsoleLineV { seq: old(self).next_seq() as u64, ts, stream: stream@, line: line@ }),
            final(self).lines() == bounded_push(old(self).lines(), old(self).cap(), entry@),
            final(self).cap() == old(self).cap(),
            final(self).next_seq() == old(self).next_seq() + 1,
    {
        let seq = self.next_seq;
        self.next_seq = self.next_seq + 1;
        let entry = ConsoleLine { seq, ts, stream, line };
        let ghost before = self.buf@;
        if self.buf.len() == self.cap {
            self.buf.pop_front();
        }
        let copy = entry.clone();
        self.buf.push_back(copy);
        proof {
            let f = |l: ConsoleLine| l@;
            if before.len() == self.cap && before.len() > 0 {
                assert(self.buf@ == before.subrange(1, before.len() as int).push(copy));
                assert(self.lines() =~= before.map_values(f).drop_first().push(entry@));
            } else {
                assert(self.lines() =~= before.map_values(f).push(entry@));
            }
            law_console_numbering(old(self).lines(), old(self).cap(), old(self).next_seq(), entry@);
        }
        entry
    }

    /// Append a line stamped with the current time; returns the stored line.
    pub fn push(&mut self, stream: &'static str, line: String) -> (entry: ConsoleLine)
        requires
            old(self).wf(),
            old(self).next_seq() < u64::MAX,
        ensures
            final(self).wf(),
            entry@.seq == old(self).next_seq(),
            entry@.stream == stream@,
            entry@.line == line@,
            final(self).lines() == bounded_push(old(self).lines(), old(self).cap(), entry@),
            final(self).cap() == old(self).cap(),
            final(self).next_seq() == old(self).next_seq() + 1,
    {
        let ts = crate::clock::now_micros();
        self.push_at(stream, line, ts)
    }

    /// The last `last_n` lines, oldest first.
    pub fn snapshot(&self, last_n: usize) -> (r: Vec<ConsoleLine>)
        ensures
            r@.map_values(|l: ConsoleLine| l@) == tail_of(self.lines(), last_n as nat),
    {
        let len = self.buf.len();
        let n = if last_n < len { last_n } else { len };
        let start = len - n;
        let mut out: Vec<ConsoleLine> = Vec::new();
        let mut i: usize = start;
        while i < len
            invariant
                len == self.buf@.len(),
                start <= i <= len,
                out@.len() == i - start,
                forall|k: int| 0 <= k < i - start ==> (#[trigger] out@[k])@ == self.buf@[start + k]@,
            decreases len - i,
        {
            out.push(self.buf[i].clone());
            i = i + 1;
        }
        assert(out@.map_values(|l: ConsoleLine| l@) =~= tail_of(self.lines(), last_n as nat));
        out
    }
}

/// With a capacity of at least one, the console never holds more lines than
/// its capacity.
pub proof fn law_console_bounded(s: Seq<ConsoleLineV>, cap: nat, x: ConsoleLineV)
    requires
        cap > 0,
        s.len() <= cap,
    ensures
        bounded_push(s, cap, x).len() <= cap,
        bounded_push(s, cap, x).last() == x,
{
}

/// Pushing keeps the buffered lines numbered consecutively up to the next
/// number to hand out.
pub proof fn law_console_numbering(s: Seq<ConsoleLineV>, cap: nat, next: nat, x: ConsoleLineV)
    requires
        seqs_consecutive(s, next),
        x.seq == next,
    ensures
        seqs_consecutive(bounded_push(s, cap, x), next + 1),
{
    let t = bounded_push(s, cap, x);
    if s.len() == cap && s.len() > 0 {
        assert forall|i: int| 0 <= i < t.len() implies (#[trigger] t[i]).seq + t.len() - i == next + 1 by {
            if i < t.len() - 1 { assert(t[i] == s[i + 1]); }
        }
    } else {
        assert forall|i: int| 0 <= i < t.len() implies (#[trigger] t[i]).seq + t.len() - i == next + 1 by {
            if i < t.len() - 1 { assert(t[i] == s[i]); }
        }
    }
}

/// A snapshot is never longer than asked, and it ends with the newest line.
pub proof fn law_snapshot_tail(s: Seq<ConsoleLineV>, n: nat)
    ensures
        tail_of(s, n).len() == if n < s.len() { n } else { s.len() },
        forall|k: int| 0 <= k < tail_of(s, n).len() ==> tail_of(s, n)[k] == s[s.len() - tail_of(s, n).len() + k],
{
}

} // verus!

verus! {

/// How many lines a batch for the browser holds before it is sent at once.
pub const BATCH_LINES: usize = 80;

/// Lines waiting to be sent to one browser: sent when eighty have gathered,
/// or at the next tick when any are waiting.
#[derive(Debug)]
pub struct LineBatch {
    lines: Vec<ConsoleLine>,
}

impl LineBatch {
    pub closed spec fn pending(&self) -> Seq<ConsoleLineV> {
        self.lines@.map_values(|l: ConsoleLine| l@)
    }

    pub fn new() -> (b: LineBatch)
        ensures
            b.pending() == Seq::<ConsoleLineV>::empty(),
    {
        let b = LineBatch { lines: Vec::new() };
        assert(b.pending() =~= Seq::<ConsoleLineV>::empty());
        b
    }

    /// Add a line; tells whether the batch must be sent now.
    pub fn push(&mut self, l: ConsoleLine) -> (send_now: bool)
        ensures
            final(self).pending() == old(self).pending().push(l@),
            send_now == (final(self).pending().len() >= BATCH_LINES),
    {
        let ghost lv = l@;
        self.lines.push(l);
        assert(self.pending() =~= old(self).pending().push(lv));
        self.lines.len() >= BATCH_LINES
    }

    /// At a tick, a batch is sent when it is not empty.
    pub fn due_on_tick(&self) -> (b: bool)
        ensures
            b == (self.pending().len() > 0),
    {
        self.lines.len() > 0
    }

    /// Take the waiting lines, leaving the batch empty.
    pub fn take(&mut self) -> (r: Vec<ConsoleLine>)
        ensures
            r@.map_values(|l: ConsoleLine| l@) == old(self).pending(),
            final(self).pending() == Seq::<ConsoleLineV>::empty(),
    {
        let mut r: Vec<ConsoleLine> = Vec::new();
        std::mem::swap(&mut r, &mut self.lines);
        assert(self.pending() =~= Seq::<ConsoleLineV>::empty());
        r
    }
}

} // verus!

verus! {

/// The log file a console started at `stamp` writes to.
pub fn console_log_path_for(stamp: &str) -> (p: String)
    ensures
        p@ == "data/logs/console-"@ + stamp@ + ".log"@,
{
    crate::text::concat3("data/logs/console-", stamp, ".log")
}

/// The log file for a console started now.
pub fn new_console_log_path() -> (p: String)
    ensures
        exists|stamp: Seq<char>| crate::clock::is_clock_stamp(stamp) && p@ == "data/logs/console-"@ + stamp + ".log"@,
{
    let stamp = crate::clock::utc_stamp_now();
    console_log_path_for(stamp.as_str())
}

} // verus!

verus! {

/// The notice a browser that fell behind is sent in place of the lines it missed.
pub fn lagged_notice(skipped: u64) -> (m: String)
    ensures
        m@ == "[manager] dropped "@ + crate::text::decimal_spec(skipped as nat) + " buffered lines"@,
{
    crate::text::concat3("[manager] dropped ", crate::text::decimal(skipped).as_str(), " buffered lines")
}

} // verus!
