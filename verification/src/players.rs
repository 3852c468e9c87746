//! The online players, kept by name, and the reading of console lines
//! that say who joined or left.
use vstd::prelude::*;
use crate::text::{
    chars_of, compare_text, contains, contains_seq, ends_with, ends_with_seq, find, first_occurrence,
    is_valid_name_spec, is_whitespace, is_ws, lemma_text_lt_asym, lemma_text_lt_irrefl, lemma_text_lt_total,
    lemma_text_lt_trans, string_of, text_lt, trim_chars, trim_spec, trim_start_spec, unicode_lowercase,
};

verus! {

broadcast use vstd::seq_lib::group_to_multiset_ensures;

#[derive(Debug)]
pub struct Player {
    pub name: String,
    /// Microseconds since the Unix epoch.
    pub joined_at: i64,
}

pub struct PlayerV {
    pub name: Seq<char>,
    pub joined_at: i64,
}

impl View for Player {
    type V = PlayerV;

    open spec fn view(&self) -> PlayerV {
        PlayerV { name: self.name@, joined_at: self.joined_at }
    }
}

impl Clone for Player {
    fn clone(&self) -> (r: Self)
        ensures
            r@ == self@,
    {
        Player { name: self.name.clone(), joined_at: self.joined_at }
    }
}

/// Strictly ascending by name, so no name appears twice.
pub open spec fn sorted_by_name(s: Seq<PlayerV>) -> bool {
    forall|i: int, j: int| 0 <= i < j < s.len() ==> text_lt(s[i].name, s[j].name)
}

pub open spec fn has_player(s: Seq<PlayerV>, name: Seq<char>) -> bool {
    exists|i: int| 0 <= i < s.len() && s[i].name == name
}

/// The set of online players.
#[derive(Debug)]
pub struct Players {
    list: Vec<Player>,
}

impl Players {
    /// The players, ordered by name.
    pub closed spec fn players(&self) -> Seq<PlayerV> {
        self.list@.map_values(|p: Player| p@)
    }

    pub open spec fn wf(&self) -> bool {
        sorted_by_name(self.players())
    }

    pub fn new() -> (p: Players)
        ensures
            p.wf(),
            p.players() == Seq::<PlayerV>::empty(),
    {
        let p = Players { list: Vec::new() };
        assert(p.players() =~= Seq::<PlayerV>::empty());
        p
    }

    /// Where `name` is, or where it would go.
    fn locate(&self, name: &[char]) -> (r: (usize, bool))
        requires
            self.wf(),
        ensures
            r.0 <= self.players().len(),
            r.1 <==> (r.0 < self.players().len() && self.players()[r.0 as int].name == name@),
            forall|k: int| 0 <= k < r.0 ==> text_lt(#[trigger] self.players()[k].name, name@),
            !r.1 ==> forall|k: int| r.0 <= k < self.players().len() ==> text_lt(name@, #[trigger] self.players()[k].name),
    {
        let mut i: usize = 0;
        while i < self.list.len()
            invariant
                self.wf(),
                i <= self.list@.len(),
                forall|k: int| 0 <= k < i ==> text_lt(#[trigger] self.players()[k].name, name@),
            decreases self.list@.len() - i,
        {
            let cs = chars_of(self.list[i].name.as_str());
            assert(self.players()[i as int].name == self.list@[i as int].name@);
            let c = compare_text(cs.as_slice(), name);
            if c == 0 {
                return (i, true);
            }
            if c == 1 {
                proof {
                    assert forall|k: int| i <= k < self.players().len() implies text_lt(name@, #[trigger] self.players()[k].name) by {
                        if k > i {
                            lemma_text_lt_trans(name@, self.players()[i as int].name, self.players()[k].name);
                        }
                    }
                }
                return (i, false);
            }
            i = i + 1;
        }
        (i, false)
    }

    pub fn contains(&self, name: &str) -> (b: bool)
        requires
            self.wf(),
        ensures
            b == has_player(self.players(), name@),
    {
        let cs = chars_of(name);
        let (i, found) = self.locate(cs.as_slice());
        if !found {
            assert forall|k: int| 0 <= k < self.players().len() implies self.players()[k].name != name@ by {
                if k < i {
                    lemma_text_lt_asym(self.players()[k].name, name@);
                } else {
                    lemma_text_lt_asym(name@, self.players()[k].name);
                }
            }
        }
        found
    }

    /// Add a player who joined at `now`; tells whether the set changed.
    pub fn add_at(&mut self, name: &str, now: i64) -> (changed: bool)
        requires
            old(self).wf(),
        ensures
            final(self).wf(),
            changed == !has_player(old(self).players(), name@),
            has_player(final(self).players(), name@),
            !changed ==> final(self).players() == old(self).players(),
            changed ==> final(self).players().to_multiset()
                == old(self).players().to_multiset().insert(PlayerV { name: name@, joined_at: now }),
            forall|n: Seq<char>| n != name@ ==> (has_player(final(self).players(), n) == has_player(old(self).players(), n)),
    {
        let cs = chars_of(name);
        let (i, found) = self.locate(cs.as_slice());
        if found {
            return false;
        }
        let ghost before = self.players();
        let ghost pv = PlayerV { name: name@, joined_at: now };
        proof {
            assert forall|k: int| 0 <= k < before.len() implies before[k].name != name@ by {
                if k < i {
                    lemma_text_lt_asym(before[k].name, name@);
                } else {
                    lemma_text_lt_asym(name@, before[k].name);
                }
            }
        }
        self.list.insert(i, Player { name: string_of(cs.as_slice()), joined_at: now });
        proof {
            let after = self.players();
            assert(after =~= before.insert(i as int, pv));
            vstd::seq_lib::to_multiset_insert(before, i as int, pv);
            assert forall|a: int, b: int| 0 <= a < b < after.len() implies text_lt(after[a].name, after[b].name) by {
                if b < i { } else if b == i { } else if a < i {
                    assert(after[b] == before[b - 1]);
                } else if a == i {
                    assert(after[b] == before[b - 1]);
                } else {
                    assert(after[a] == before[a - 1]);
                    assert(after[b] == before[b - 1]);
                }
                if a < i && b > i {
                    lemma_text_lt_trans(after[a].name, name@, after[b].name);
                }
            }
            assert(after[i as int].name == name@);
            assert forall|n: Seq<char>| n != name@ implies (has_player(after, n) == has_player(before, n)) by {
                if has_player(before, n) {
                    let k = choose|k: int| 0 <= k < before.len() && before[k].name == n;
                    let k2 = if k < i { k } else { k + 1 };
                    assert(after[k2] == before[k]);
                }
                if has_player(after, n) {
                    let k = choose|k: int| 0 <= k < after.len() && after[k].name == n;
                    assert(k != i);
                    let k2 = if k < i { k } else { k - 1 };
                    assert(after[k] == before[k2]);
                }
            }
        }
        true
    }

    /// Add a player who joined now; tells whether the set changed.
    pub fn add(&mut self, name: &str) -> (changed: bool)
        requires
            old(self).wf(),
        ensures
            final(self).wf(),
            changed == !has_player(old(self).players(), name@),
            has_player(final(self).players(), name@),
            forall|n: Seq<char>| n != name@ ==> (has_player(final(self).players(), n) == has_player(old(self).players(), n)),
            !changed ==> final(self).players() == old(self).players(),
            changed ==> exists|t: i64| final(self).players().to_multiset()
                == old(self).players().to_multiset().insert(PlayerV { name: name@, joined_at: t }),
    {
        let now = crate::clock::now_micros();
        self.add_at(name, now)
    }

    /// Remove a player; tells whether the set changed.
    pub fn remove(&mut self, name: &str) -> (changed: bool)
        requires
            old(self).wf(),
        ensures
            final(self).wf(),
            changed == has_player(old(self).players(), name@),
            !has_player(final(self).players(), name@),
            forall|n: Seq<char>| n != name@ ==> (has_player(final(self).players(), n) == has_player(old(self).players(), n)),
            changed ==> exists|i: int| 0 <= i < old(self).players().len() && old(self).players()[i].name == name@
                && final(self).players() == old(self).players().remove(i),
            !changed ==> final(self).players() == old(self).players(),
    {
        let cs = chars_of(name);
        let (i, found) = self.locate(cs.as_slice());
        let ghost before = self.players();
        if !found {
            proof {
                assert forall|k: int| 0 <= k < before.len() implies before[k].name != name@ by {
                    if k < i {
                        lemma_text_lt_asym(before[k].name, name@);
                    } else {
                        lemma_text_lt_asym(name@, before[k].name);
                    }
                }
            }
            return false;
        }
        self.list.remove(i);
        proof {
            let after = self.players();
            assert(after =~= before.remove(i as int));
            assert forall|a: int, b: int| 0 <= a < b < after.len() implies text_lt(after[a].name, after[b].name) by {
                let a2 = if a < i { a } else { a + 1 };
                let b2 = if b < i { b } else { b + 1 };
                assert(after[a] == before[a2]);
                assert(after[b] == before[b2]);
            }
            assert forall|k: int| 0 <= k < after.len() implies after[k].name != name@ by {
                let k2 = if k < i { k } else { k + 1 };
                assert(after[k] == before[k2]);
                lemma_text_lt_irrefl(name@);
            }
            assert forall|n: Seq<char>| n != name@ implies (has_player(after, n) == has_player(before, n)) by {
                if has_player(before, n) {
                    let k = choose|k: int| 0 <= k < before.len() && before[k].name == n;
                    assert(k != i);
                    let k2 = if k < i { k } else { k - 1 };
                    assert(after[k2] == before[k]);
                }
                if has_player(after, n) {
                    let k = choose|k: int| 0 <= k < after.len() && after[k].name == n;
                    let k2 = if k < i { k } else { k + 1 };
                    assert(after[k] == before[k2]);
                }
            }
        }
        true
    }

    /// Remove everyone; tells whether the set changed.
    pub fn clear(&mut self) -> (changed: bool)
        requires
            old(self).wf(),
        ensures
            final(self).wf(),
            changed == (old(self).players().len() > 0),
            final(self).players() == Seq::<PlayerV>::empty(),
    {
        if self.list.len() == 0 {
            assert(self.players() =~= Seq::<PlayerV>::empty());
            return false;
        }
        self.list.clear();
        assert(self.players() =~= Seq::<PlayerV>::empty());
        true
    }

    /// The online players, ordered by name.
    pub fn list(&self) -> (r: Vec<Player>)
        ensures
            r@.map_values(|p: Player| p@) == self.players(),
    {
        let mut out: Vec<Player> = Vec::new();
        let mut i: usize = 0;
        while i < self.list.len()
            invariant
                i <= self.list@.len(),
                out@.len() == i,
                forall|k: int| 0 <= k < i ==> (#[trigger] out@[k])@ == self.list@[k]@,
            decreases self.list@.len() - i,
        {
            out.push(self.list[i].clone());
            i = i + 1;
        }
        assert(out@.map_values(|p: Player| p@) =~= self.players());
        out
    }
}

} // verus!

verus! {

/// What a console line means for the set of online players.
#[derive(Debug)]
pub enum PlayerEvent {
    /// The server went down: nobody is online.
    Clear,
    Join(String),
    Leave(String),
    Nothing,
}

pub enum PlayerEventV {
    Clear,
    Join(Seq<char>),
    Leave(Seq<char>),
    Nothing,
}

impl View for PlayerEvent {
    type V = PlayerEventV;

    open spec fn view(&self) -> PlayerEventV {
        match self {
            PlayerEvent::Clear => PlayerEventV::Clear,
            PlayerEvent::Join(n) => PlayerEventV::Join(n@),
            PlayerEvent::Leave(n) => PlayerEventV::Leave(n@),
            PlayerEvent::Nothing => PlayerEventV::Nothing,
        }
    }
}

/// The message text of a log line: what follows the first "]: ", or the
/// whole line when there is none.
pub open spec fn strip_log_prefix_spec(line: Seq<char>) -> Seq<char> {
    match first_occurrence(line, "]: "@) {
        Some(i) => line.subrange(i + "]: "@.len(), line.len() as int),
        None => line,
    }
}

/// The length of the run of non-whitespace characters at the start of `t`.
pub open spec fn word_len(t: Seq<char>) -> nat
    decreases t.len(),
{
    if t.len() == 0 || is_ws(t[0]) { 0 } else { 1 + word_len(t.drop_first()) }
}

/// The first whitespace-separated word of `s`, as `split_whitespace().next()` gives it.
pub open spec fn first_word(s: Seq<char>) -> Option<Seq<char>> {
    let t = trim_start_spec(s);
    if t.len() == 0 { None } else { Some(t.subrange(0, word_len(t) as int)) }
}

/// The name in front of `suffix`, trimmed.
pub open spec fn name_before(msg: Seq<char>, suffix: Seq<char>) -> Seq<char> {
    trim_spec(msg.subrange(0, msg.len() - suffix.len()))
}

/// The player event a console line from `stream` stands for: on the
/// manager's own "system" stream, "server exited" or "stopping the server"
/// (case ignored) clears the set; on the server's streams, join and leave
/// lines name a player, any other line saying "Stopping the server" (case
/// ignored) clears the set, and a lost-connection line names a player.
pub open spec fn classify_spec(stream: Seq<char>, line: Seq<char>) -> PlayerEventV {
    let msg = strip_log_prefix_spec(line);
    if stream == "system"@ {
        let l = unicode_lowercase(msg);
        if contains_seq(l, "server exited"@) || contains_seq(l, "stopping the server"@) {
            PlayerEventV::Clear
        } else {
            PlayerEventV::Nothing
        }
    } else if ends_with_seq(msg, " joined the game"@) {
        let name = name_before(msg, " joined the game"@);
        if is_valid_name_spec(name) { PlayerEventV::Join(name) } else { PlayerEventV::Nothing }
    } else if ends_with_seq(msg, " left the game"@) {
        let name = name_before(msg, " left the game"@);
        if is_valid_name_spec(name) { PlayerEventV::Leave(name) } else { PlayerEventV::Nothing }
    } else if contains_seq(unicode_lowercase(msg), "stopping the server"@) {
        PlayerEventV::Clear
    } else if contains_seq(msg, "lost connection:"@) {
        match first_word(msg) {
            Some(w) => if is_valid_name_spec(w) { PlayerEventV::Leave(w) } else { PlayerEventV::Nothing },
            None => PlayerEventV::Nothing,
        }
    } else {
        PlayerEventV::Nothing
    }
}

fn strip_prefix_chars(cs: &Vec<char>) -> (r: Vec<char>)
    ensures
        r@ == strip_log_prefix_spec(cs@),
{
    let sep = chars_of("]: ");
    match find(cs.as_slice(), sep.as_slice()) {
        Some(i) => {
            let mut out: Vec<char> = Vec::new();
            assert(crate::text::occurs_at(cs@, sep@, i as int));
            let n = cs.len();
            let m = sep.len();
            assert(i + m <= n);
            let start = i + m;
            let mut k: usize = start;
            while k < cs.len()
                invariant
                    start <= cs@.len(),
                    start <= k <= cs@.len(),
                    out@ == cs@.subrange(start as int, k as int),
                decreases cs@.len() - k,
            {
                out.push(cs[k]);
                assert(cs@.subrange(start as int, k + 1) =~= cs@.subrange(start as int, k as int).push(cs@[k as int]));
                k = k + 1;
            }
            out
        },
        None => cs.clone(),
    }
}

/// The message text of a log line such as "[12:34:56 INFO]: Steve joined the game".
pub fn strip_log_prefix(line: &str) -> (r: String)
    ensures
        r@ == strip_log_prefix_spec(line@),
{
    let cs = chars_of(line);
    let out = strip_prefix_chars(&cs);
    string_of(out.as_slice())
}

fn prefix_chars(cs: &Vec<char>, n: usize) -> (r: Vec<char>)
    requires
        n <= cs@.len(),
    ensures
        r@ == cs@.subrange(0, n as int),
{
    let mut out: Vec<char> = Vec::new();
    let mut k: usize = 0;
    while k < n
        invariant
            n <= cs@.len(),
            k <= n,
            out@ == cs@.subrange(0, k as int),
        decreases n - k,
    {
        out.push(cs[k]);
        assert(cs@.subrange(0, k + 1) =~= cs@.subrange(0, k as int).push(cs@[k as int]));
        k = k + 1;
    }
    out
}

proof fn lemma_word_len_bound(t: Seq<char>)
    ensures
        word_len(t) <= t.len(),
    decreases t.len(),
{
    if t.len() > 0 && !is_ws(t[0]) {
        lemma_word_len_bound(t.drop_first());
    }
}

proof fn lemma_word_len_skip(t: Seq<char>, i: int)
    requires
        0 <= i <= t.len(),
        forall|j: int| 0 <= j < i ==> !is_ws(t[j]),
    ensures
        word_len(t) == i + word_len(t.subrange(i, t.len() as int)),
    decreases i,
{
    if i > 0 {
        assert(t.drop_first().subrange(i - 1, t.drop_first().len() as int) =~= t.subrange(i, t.len() as int));
        lemma_word_len_skip(t.drop_first(), i - 1);
    } else {
        assert(t.subrange(0, t.len() as int) =~= t);
    }
}

proof fn lemma_trim_start_prefix_ws(s: Seq<char>, i: int)
    requires
        0 <= i <= s.len(),
        forall|j: int| 0 <= j < i ==> is_ws(s[j]),
    ensures
        trim_start_spec(s) == trim_start_spec(s.subrange(i, s.len() as int)),
    decreases i,
{
    if i > 0 {
        assert(s.drop_first().subrange(i - 1, s.drop_first().len() as int) =~= s.subrange(i, s.len() as int));
        lemma_trim_start_prefix_ws(s.drop_first(), i - 1);
    } else {
        assert(s.subrange(0, s.len() as int) =~= s);
    }
}

fn first_word_of(cs: &Vec<char>) -> (r: Option<Vec<char>>)
    ensures
        match first_word(cs@) {
            Some(w) => r matches Some(v) && v@ == w,
            None => r is None,
        },
{
    let n = cs.len();
    let mut i: usize = 0;
    while i < n && is_whitespace(cs[i])
        invariant
            n == cs@.len(),
            i <= n,
            forall|j: int| 0 <= j < i ==> is_ws(cs@[j]),
        decreases n - i,
    {
        i = i + 1;
    }
    proof { lemma_trim_start_prefix_ws(cs@, i as int); }
    let ghost t = cs@.subrange(i as int, n as int);
    assert(trim_start_spec(t) == t);
    if i == n {
        return None;
    }
    let mut e: usize = i;
    while e < n && !is_whitespace(cs[e])
        invariant
            n == cs@.len(),
            i <= e <= n,
            forall|j: int| i <= j < e ==> !is_ws(cs@[j]),
        decreases n - e,
    {
        e = e + 1;
    }
    proof {
        assert forall|j: int| 0 <= j < e - i implies !is_ws(t[j]) by { assert(t[j] == cs@[i + j]); }
        lemma_word_len_skip(t, e - i);
        let rest = t.subrange(e - i, t.len() as int);
        if rest.len() > 0 { assert(rest[0] == cs@[e as int]); }
    }
    let mut out: Vec<char> = Vec::new();
    let mut k: usize = i;
    while k < e
        invariant
            n == cs@.len(),
            i <= k <= e <= n,
            out@ == cs@.subrange(i as int, k as int),
        decreases e - k,
    {
        out.push(cs[k]);
        assert(cs@.subrange(i as int, k + 1) =~= cs@.subrange(i as int, k as int).push(cs@[k as int]));
        k = k + 1;
    }
    assert(out@ =~= t.subrange(0, (e - i) as int));
    Some(out)
}

fn valid_name_chars(cs: &Vec<char>) -> (b: bool)
    ensures
        b == is_valid_name_spec(cs@),
{
    let s = string_of(cs.as_slice());
    crate::text::is_valid_name(s.as_str())
}

/// Lower-casing ASCII capitals keeps an occurrence where it was.
proof fn lemma_lower_keeps_occurrence(s: Seq<char>, p: Seq<char>, i: int)
    requires
        crate::text::occurs_at(s, p, i),
    ensures
        crate::text::occurs_at(crate::text::ascii_lower_text(s), crate::text::ascii_lower_text(p), i),
{
    let ls = crate::text::ascii_lower_text(s);
    let lp = crate::text::ascii_lower_text(p);
    assert forall|k: int| 0 <= k < p.len() implies #[trigger] ls.subrange(i, i + p.len())[k] == lp[k] by {
        assert(s.subrange(i, i + p.len())[k] == p[k]);
    }
    assert(ls.subrange(i, i + p.len()) =~= lp);
}

/// The server's own shutdown line, lower-cased, is the text the clear rule looks for.
proof fn lemma_stopping_lowered()
    ensures
        crate::text::ascii_lower_text("Stopping the server"@) == "stopping the server"@,
{
    reveal_strlit("Stopping the server");
    reveal_strlit("stopping the server");
    assert(crate::text::ascii_lower_text("Stopping the server"@) =~= "stopping the server"@);
}

/// What a console line from `stream` means for the set of online players.
/// On the server's streams, an ASCII line saying "Stopping the server" that
/// is neither a join nor a leave line clears the set.
pub fn classify_console_line(stream: &str, line: &str) -> (e: PlayerEvent)
    ensures
        e@ == classify_spec(stream@, line@),
        ({
            let msg = strip_log_prefix_spec(line@);
            stream@ != "system"@ && crate::text::all_ascii(msg) && contains_seq(msg, "Stopping the server"@)
                && !ends_with_seq(msg, " joined the game"@) && !ends_with_seq(msg, " left the game"@)
                ==> e@ == PlayerEventV::Clear
        }),
{
    let cs = chars_of(line);
    let msg = strip_prefix_chars(&cs);
    if crate::text::same_text(stream, "system") {
        let m = string_of(msg.as_slice());
        let l = crate::text::to_lowercase(m.as_str());
        let lc = chars_of(l.as_str());
        let a = chars_of("server exited");
        let b = chars_of("stopping the server");
        if contains(lc.as_slice(), a.as_slice()) || contains(lc.as_slice(), b.as_slice()) {
            return PlayerEvent::Clear;
        }
        return PlayerEvent::Nothing;
    }
    let joined = chars_of(" joined the game");
    let left = chars_of(" left the game");
    let lost = chars_of("lost connection:");
    if ends_with(msg.as_slice(), joined.as_slice()) {
        let before = prefix_chars(&msg, msg.len() - joined.len());
        let name = trim_chars(before.as_slice());
        if valid_name_chars(&name) {
            return PlayerEvent::Join(string_of(name.as_slice()));
        }
        return PlayerEvent::Nothing;
    }
    if ends_with(msg.as_slice(), left.as_slice()) {
        let before = prefix_chars(&msg, msg.len() - left.len());
        let name = trim_chars(before.as_slice());
        if valid_name_chars(&name) {
            return PlayerEvent::Leave(string_of(name.as_slice()));
        }
        return PlayerEvent::Nothing;
    }
    let lower = crate::text::to_lowercase(string_of(msg.as_slice()).as_str());
    let lower_cs = chars_of(lower.as_str());
    let stopping = chars_of("stopping the server");
    proof {
        if crate::text::all_ascii(msg@) && contains_seq(msg@, "Stopping the server"@) {
            let i = choose|i: int| crate::text::occurs_at(msg@, "Stopping the server"@, i);
            lemma_lower_keeps_occurrence(msg@, "Stopping the server"@, i);
            lemma_stopping_lowered();
            assert(crate::text::occurs_at(lower_cs@, "stopping the server"@, i));
        }
    }
    if contains(lower_cs.as_slice(), stopping.as_slice()) {
        return PlayerEvent::Clear;
    }
    if contains(msg.as_slice(), lost.as_slice()) {
        match first_word_of(&msg) {
            Some(w) => {
                if valid_name_chars(&w) {
                    return PlayerEvent::Leave(string_of(w.as_slice()));
                }
                return PlayerEvent::Nothing;
            },
            None => return PlayerEvent::Nothing,
        }
    }
    PlayerEvent::Nothing
}

/// Valid player names: one to sixteen bytes of letters, digits and underscores.
pub fn is_valid_name_pub(s: &str) -> (b: bool)
    ensures
        b == is_valid_name_spec(s@),
{
    crate::text::is_valid_name(s)
}

} // verus!

verus! {

/// Every player in the set has a valid name.
pub open spec fn all_names_valid(s: Seq<PlayerV>) -> bool {
    forall|i: int| 0 <= i < s.len() ==> is_valid_name_spec(#[trigger] s[i].name)
}

/// The player an event names, if any, has a valid name.
pub open spec fn event_names_valid(e: PlayerEventV) -> bool {
    match e {
        PlayerEventV::Join(n) => is_valid_name_spec(n),
        PlayerEventV::Leave(n) => is_valid_name_spec(n),
        _ => true,
    }
}

/// The names of the players in the set.
pub open spec fn player_names(s: Seq<PlayerV>) -> Set<Seq<char>> {
    Set::new(|n: Seq<char>| has_player(s, n))
}

/// The names online after an event.
pub open spec fn after_event(names: Set<Seq<char>>, e: PlayerEventV) -> Set<Seq<char>> {
    match e {
        PlayerEventV::Clear => Set::empty(),
        PlayerEventV::Join(n) => names.insert(n),
        PlayerEventV::Leave(n) => names.remove(n),
        PlayerEventV::Nothing => names,
    }
}

/// The names online after console lines, each a (stream, line) pair, in order.
pub open spec fn after_lines(names: Set<Seq<char>>, lines: Seq<(Seq<char>, Seq<char>)>) -> Set<Seq<char>>
    decreases lines.len(),
{
    if lines.len() == 0 {
        names
    } else {
        let l = lines.last();
        after_event(after_lines(names, lines.drop_last()), classify_spec(l.0, l.1))
    }
}

/// What one line from the server does to the names online: a join line
/// with a valid name adds it; a leave line, or a lost-connection line whose
/// first word is a valid name, removes it; and names stay valid.
pub proof fn law_console_line_effect(names: Set<Seq<char>>, stream: Seq<char>, line: Seq<char>)
    requires
        stream != "system"@,
    ensures
        ({
            let msg = strip_log_prefix_spec(line);
            let after = after_event(names, classify_spec(stream, line));
            &&& ends_with_seq(msg, " joined the game"@) && is_valid_name_spec(name_before(msg, " joined the game"@))
                ==> after.contains(name_before(msg, " joined the game"@))
            &&& !ends_with_seq(msg, " joined the game"@) && ends_with_seq(msg, " left the game"@)
                && is_valid_name_spec(name_before(msg, " left the game"@))
                ==> !after.contains(name_before(msg, " left the game"@))
            &&& (!ends_with_seq(msg, " joined the game"@) && !ends_with_seq(msg, " left the game"@)
                && contains_seq(msg, "lost connection:"@)
                && first_word(msg) is Some && is_valid_name_spec(first_word(msg).unwrap()))
                ==> !after.contains(first_word(msg).unwrap())
            &&& (forall|n: Seq<char>| names.contains(n) ==> is_valid_name_spec(n))
                ==> (forall|n: Seq<char>| after.contains(n) ==> is_valid_name_spec(n))
        }),
{
}

/// However many console lines are read, every name online stays valid.
pub proof fn law_listed_names_stay_valid(names: Set<Seq<char>>, lines: Seq<(Seq<char>, Seq<char>)>)
    requires
        forall|n: Seq<char>| names.contains(n) ==> is_valid_name_spec(n),
    ensures
        forall|n: Seq<char>| after_lines(names, lines).contains(n) ==> is_valid_name_spec(n),
    decreases lines.len(),
{
    if lines.len() > 0 {
        law_listed_names_stay_valid(names, lines.drop_last());
        let l = lines.last();
        law_classified_names_are_valid(l.0, l.1);
    }
}

/// Console lines only ever name players with valid names.
pub proof fn law_classified_names_are_valid(stream: Seq<char>, line: Seq<char>)
    ensures
        event_names_valid(classify_spec(stream, line)),
{
}

impl Players {
    /// Apply what a console line means to the set; tells whether it changed.
    /// A set of valid names stays one under events read from console lines.
    pub fn apply(&mut self, e: PlayerEvent) -> (changed: bool)
        requires
            old(self).wf(),
        ensures
            final(self).wf(),
            match e@ {
                PlayerEventV::Clear => changed == (old(self).players().len() > 0)
                    && final(self).players() == Seq::<PlayerV>::empty(),
                PlayerEventV::Join(n) => changed == !has_player(old(self).players(), n)
                    && has_player(final(self).players(), n)
                    && forall|m: Seq<char>| m != n ==> (has_player(final(self).players(), m) == has_player(old(self).players(), m)),
                PlayerEventV::Leave(n) => changed == has_player(old(self).players(), n)
                    && !has_player(final(self).players(), n)
                    && forall|m: Seq<char>| m != n ==> (has_player(final(self).players(), m) == has_player(old(self).players(), m)),
                PlayerEventV::Nothing => !changed && final(self).players() == old(self).players(),
            },
            all_names_valid(old(self).players()) && event_names_valid(e@) ==> all_names_valid(final(self).players()),
            player_names(final(self).players()) == after_event(player_names(old(self).players()), e@),
    {
        let ghost before = self.players();
        let ghost ev = e@;
        let changed = match e {
            PlayerEvent::Clear => self.clear(),
            PlayerEvent::Join(n) => {
                let ghost nv = n@;
                let c = self.add(n.as_str());
                proof {
                    let after = self.players();
                    if all_names_valid(before) && is_valid_name_spec(nv) {
                        assert forall|k: int| 0 <= k < after.len() implies is_valid_name_spec(#[trigger] after[k].name) by {
                            let x = after[k];
                            assert(after.contains(x));
                            if c {
                                let t = choose|t: i64| after.to_multiset()
                                    == before.to_multiset().insert(PlayerV { name: nv, joined_at: t });
                                let pv = PlayerV { name: nv, joined_at: t };
                                assert(after.to_multiset().count(x) > 0);
                                assert(before.to_multiset().insert(pv).count(x) > 0);
                                if x != pv {
                                    assert(before.to_multiset().count(x) > 0);
                                    assert(before.contains(x));
                                    let j = choose|j: int| 0 <= j < before.len() && before[j] == x;
                                    assert(is_valid_name_spec(before[j].name));
                                }
                            }
                        }
                    }
                }
                c
            },
            PlayerEvent::Leave(n) => {
                let c = self.remove(n.as_str());
                proof {
                    let after = self.players();
                    if c {
                        let i = choose|i: int| 0 <= i < before.len() && before[i].name == n@
                            && after == before.remove(i);
                        assert forall|k: int| 0 <= k < after.len() && all_names_valid(before)
                            implies is_valid_name_spec(#[trigger] after[k].name) by {
                            let k2 = if k < i { k } else { k + 1 };
                            assert(after[k] == before[k2]);
                        }
                    }
                }
                c
            },
            PlayerEvent::Nothing => false,
        };
        proof {
            let after = self.players();
            assert(player_names(after) =~= after_event(player_names(before), ev));
        }
        changed
    }
}

} // verus!
