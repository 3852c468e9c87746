//! Authentication: password hashing, session tokens and cookies, and the
//! decision of which requests need a session.
use vstd::prelude::*;
use argon2::password_hash::{PasswordHasher, PasswordVerifier};
use rand::RngCore;
use crate::text::{chars_of, same_text, starts_with, starts_with_seq, string_of, trim_chars, trim_spec};

verus! {

/// Whether Argon2 accepts `pw` for the PHC-format hash text `hash`.
pub uninterp spec fn argon2_accepts(pw: Seq<char>, hash: Seq<char>) -> bool;

/// Hash a password with Argon2 (default parameters) and a fresh random salt.
///
/// Trusted: calls `SaltString::generate(&mut OsRng)` and
/// `Argon2::default().hash_password(..)`, turning the hash into its PHC text
/// and an error into its `Display` text. Claimed, as the argon2 crate
/// documents and its `verify_password` is built to do: Argon2 accepts the
/// password for the hash it produced. Which salt was drawn is not stated.
#[verifier::external_body]
fn argon2_hash_fresh_salt(pw: &str) -> (r: Result<String, String>)
    ensures
        r matches Ok(h) ==> argon2_accepts(pw@, h@),
{
    let salt = argon2::password_hash::SaltString::generate(&mut argon2::password_hash::rand_core::OsRng);
    argon2::Argon2::default().hash_password(pw.as_bytes(), &salt).map(|h| h.to_string()).map_err(|e| e.to_string())
}

/// Check a password against a stored hash.
///
/// Trusted: calls `PasswordHash::new(hash)` and, when that parses,
/// `Argon2::default().verify_password(..)`; a hash that does not parse is
/// refused. Claimed: the answer depends on the two texts alone
/// (`argon2_accepts`).
#[verifier::external_body]
fn argon2_verify(pw: &str, hash: &str) -> (b: bool)
    ensures
        b == argon2_accepts(pw@, hash@),
{
    match argon2::password_hash::PasswordHash::new(hash) {
        Ok(h) => argon2::Argon2::default().verify_password(pw.as_bytes(), &h).is_ok(),
        Err(_) => false,
    }
}

/// Hash a password for storage; the error is the hasher's message.
pub fn hash_password(pw: &str) -> (r: Result<String, String>)
    ensures
        r matches Ok(h) ==> argon2_accepts(pw@, h@),
{
    argon2_hash_fresh_salt(pw)
}

/// Does `pw` match the stored hash? A password always matches the hash that
/// `hash_password` made of it.
pub fn verify_password(pw: &str, hash: &str) -> (b: bool)
    ensures
        b == argon2_accepts(pw@, hash@),
{
    argon2_verify(pw, hash)
}

/// Thirty-two random bytes.
///
/// Trusted: calls `rand::thread_rng().fill_bytes`. Nothing is claimed of
/// the bytes: they are random.
#[verifier::external_body]
fn random_bytes_32() -> (b: [u8; 32]) {
    let mut b = [0u8; 32];
    rand::thread_rng().fill_bytes(&mut b);
    b
}

/// The lower-case hexadecimal digit for `d` (below 16).
pub open spec fn hex_digit(d: int) -> char {
    if d < 10 { ((48 + d) as u8) as char } else { ((87 + d) as u8) as char }
}

/// Each byte as two lower-case hexadecimal digits, as `format!("{:02x}")` writes it.
pub open spec fn hex_spec(b: Seq<u8>) -> Seq<char>
    decreases b.len(),
{
    if b.len() == 0 {
        Seq::empty()
    } else {
        hex_spec(b.drop_last()) + seq![hex_digit(b.last() as int / 16), hex_digit(b.last() as int % 16)]
    }
}

fn hex_char(d: u8) -> (c: char)
    requires
        d < 16,
    ensures
        c == hex_digit(d as int),
{
    if d < 10 { (48u8 + d) as char } else { (87u8 + d) as char }
}

/// The lower-case hexadecimal notation of some bytes.
pub fn hex(b: &[u8]) -> (s: String)
    ensures
        s@ == hex_spec(b@),
{
    let mut out: Vec<char> = Vec::new();
    let mut i: usize = 0;
    while i < b.len()
        invariant
            i <= b@.len(),
            out@ == hex_spec(b@.subrange(0, i as int)),
        decreases b@.len() - i,
    {
        let x = b[i];
        out.push(hex_char(x / 16));
        out.push(hex_char(x % 16));
        assert(b@.subrange(0, i + 1).drop_last() =~= b@.subrange(0, i as int));
        assert(out@ =~= hex_spec(b@.subrange(0, i + 1)));
        i = i + 1;
    }
    assert(b@.subrange(0, b@.len() as int) =~= b@);
    string_of(out.as_slice())
}

/// A fresh session token: 32 random bytes in hexadecimal.
pub fn new_session_token() -> (t: String)
    ensures
        exists|b: Seq<u8>| b.len() == 32 && t@ == hex_spec(b),
{
    let b = random_bytes_32();
    hex(b.as_slice())
}

/// The pieces of `s` between the `sep` characters.
pub open spec fn split_on(s: Seq<char>, sep: char) -> Seq<Seq<char>>
    decreases s.len(),
{
    if s.len() == 0 {
        seq![Seq::empty()]
    } else {
        let r = split_on(s.drop_last(), sep);
        if s.last() == sep {
            r.push(Seq::empty())
        } else {
            r.update(r.len() - 1, r.last().push(s.last()))
        }
    }
}

pub proof fn lemma_split_nonempty(s: Seq<char>, sep: char)
    ensures
        split_on(s, sep).len() >= 1,
    decreases s.len(),
{
    if s.len() > 0 {
        lemma_split_nonempty(s.drop_last(), sep);
    }
}

/// The session value of the first cookie piece (trimmed) that starts with
/// `cmc_session=`.
pub open spec fn session_in(pieces: Seq<Seq<char>>) -> Option<Seq<char>>
    decreases pieces.len(),
{
    if pieces.len() == 0 {
        None
    } else {
        let t = trim_spec(pieces[0]);
        if starts_with_seq(t, "cmc_session="@) {
            Some(t.subrange("cmc_session="@.len() as int, t.len() as int))
        } else {
            session_in(pieces.drop_first())
        }
    }
}

pub open spec fn extract_session_spec(cookie: Option<Seq<char>>) -> Option<Seq<char>> {
    match cookie {
        None => None,
        Some(c) => session_in(split_on(c, ';')),
    }
}

pub(crate) fn split_pieces(cs: &Vec<char>, sep: char) -> (r: Vec<Vec<char>>)
    ensures
        r.deep_view() == split_on(cs@, sep),
{
    let mut out: Vec<Vec<char>> = Vec::new();
    let mut cur: Vec<char> = Vec::new();
    let mut i: usize = 0;
    proof { assert(cs@.subrange(0, 0) =~= Seq::<char>::empty()); }
    while i < cs.len()
        invariant
            i <= cs@.len(),
            out.deep_view() + seq![cur@] == split_on(cs@.subrange(0, i as int), sep),
        decreases cs@.len() - i,
    {
        let ghost pre = cs@.subrange(0, i as int);
        let c = cs[i];
        proof {
            assert(cs@.subrange(0, i + 1).drop_last() =~= pre);
            lemma_split_nonempty(pre, sep);
        }
        if c == sep {
            let ghost before = out.deep_view();
            let piece = cur;
            assert(piece.deep_view() =~= piece@);
            out.push(piece);
            cur = Vec::new();
            proof {
                assert(out.deep_view() =~= before.push(piece@));
                assert(out.deep_view() + seq![cur@] =~= (before + seq![piece@]).push(Seq::<char>::empty()));
            }
        } else {
            let ghost before = cur@;
            cur.push(c);
            proof {
                let r = split_on(pre, sep);
                assert(out.deep_view() + seq![cur@] =~= r.update(r.len() - 1, r.last().push(c)));
            }
        }
        i = i + 1;
    }
    assert(cs@.subrange(0, cs@.len() as int) =~= cs@);
    let ghost before = out.deep_view();
    let last = cur;
    assert(last.deep_view() =~= last@);
    out.push(last);
    assert(out.deep_view() =~= before + seq![last@]);
    out
}

/// The session token in a request's `cookie` header, if any.
pub fn extract_session(cookie: Option<&str>) -> (r: Option<String>)
    ensures
        match extract_session_spec(match cookie { Some(c) => Some(c@), None => None }) {
            Some(t) => r matches Some(x) && x@ == t,
            None => r is None,
        },
{
    let c = match cookie {
        Some(c) => c,
        None => return None,
    };
    let cs = chars_of(c);
    let pieces = split_pieces(&cs, ';');
    let prefix = chars_of("cmc_session=");
    let ghost all = pieces.deep_view();
    let mut i: usize = 0;
    proof { assert(all.subrange(0, all.len() as int) =~= all); }
    while i < pieces.len()
        invariant
            all == pieces.deep_view(),
            all == split_on(c@, ';'),
            cookie == Some(c),
            prefix@ == "cmc_session="@,
            i <= pieces@.len(),
            session_in(all) == session_in(all.subrange(i as int, all.len() as int)),
        decreases pieces@.len() - i,
    {
        let ghost rest = all.subrange(i as int, all.len() as int);
        assert(pieces@[i as int].deep_view() =~= pieces@[i as int]@);
        assert(rest[0] == pieces@[i as int]@);
        let t = trim_chars(pieces[i].as_slice());
        if starts_with(t.as_slice(), prefix.as_slice()) {
            let mut out: Vec<char> = Vec::new();
            let mut k: usize = prefix.len();
            while k < t.len()
                invariant
                    prefix@.len() <= k <= t@.len(),
                    out@ == t@.subrange(prefix@.len() as int, k as int),
                decreases t@.len() - k,
            {
                out.push(t[k]);
                assert(t@.subrange(prefix@.len() as int, k + 1) =~= t@.subrange(prefix@.len() as int, k as int).push(t@[k as int]));
                k = k + 1;
            }
            return Some(string_of(out.as_slice()));
        }
        assert(rest.drop_first() =~= all.subrange(i + 1, all.len() as int));
        i = i + 1;
    }
    None
}

/// The pages and endpoints reachable without a session, among them the
/// `/mcsapi/` endpoints that the in-game plugin calls.
pub open spec fn is_public_path_spec(path: Seq<char>) -> bool {
    starts_with_seq(path, "/api/setup"@) || path == "/api/login"@ || path == "/api/status-public"@
        || path == "/control"@ || path == "/login"@ || path == "/setup"@ || path == "/"@
        || starts_with_seq(path, "/static/"@) || starts_with_seq(path, "/mcsapi/"@)
}

pub fn is_public_path(path: &str) -> (b: bool)
    ensures
        b == is_public_path_spec(path@),
{
    let cs = chars_of(path);
    let setup = chars_of("/api/setup");
    let stat = chars_of("/static/");
    let mcs = chars_of("/mcsapi/");
    starts_with(cs.as_slice(), setup.as_slice()) || same_text(path, "/api/login") || same_text(path, "/api/status-public")
        || same_text(path, "/control") || same_text(path, "/login") || same_text(path, "/setup") || same_text(path, "/")
        || starts_with(cs.as_slice(), stat.as_slice()) || starts_with(cs.as_slice(), mcs.as_slice())
}

/// What the authentication layer does with a request.
#[derive(Debug, Clone, Copy, PartialEq, Eq, Structural)]
pub enum AuthOutcome {
    /// Pass the request on.
    Allow,
    /// 503: setup has not been completed.
    Unavailable,
    /// 401: no valid session.
    Unauthorized,
}

pub open spec fn auth_outcome_spec(path: Seq<char>, setup_complete: bool, session_valid: bool) -> AuthOutcome {
    if is_public_path_spec(path) {
        AuthOutcome::Allow
    } else if !setup_complete {
        AuthOutcome::Unavailable
    } else if !session_valid {
        AuthOutcome::Unauthorized
    } else {
        AuthOutcome::Allow
    }
}

/// Public paths always pass; the rest need completed setup and a known session.
pub fn auth_outcome(path: &str, setup_complete: bool, session_valid: bool) -> (o: AuthOutcome)
    ensures
        o == auth_outcome_spec(path@, setup_complete, session_valid),
{
    if is_public_path(path) {
        return AuthOutcome::Allow;
    }
    if !setup_complete {
        return AuthOutcome::Unavailable;
    }
    if !session_valid {
        return AuthOutcome::Unauthorized;
    }
    AuthOutcome::Allow
}

/// The set of logged-in session tokens.
#[derive(Debug)]
pub struct Sessions {
    tokens: Vec<String>,
}

impl Sessions {
    pub closed spec fn tokens(&self) -> Set<Seq<char>> {
        self.tokens@.map_values(|t: String| t@).to_set()
    }

    pub fn new() -> (s: Sessions)
        ensures
            s.tokens() == Set::<Seq<char>>::empty(),
    {
        let s = Sessions { tokens: Vec::new() };
        assert(s.tokens() =~= Set::<Seq<char>>::empty());
        s
    }

    fn position(&self, t: &str) -> (r: Option<usize>)
        ensures
            r matches Some(i) ==> i < self.tokens@.len() && self.tokens@[i as int]@ == t@,
            r is None ==> forall|k: int| 0 <= k < self.tokens@.len() ==> self.tokens@[k]@ != t@,
    {
        let mut i: usize = 0;
        while i < self.tokens.len()
            invariant
                i <= self.tokens@.len(),
                forall|k: int| 0 <= k < i ==> self.tokens@[k]@ != t@,
            decreases self.tokens@.len() - i,
        {
            if same_text(self.tokens[i].as_str(), t) {
                return Some(i);
            }
            i = i + 1;
        }
        None
    }

    pub fn contains(&self, t: &str) -> (b: bool)
        ensures
            b == self.tokens().contains(t@),
    {
        let r = self.position(t);
        proof {
            let vs = self.tokens@.map_values(|x: String| x@);
            match r {
                Some(i) => { assert(vs[i as int] == t@); },
                None => {
                    if vs.to_set().contains(t@) {
                        let k = choose|k: int| 0 <= k < vs.len() && vs[k] == t@;
                        assert(self.tokens@[k]@ == t@);
                    }
                },
            }
        }
        r.is_some()
    }

    /// Log a session in.
    pub fn insert(&mut self, t: String)
        ensures
            final(self).tokens() == old(self).tokens().insert(t@),
    {
        if self.contains(t.as_str()) {
            assert(self.tokens() =~= old(self).tokens().insert(t@));
            return;
        }
        let ghost tv = t@;
        let ghost before = self.tokens@;
        self.tokens.push(t);
        proof {
            let f = |x: String| x@;
            assert(self.tokens@.map_values(f) =~= before.map_values(f).push(tv));
            assert(self.tokens() =~= old(self).tokens().insert(tv)) by {
                assert forall|x: Seq<char>| #[trigger] self.tokens().contains(x) <==> old(self).tokens().insert(tv).contains(x) by {
                    let a = self.tokens@.map_values(f);
                    let b = before.map_values(f);
                    if a.contains(x) {
                        let k = choose|k: int| 0 <= k < a.len() && a[k] == x;
                        if k < b.len() { assert(b[k] == x); }
                    }
                    if b.contains(x) {
                        let k = choose|k: int| 0 <= k < b.len() && b[k] == x;
                        assert(a[k] == x);
                    }
                    if x == tv { assert(a[b.len() as int] == tv); }
                }
            }
        }
    }

    /// Log a session out.
    pub fn remove(&mut self, t: &str)
        ensures
            final(self).tokens() == old(self).tokens().remove(t@),
    {
        loop
            invariant
                self.tokens() == old(self).tokens().remove(t@) || self.tokens() == old(self).tokens(),
            ensures
                self.tokens() == old(self).tokens().remove(t@),
            decreases self.tokens@.len(),
        {
            match self.position(t) {
                None => {
                    proof {
                        let vs = self.tokens@.map_values(|x: String| x@);
                        if vs.to_set().contains(t@) {
                            let k = choose|k: int| 0 <= k < vs.len() && vs[k] == t@;
                            assert(self.tokens@[k]@ == t@);
                        }
                        assert(self.tokens() =~= self.tokens().remove(t@));
                        assert(self.tokens() =~= old(self).tokens().remove(t@));
                    }
                    break;
                },
                Some(i) => {
                    let ghost before = self.tokens@;
                    let ghost bset = self.tokens();
                    self.tokens.remove(i);
                    proof {
                        let f = |x: String| x@;
                        let a = self.tokens@.map_values(f);
                        let b = before.map_values(f);
                        assert(a =~= b.remove(i as int));
                        assert forall|x: Seq<char>| x != t@ implies (#[trigger] a.contains(x) <==> b.contains(x)) by {
                            if a.contains(x) {
                                let k = choose|k: int| 0 <= k < a.len() && a[k] == x;
                                let k2 = if k < i { k } else { k + 1 };
                                assert(b[k2] == x);
                            }
                            if b.contains(x) {
                                let k = choose|k: int| 0 <= k < b.len() && b[k] == x;
                                assert(k != i);
                                let k2 = if k < i { k } else { k - 1 };
                                assert(a[k2] == x);
                            }
                        }
                        assert(self.tokens().remove(t@) =~= bset.remove(t@));
                        assert(bset.remove(t@) =~= old(self).tokens().remove(t@));
                        if !self.tokens().contains(t@) {
                            assert(self.tokens() =~= old(self).tokens().remove(t@));
                        } else {
                            assert(self.tokens() =~= bset);
                        }
                    }
                },
            }
        }
    }
}

} // verus!

verus! {

/// Hex notation takes two lower-case hex digits per byte, so a session
/// token is 64 such characters.
pub proof fn law_hex_shape(b: Seq<u8>)
    ensures
        hex_spec(b).len() == 2 * b.len(),
        forall|k: int| 0 <= k < hex_spec(b).len() ==> crate::text::is_lower_hex(#[trigger] hex_spec(b)[k]),
    decreases b.len(),
{
    if b.len() > 0 {
        law_hex_shape(b.drop_last());
        let h = hex_spec(b);
        let p = hex_spec(b.drop_last());
        assert forall|k: int| 0 <= k < h.len() implies crate::text::is_lower_hex(#[trigger] h[k]) by {
            if k < p.len() { assert(h[k] == p[k]); }
        }
    }
}

/// A logged-in session passes every request; once it is logged out it no
/// longer passes any request that needs a session.
pub proof fn law_logout_revokes(tokens: Set<Seq<char>>, t: Seq<char>, path: Seq<char>)
    ensures
        auth_outcome_spec(path, true, tokens.insert(t).contains(t)) == AuthOutcome::Allow,
        !is_public_path_spec(path) ==> auth_outcome_spec(path, true, tokens.remove(t).contains(t)) == AuthOutcome::Unauthorized,
        !is_public_path_spec(path) ==> auth_outcome_spec(path, false, true) == AuthOutcome::Unavailable,
{
}

/// The public pages are always served; any other request is served exactly
/// when setup is complete and the request carries a logged-in session.
pub proof fn law_private_paths_need_a_session(path: Seq<char>, setup_complete: bool, session_valid: bool)
    ensures
        is_public_path_spec(path) ==> auth_outcome_spec(path, setup_complete, session_valid) == AuthOutcome::Allow,
        !is_public_path_spec(path) ==> (auth_outcome_spec(path, setup_complete, session_valid) == AuthOutcome::Allow
            <==> setup_complete && session_valid),
{
}

} // verus!
