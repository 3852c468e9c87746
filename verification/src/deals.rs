//! Deals ("records"): agreements between named players that each party
//! signs or rejects, kept in a store keyed by a short id.
use vstd::prelude::*;
use crate::text::{all_name_chars, chars_of, eq_ci_chars, eq_ci_spec, is_lower_hex, same_text, string_of, trim_spec, utf8_len};

verus! {

broadcast use vstd::seq_lib::group_to_multiset_ensures;

#[derive(Debug)]
pub struct Signature {
    pub name: String,
    /// Microseconds since the Unix epoch.
    pub signed_at: i64,
}

#[derive(Debug)]
pub struct Rejection {
    pub name: String,
    /// Microseconds since the Unix epoch.
    pub rejected_at: i64,
    pub reason: Option<String>,
}

#[derive(Debug)]
pub struct Deal {
    pub id: String,
    pub title: String,
    pub body: String,
    pub parties: Vec<String>,
    pub signatures: Vec<Signature>,
    pub rejections: Vec<Rejection>,
    /// Microseconds since the Unix epoch.
    pub created_at: i64,
    pub created_by: Option<String>,
}

/// A deal as it is shown: with its status and the parties still to answer.
#[derive(Debug)]
pub struct DealView {
    pub deal: Deal,
    pub status: String,
    pub remaining: Vec<String>,
}

pub struct SignatureV {
    pub name: Seq<char>,
    pub signed_at: i64,
}

pub struct RejectionV {
    pub name: Seq<char>,
    pub rejected_at: i64,
    pub reason: Option<Seq<char>>,
}

pub struct DealV {
    pub id: Seq<char>,
    pub title: Seq<char>,
    pub body: Seq<char>,
    pub parties: Seq<Seq<char>>,
    pub signatures: Seq<SignatureV>,
    pub rejections: Seq<RejectionV>,
    pub created_at: i64,
    pub created_by: Option<Seq<char>>,
}

pub struct DealViewV {
    pub deal: DealV,
    pub status: Seq<char>,
    pub remaining: Seq<Seq<char>>,
}

pub open spec fn opt_str(o: Option<String>) -> Option<Seq<char>> {
    match o {
        Some(s) => Some(s@),
        None => None,
    }
}

impl View for Signature {
    type V = SignatureV;

    open spec fn view(&self) -> SignatureV {
        SignatureV { name: self.name@, signed_at: self.signed_at }
    }
}

impl View for Rejection {
    type V = RejectionV;

    open spec fn view(&self) -> RejectionV {
        RejectionV { name: self.name@, rejected_at: self.rejected_at, reason: opt_str(self.reason) }
    }
}

impl Deal {
    /// The deal as a mathematical value.
    pub open spec fn dv(&self) -> DealV {
        DealV {
            id: self.id@,
            title: self.title@,
            body: self.body@,
            parties: self.parties.deep_view(),
            signatures: self.signatures@.map_values(|s: Signature| s@),
            rejections: self.rejections@.map_values(|r: Rejection| r@),
            created_at: self.created_at,
            created_by: opt_str(self.created_by),
        }
    }
}

impl View for DealView {
    type V = DealViewV;

    open spec fn view(&self) -> DealViewV {
        DealViewV { deal: self.deal.dv(), status: self.status@, remaining: self.remaining.deep_view() }
    }
}

// ---------- what a deal's state means ----------

pub open spec fn has_signed(d: DealV, p: Seq<char>) -> bool {
    exists|i: int| 0 <= i < d.signatures.len() && eq_ci_spec(#[trigger] d.signatures[i].name, p)
}

pub open spec fn has_rejected(d: DealV, p: Seq<char>) -> bool {
    exists|i: int| 0 <= i < d.rejections.len() && eq_ci_spec(#[trigger] d.rejections[i].name, p)
}

pub open spec fn is_party(d: DealV, p: Seq<char>) -> bool {
    exists|i: int| 0 <= i < d.parties.len() && eq_ci_spec(#[trigger] d.parties[i], p)
}

pub open spec fn all_signed(d: DealV) -> bool {
    d.parties.len() > 0 && forall|i: int| 0 <= i < d.parties.len() ==> has_signed(d, #[trigger] d.parties[i])
}

/// "rejected" once anyone rejected, "signed" once every party signed,
/// "partial" after the first signature, "pending" before.
pub open spec fn status_spec(d: DealV) -> Seq<char> {
    if d.rejections.len() > 0 {
        "rejected"@
    } else if all_signed(d) {
        "signed"@
    } else if d.signatures.len() > 0 {
        "partial"@
    } else {
        "pending"@
    }
}

/// The parties among `ps` that have neither signed nor rejected, in order.
pub open spec fn remaining_of(d: DealV, ps: Seq<Seq<char>>) -> Seq<Seq<char>>
    decreases ps.len(),
{
    if ps.len() == 0 {
        Seq::empty()
    } else {
        let rest = remaining_of(d, ps.drop_last());
        if !has_signed(d, ps.last()) && !has_rejected(d, ps.last()) {
            rest.push(ps.last())
        } else {
            rest
        }
    }
}

pub open spec fn remaining_spec(d: DealV) -> Seq<Seq<char>> {
    remaining_of(d, d.parties)
}

pub open spec fn view_spec(d: DealV) -> DealViewV {
    DealViewV { deal: d, status: status_spec(d), remaining: remaining_spec(d) }
}

// ---------- cloning ----------

impl Clone for Signature {
    fn clone(&self) -> (r: Self)
        ensures
            r@ == self@,
    {
        Signature { name: self.name.clone(), signed_at: self.signed_at }
    }
}

fn clone_opt_string(o: &Option<String>) -> (r: Option<String>)
    ensures
        opt_str(r) == opt_str(*o),
{
    match o {
        Some(s) => Some(s.clone()),
        None => None,
    }
}

impl Clone for Rejection {
    fn clone(&self) -> (r: Self)
        ensures
            r@ == self@,
    {
        Rejection { name: self.name.clone(), rejected_at: self.rejected_at, reason: clone_opt_string(&self.reason) }
    }
}

fn clone_strings(v: &Vec<String>) -> (r: Vec<String>)
    ensures
        r.deep_view() == v.deep_view(),
        r@ == v@,
{
    let mut r: Vec<String> = Vec::new();
    let mut i: usize = 0;
    while i < v.len()
        invariant
            i <= v@.len(),
            r@ == v@.subrange(0, i as int),
        decreases v@.len() - i,
    {
        r.push(v[i].clone());
        assert(v@.subrange(0, i + 1) =~= v@.subrange(0, i as int).push(v@[i as int]));
        i = i + 1;
    }
    assert(v@.subrange(0, v@.len() as int) =~= v@);
    assert(r.deep_view() =~= v.deep_view());
    r
}

fn clone_signatures(v: &Vec<Signature>) -> (r: Vec<Signature>)
    ensures
        r@.map_values(|s: Signature| s@) == v@.map_values(|s: Signature| s@),
{
    let mut r: Vec<Signature> = Vec::new();
    let mut i: usize = 0;
    while i < v.len()
        invariant
            i <= v@.len(),
            r@.len() == i,
            forall|j: int| 0 <= j < i ==> (#[trigger] r@[j])@ == v@[j]@,
        decreases v@.len() - i,
    {
        let c = v[i].clone();
        r.push(c);
        i = i + 1;
    }
    assert(r@.map_values(|s: Signature| s@) =~= v@.map_values(|s: Signature| s@));
    r
}

fn clone_rejections(v: &Vec<Rejection>) -> (r: Vec<Rejection>)
    ensures
        r@.map_values(|s: Rejection| s@) == v@.map_values(|s: Rejection| s@),
{
    let mut r: Vec<Rejection> = Vec::new();
    let mut i: usize = 0;
    while i < v.len()
        invariant
            i <= v@.len(),
            r@.len() == i,
            forall|j: int| 0 <= j < i ==> (#[trigger] r@[j])@ == v@[j]@,
        decreases v@.len() - i,
    {
        let c = v[i].clone();
        r.push(c);
        i = i + 1;
    }
    assert(r@.map_values(|s: Rejection| s@) =~= v@.map_values(|s: Rejection| s@));
    r
}

impl Clone for Deal {
    fn clone(&self) -> (r: Self)
        ensures
            r.dv() == self.dv(),
    {
        Deal {
            id: self.id.clone(),
            title: self.title.clone(),
            body: self.body.clone(),
            parties: clone_strings(&self.parties),
            signatures: clone_signatures(&self.signatures),
            rejections: clone_rejections(&self.rejections),
            created_at: self.created_at,
            created_by: clone_opt_string(&self.created_by),
        }
    }
}

impl Clone for DealView {
    fn clone(&self) -> (r: Self)
        ensures
            r@ == self@,
    {
        DealView { deal: self.deal.clone(), status: self.status.clone(), remaining: clone_strings(&self.remaining) }
    }
}

// ---------- reading a deal ----------

impl Deal {
    pub fn signed_by(&self, name: &str) -> (b: bool)
        ensures
            b == has_signed(self.dv(), name@),
    {
        let n = chars_of(name);
        let mut i: usize = 0;
        while i < self.signatures.len()
            invariant
                n@ == name@,
                i <= self.signatures@.len(),
                forall|j: int| 0 <= j < i ==> !eq_ci_spec(#[trigger] self.dv().signatures[j].name, name@),
            decreases self.signatures@.len() - i,
        {
            let s = chars_of(self.signatures[i].name.as_str());
            if eq_ci_chars(s.as_slice(), n.as_slice()) {
                assert(self.dv().signatures[i as int].name == self.signatures@[i as int].name@);
                return true;
            }
            i = i + 1;
        }
        false
    }

    pub fn rejected_by(&self, name: &str) -> (b: bool)
        ensures
            b == has_rejected(self.dv(), name@),
    {
        let n = chars_of(name);
        let mut i: usize = 0;
        while i < self.rejections.len()
            invariant
                n@ == name@,
                i <= self.rejections@.len(),
                forall|j: int| 0 <= j < i ==> !eq_ci_spec(#[trigger] self.dv().rejections[j].name, name@),
            decreases self.rejections@.len() - i,
        {
            let s = chars_of(self.rejections[i].name.as_str());
            if eq_ci_chars(s.as_slice(), n.as_slice()) {
                assert(self.dv().rejections[i as int].name == self.rejections@[i as int].name@);
                return true;
            }
            i = i + 1;
        }
        false
    }

    pub fn has_party(&self, name: &str) -> (b: bool)
        ensures
            b == is_party(self.dv(), name@),
    {
        let n = chars_of(name);
        let mut i: usize = 0;
        while i < self.parties.len()
            invariant
                n@ == name@,
                i <= self.parties@.len(),
                forall|j: int| 0 <= j < i ==> !eq_ci_spec(#[trigger] self.dv().parties[j], name@),
            decreases self.parties@.len() - i,
        {
            let s = chars_of(self.parties[i].as_str());
            assert(self.dv().parties[i as int] == self.parties@[i as int]@);
            if eq_ci_chars(s.as_slice(), n.as_slice()) {
                return true;
            }
            i = i + 1;
        }
        false
    }

    /// The deal's status: "rejected", "signed", "partial" or "pending".
    pub fn status(&self) -> (s: &'static str)
        ensures
            s@ == status_spec(self.dv()),
    {
        if self.rejections.len() > 0 {
            return "rejected";
        }
        let mut all = self.parties.len() > 0;
        let mut i: usize = 0;
        while i < self.parties.len()
            invariant
                i <= self.parties@.len(),
                all == (self.parties@.len() > 0 && forall|j: int| 0 <= j < i ==> has_signed(self.dv(), #[trigger] self.dv().parties[j])),
            decreases self.parties@.len() - i,
        {
            assert(self.dv().parties[i as int] == self.parties@[i as int]@);
            if !self.signed_by(self.parties[i].as_str()) {
                all = false;
            }
            i = i + 1;
        }
        if all {
            return "signed";
        }
        if self.signatures.len() > 0 { "partial" } else { "pending" }
    }

    /// The parties that have neither signed nor rejected, in order.
    pub fn remaining(&self) -> (r: Vec<String>)
        ensures
            r.deep_view() == remaining_spec(self.dv()),
    {
        let mut r: Vec<String> = Vec::new();
        let mut i: usize = 0;
        while i < self.parties.len()
            invariant
                i <= self.parties@.len(),
                r.deep_view() == remaining_of(self.dv(), self.dv().parties.subrange(0, i as int)),
            decreases self.parties@.len() - i,
        {
            let p = self.parties[i].as_str();
            let ghost pre = self.dv().parties.subrange(0, i as int);
            assert(self.dv().parties.subrange(0, i + 1).drop_last() =~= pre);
            if !self.signed_by(p) && !self.rejected_by(p) {
                r.push(self.parties[i].clone());
                assert(r.deep_view() =~= remaining_of(self.dv(), pre).push(self.dv().parties[i as int]));
            }
            i = i + 1;
        }
        assert(self.dv().parties.subrange(0, self.dv().parties.len() as int) =~= self.dv().parties);
        r
    }

    /// The deal with its status and remaining parties.
    pub fn view(&self) -> (v: DealView)
        ensures
            v@ == view_spec(self.dv()),
    {
        let remaining = self.remaining();
        let status = String::from_str(self.status());
        DealView { remaining, status, deal: self.clone() }
    }
}

} // verus!

verus! {

// ---------- errors ----------

#[derive(Debug)]
pub enum DealError {
    TitleRequired,
    TitleTooLong,
    BodyTooLong,
    NoParties,
    TooManyParties,
    InvalidParty(String),
    NameRequired,
    NotFound,
    NotAParty(String),
    AlreadySigned(String),
    AlreadyRejected(String),
}

/// A deal error as a mathematical value.
pub enum DealFault {
    TitleRequired,
    TitleTooLong,
    BodyTooLong,
    NoParties,
    TooManyParties,
    InvalidParty(Seq<char>),
    NameRequired,
    NotFound,
    NotAParty(Seq<char>),
    AlreadySigned(Seq<char>),
    AlreadyRejected(Seq<char>),
}

impl View for DealError {
    type V = DealFault;

    open spec fn view(&self) -> DealFault {
        match self {
            DealError::TitleRequired => DealFault::TitleRequired,
            DealError::TitleTooLong => DealFault::TitleTooLong,
            DealError::BodyTooLong => DealFault::BodyTooLong,
            DealError::NoParties => DealFault::NoParties,
            DealError::TooManyParties => DealFault::TooManyParties,
            DealError::InvalidParty(p) => DealFault::InvalidParty(p@),
            DealError::NameRequired => DealFault::NameRequired,
            DealError::NotFound => DealFault::NotFound,
            DealError::NotAParty(n) => DealFault::NotAParty(n@),
            DealError::AlreadySigned(n) => DealFault::AlreadySigned(n@),
            DealError::AlreadyRejected(n) => DealFault::AlreadyRejected(n@),
        }
    }
}

/// The text shown for each deal error.
pub open spec fn fault_message(f: DealFault) -> Seq<char> {
    match f {
        DealFault::TitleRequired => "title required"@,
        DealFault::TitleTooLong => "title too long"@,
        DealFault::BodyTooLong => "body too long (16 KB max)"@,
        DealFault::NoParties => "at least one party required"@,
        DealFault::TooManyParties => "too many parties (32 max)"@,
        DealFault::InvalidParty(p) => "invalid party name: "@ + p,
        DealFault::NameRequired => "name required"@,
        DealFault::NotFound => "deal not found"@,
        DealFault::NotAParty(n) => "'"@ + n + "' is not a party to this deal"@,
        DealFault::AlreadySigned(n) => "'"@ + n + "' has already signed"@,
        DealFault::AlreadyRejected(n) => "'"@ + n + "' has already rejected"@,
    }
}

impl DealError {
    pub fn message(&self) -> (m: String)
        ensures
            m@ == fault_message(self@),
    {
        match self {
            DealError::TitleRequired => String::from_str("title required"),
            DealError::TitleTooLong => String::from_str("title too long"),
            DealError::BodyTooLong => String::from_str("body too long (16 KB max)"),
            DealError::NoParties => String::from_str("at least one party required"),
            DealError::TooManyParties => String::from_str("too many parties (32 max)"),
            DealError::InvalidParty(p) => {
                let mut m = String::from_str("invalid party name: ");
                m.append(p.as_str());
                m
            },
            DealError::NameRequired => String::from_str("name required"),
            DealError::NotFound => String::from_str("deal not found"),
            DealError::NotAParty(n) => crate::text::concat3("'", n.as_str(), "' is not a party to this deal"),
            DealError::AlreadySigned(n) => crate::text::concat3("'", n.as_str(), "' has already signed"),
            DealError::AlreadyRejected(n) => crate::text::concat3("'", n.as_str(), "' has already rejected"),
        }
    }
}

// ---------- the store ----------

/// A fresh eight-character id, short enough to type in chat.
pub fn short_id() -> (id: String)
    ensures
        id@.len() == 8,
        forall|i: int| 0 <= i < 8 ==> is_lower_hex(#[trigger] id@[i]),
{
    let u = crate::ids::random_uuid_simple();
    let cs = chars_of(u.as_str());
    let mut out: Vec<char> = Vec::new();
    let mut i: usize = 0;
    while i < 8
        invariant
            cs@.len() == 32,
            forall|k: int| 0 <= k < 32 ==> is_lower_hex(#[trigger] cs@[k]),
            i <= 8,
            out@ == cs@.subrange(0, i as int),
        decreases 8 - i,
    {
        out.push(cs[i]);
        assert(cs@.subrange(0, i + 1) =~= cs@.subrange(0, i as int).push(cs@[i as int]));
        i = i + 1;
    }
    string_of(out.as_slice())
}

pub open spec fn ids_unique(s: Seq<DealV>) -> bool {
    forall|i: int, j: int| 0 <= i < s.len() && 0 <= j < s.len() && i != j ==> s[i].id != s[j].id
}

/// Where the deal with this id stands, if there is one.
pub open spec fn index_of_id(s: Seq<DealV>, id: Seq<char>) -> Option<int> {
    if exists|i: int| 0 <= i < s.len() && s[i].id == id {
        Some(choose|i: int| 0 <= i < s.len() && s[i].id == id)
    } else {
        None
    }
}

/// The store after putting `d` under its id, replacing any deal with that id.
pub open spec fn store_put(s: Seq<DealV>, d: DealV) -> Seq<DealV> {
    match index_of_id(s, d.id) {
        Some(i) => s.update(i, d),
        None => s.push(d),
    }
}

/// The store after putting each of `ds` in turn.
pub open spec fn put_all(s: Seq<DealV>, ds: Seq<DealV>) -> Seq<DealV>
    decreases ds.len(),
{
    if ds.len() == 0 { s } else { store_put(put_all(s, ds.drop_last()), ds.last()) }
}

/// The deal looked up by id.
pub open spec fn lookup(s: Seq<DealV>, id: Seq<char>) -> Option<DealV> {
    match index_of_id(s, id) {
        Some(i) => Some(s[i]),
        None => None,
    }
}

/// The non-empty trimmed party names, in order.
pub open spec fn clean_parties(ps: Seq<Seq<char>>) -> Seq<Seq<char>>
    decreases ps.len(),
{
    if ps.len() == 0 {
        Seq::empty()
    } else {
        let rest = clean_parties(ps.drop_last());
        let t = trim_spec(ps.last());
        if t.len() > 0 { rest.push(t) } else { rest }
    }
}

pub open spec fn party_name_ok(p: Seq<char>) -> bool {
    utf8_len(p) <= 16 && all_name_chars(p)
}

/// The position of the first party name that is not acceptable.
pub open spec fn first_invalid(ps: Seq<Seq<char>>) -> Option<int> {
    if exists|i: int| 0 <= i < ps.len() && !party_name_ok(ps[i]) {
        Some(choose|i: int| 0 <= i < ps.len() && !party_name_ok(ps[i]) && forall|j: int| 0 <= j < i ==> party_name_ok(ps[j]))
    } else {
        None
    }
}

pub open spec fn clean_creator(c: Option<Seq<char>>) -> Option<Seq<char>> {
    match c {
        Some(s) => if trim_spec(s).len() > 0 { Some(trim_spec(s)) } else { None },
        None => None,
    }
}

/// Why a new deal is refused, if it is.
pub open spec fn create_fault(title: Seq<char>, body: Seq<char>, parties: Seq<Seq<char>>) -> Option<DealFault> {
    let ps = clean_parties(parties);
    if trim_spec(title).len() == 0 {
        Some(DealFault::TitleRequired)
    } else if utf8_len(title) > 200 {
        Some(DealFault::TitleTooLong)
    } else if utf8_len(body) > 16000 {
        Some(DealFault::BodyTooLong)
    } else if ps.len() == 0 {
        Some(DealFault::NoParties)
    } else if ps.len() > 32 {
        Some(DealFault::TooManyParties)
    } else if first_invalid(ps) is Some {
        Some(DealFault::InvalidParty(ps[first_invalid(ps).unwrap()]))
    } else {
        None
    }
}

/// The deal that an accepted creation makes.
pub open spec fn new_deal(id: Seq<char>, title: Seq<char>, body: Seq<char>, parties: Seq<Seq<char>>, created_by: Option<Seq<char>>, now: i64) -> DealV {
    DealV {
        id,
        title: trim_spec(title),
        body,
        parties: clean_parties(parties),
        signatures: Seq::empty(),
        rejections: Seq::empty(),
        created_at: now,
        created_by: clean_creator(created_by),
    }
}

/// Why a signature is refused, if it is.
pub open spec fn approve_fault(s: Seq<DealV>, id: Seq<char>, name: Seq<char>) -> Option<DealFault> {
    if trim_spec(name).len() == 0 {
        Some(DealFault::NameRequired)
    } else {
        match lookup(s, id) {
            None => Some(DealFault::NotFound),
            Some(d) => if !is_party(d, name) {
                Some(DealFault::NotAParty(name))
            } else if has_signed(d, name) {
                Some(DealFault::AlreadySigned(name))
            } else if has_rejected(d, name) {
                Some(DealFault::AlreadyRejected(name))
            } else {
                None
            },
        }
    }
}

/// Why a rejection is refused, if it is.
pub open spec fn reject_fault(s: Seq<DealV>, id: Seq<char>, name: Seq<char>) -> Option<DealFault> {
    if trim_spec(name).len() == 0 {
        Some(DealFault::NameRequired)
    } else {
        match lookup(s, id) {
            None => Some(DealFault::NotFound),
            Some(d) => if !is_party(d, name) {
                Some(DealFault::NotAParty(name))
            } else if has_rejected(d, name) {
                Some(DealFault::AlreadyRejected(name))
            } else {
                None
            },
        }
    }
}

pub open spec fn with_signature(d: DealV, name: Seq<char>, at: i64) -> DealV {
    DealV { signatures: d.signatures.push(SignatureV { name, signed_at: at }), ..d }
}

pub open spec fn with_rejection(d: DealV, name: Seq<char>, at: i64, reason: Option<Seq<char>>) -> DealV {
    DealV { rejections: d.rejections.push(RejectionV { name, rejected_at: at, reason }), ..d }
}

/// The deal store: at most one deal per id.
#[derive(Debug)]
pub struct DealStore {
    deals: Vec<Deal>,
}

impl DealStore {
    /// The deals, in storage order.
    pub closed spec fn deals(&self) -> Seq<DealV> {
        self.deals@.map_values(|d: Deal| d.dv())
    }

    pub open spec fn wf(&self) -> bool {
        ids_unique(self.deals())
    }

    pub fn new() -> (s: DealStore)
        ensures
            s.wf(),
            s.deals() == Seq::<DealV>::empty(),
    {
        let s = DealStore { deals: Vec::new() };
        assert(s.deals() =~= Seq::<DealV>::empty());
        s
    }

    /// The stored deals, for saving.
    pub fn to_vec(&self) -> (v: Vec<Deal>)
        ensures
            v@.map_values(|d: Deal| d.dv()) == self.deals(),
    {
        let mut v: Vec<Deal> = Vec::new();
        let mut i: usize = 0;
        while i < self.deals.len()
            invariant
                i <= self.deals@.len(),
                v@.len() == i,
                forall|j: int| 0 <= j < i ==> (#[trigger] v@[j]).dv() == self.deals@[j].dv(),
            decreases self.deals@.len() - i,
        {
            v.push(self.deals[i].clone());
            i = i + 1;
        }
        assert(v@.map_values(|d: Deal| d.dv()) =~= self.deals());
        v
    }

    fn find(&self, id: &str) -> (r: Option<usize>)
        requires
            self.wf(),
        ensures
            r matches Some(i) ==> index_of_id(self.deals(), id@) == Some(i as int),
            r is None ==> index_of_id(self.deals(), id@) is None,
    {
        let mut i: usize = 0;
        while i < self.deals.len()
            invariant
                self.wf(),
                i <= self.deals@.len(),
                forall|j: int| 0 <= j < i ==> self.deals()[j].id != id@,
            decreases self.deals@.len() - i,
        {
            assert(self.deals()[i as int].id == self.deals@[i as int].id@);
            if same_text(self.deals[i].id.as_str(), id) {
                proof {
                    let k = choose|k: int| 0 <= k < self.deals().len() && self.deals()[k].id == id@;
                    assert(k == i);
                }
                return Some(i);
            }
            i = i + 1;
        }
        None
    }

    /// Put a deal under its id, replacing any deal with that id.
    pub fn put(&mut self, d: Deal)
        requires
            old(self).wf(),
        ensures
            final(self).wf(),
            final(self).deals() == store_put(old(self).deals(), d.dv()),
    {
        let ghost dv = d.dv();
        match self.find(d.id.as_str()) {
            Some(i) => {
                self.deals.set(i, d);
                assert(self.deals() =~= store_put(old(self).deals(), dv));
            },
            None => {
                self.deals.push(d);
                assert(self.deals() =~= store_put(old(self).deals(), dv));
            },
        }
    }

    /// A store holding the given deals; a later deal replaces an earlier one with its id.
    pub fn from_deals(v: Vec<Deal>) -> (s: DealStore)
        ensures
            s.wf(),
            forall|k: int| 0 <= k < v@.len() ==> lookup(s.deals(), (#[trigger] v@[k]).dv().id) is Some,
            forall|k: int| 0 <= k < s.deals().len() ==> exists|j: int| 0 <= j < v@.len() && v@[j].dv() == #[trigger] s.deals()[k],
            s.deals() == put_all(Seq::empty(), v@.map_values(|d: Deal| d.dv())),
    {
        let mut s = DealStore::new();
        let mut v = v;
        let ghost orig = v@;
        let n = v.len();
        let mut i: usize = 0;
        while i < n
            invariant
                n == orig.len(),
                i <= n,
                s.wf(),
                v@ == orig.subrange(i as int, n as int),
                forall|k: int| 0 <= k < i ==> lookup(s.deals(), (#[trigger] orig[k]).dv().id) is Some,
                forall|k: int| 0 <= k < s.deals().len() ==> exists|j: int| 0 <= j < i && orig[j].dv() == #[trigger] s.deals()[k],
                s.deals() == put_all(Seq::empty(), orig.subrange(0, i as int).map_values(|d: Deal| d.dv())),
            decreases n - i,
        {
            proof {
                let f = |d: Deal| d.dv();
                assert(orig.subrange(0, i + 1).map_values(f).drop_last() =~= orig.subrange(0, i as int).map_values(f));
            }
            let d = v.remove(0);
            assert(d == orig[i as int]);
            let ghost before = s.deals();
            s.put(d);
            assert forall|k: int| 0 <= k < i + 1 implies lookup(s.deals(), (#[trigger] orig[k]).dv().id) is Some by {
                let idk = orig[k].dv().id;
                let after = s.deals();
                if k == i {
                    match index_of_id(before, idk) {
                        Some(p) => { assert(after[p].id == idk); },
                        None => { assert(after[before.len() as int].id == idk); },
                    }
                } else {
                    let p = index_of_id(before, idk).unwrap();
                    assert(before[p].id == idk);
                    match index_of_id(before, orig[i as int].dv().id) {
                        Some(q) => { if q == p { assert(after[p].id == idk); } else { assert(after[p].id == idk); } },
                        None => { assert(after[p].id == idk); },
                    }
                }
            }
            assert forall|k: int| 0 <= k < s.deals().len() implies exists|j: int| 0 <= j < i + 1 && orig[j].dv() == #[trigger] s.deals()[k] by {
                let after = s.deals();
                match index_of_id(before, orig[i as int].dv().id) {
                    Some(q) => {
                        if k == q { assert(orig[i as int].dv() == after[k]); } else { assert(after[k] == before[k]); }
                    },
                    None => {
                        if k == before.len() { assert(orig[i as int].dv() == after[k]); } else { assert(after[k] == before[k]); }
                    },
                }
            }
            i = i + 1;
        }
        assert(orig.subrange(0, n as int) =~= orig);
        s
    }

    /// The deal with this id, as shown.
    pub fn get(&self, id: &str) -> (r: Option<DealView>)
        requires
            self.wf(),
        ensures
            match lookup(self.deals(), id@) {
                Some(d) => r matches Some(v) && v@ == view_spec(d),
                None => r is None,
            },
    {
        match self.find(id) {
            Some(i) => Some(self.deals[i].view()),
            None => None,
        }
    }

    /// Remove the deal with this id; tells whether there was one.
    pub fn delete(&mut self, id: &str) -> (removed: bool)
        requires
            old(self).wf(),
        ensures
            final(self).wf(),
            removed == (lookup(old(self).deals(), id@) is Some),
            removed ==> final(self).deals() == old(self).deals().remove(index_of_id(old(self).deals(), id@).unwrap()),
            !removed ==> final(self).deals() == old(self).deals(),
            lookup(final(self).deals(), id@) is None,
    {
        match self.find(id) {
            Some(i) => {
                self.deals.remove(i);
                let ghost o = old(self).deals();
                assert(self.deals() =~= o.remove(i as int));
                assert forall|a: int, b: int| 0 <= a < self.deals().len() && 0 <= b < self.deals().len() && a != b
                    implies self.deals()[a].id != self.deals()[b].id by {
                    let a2 = if a < i { a } else { a + 1 };
                    let b2 = if b < i { b } else { b + 1 };
                    assert(self.deals()[a] == o[a2]);
                    assert(self.deals()[b] == o[b2]);
                }
                assert forall|k: int| 0 <= k < self.deals().len() implies self.deals()[k].id != id@ by {
                    let k2 = if k < i { k } else { k + 1 };
                    assert(self.deals()[k] == o[k2]);
                }
                true
            },
            None => false,
        }
    }
}

} // verus!

verus! {

/// The trimmed, non-empty party names.
fn clean_party_list(parties: &Vec<String>) -> (r: Vec<String>)
    ensures
        r.deep_view() == clean_parties(parties.deep_view()),
{
    let mut out: Vec<String> = Vec::new();
    let mut i: usize = 0;
    while i < parties.len()
        invariant
            i <= parties@.len(),
            out.deep_view() == clean_parties(parties.deep_view().subrange(0, i as int)),
        decreases parties@.len() - i,
    {
        let t = crate::text::trim(parties[i].as_str());
        let ghost pre = parties.deep_view().subrange(0, i as int);
        assert(parties.deep_view().subrange(0, i + 1).drop_last() =~= pre);
        assert(parties.deep_view().subrange(0, i + 1).last() == parties@[i as int]@);
        if !t.as_str().is_empty() {
            out.push(t);
            assert(out.deep_view() =~= clean_parties(pre).push(trim_spec(parties@[i as int]@)));
        }
        i = i + 1;
    }
    assert(parties.deep_view().subrange(0, parties@.len() as int) =~= parties.deep_view());
    out
}

/// The position of the first party name that is not acceptable.
fn find_invalid_party(ps: &Vec<String>) -> (r: Option<usize>)
    ensures
        r matches Some(i) ==> first_invalid(ps.deep_view()) == Some(i as int),
        r is None ==> first_invalid(ps.deep_view()) is None,
{
    let ghost v = ps.deep_view();
    let mut i: usize = 0;
    while i < ps.len()
        invariant
            v == ps.deep_view(),
            i <= ps@.len(),
            forall|j: int| 0 <= j < i ==> party_name_ok(v[j]),
        decreases ps@.len() - i,
    {
        let cs = chars_of(ps[i].as_str());
        assert(v[i as int] == ps@[i as int]@);
        if ps[i].as_str().as_bytes().len() > 16 || !crate::text::all_name_chars_of(cs.as_slice()) {
            proof {
                let k = choose|k: int| 0 <= k < v.len() && !party_name_ok(v[k]) && forall|j: int| 0 <= j < k ==> party_name_ok(v[j]);
                if k < i { } else if k > i { assert(party_name_ok(v[i as int])); }
            }
            return Some(i);
        }
        i = i + 1;
    }
    None
}

fn clean_creator_of(c: Option<String>) -> (r: Option<String>)
    ensures
        opt_str(r) == clean_creator(opt_str(c)),
{
    match c {
        Some(s) => {
            let t = crate::text::trim(s.as_str());
            if !t.as_str().is_empty() {
                Some(t)
            } else {
                None
            }
        },
        None => None,
    }
}

/// Check a new deal's fields; on success, its trimmed title and party names.
fn validate_new(title: &str, body: &str, parties: &Vec<String>) -> (r: Result<(String, Vec<String>), DealError>)
    ensures
        match create_fault(title@, body@, parties.deep_view()) {
            Some(f) => r matches Err(e) && e@ == f,
            None => r matches Ok((t, ps)) && t@ == trim_spec(title@) && ps.deep_view() == clean_parties(parties.deep_view()),
        },
{
    let t = crate::text::trim(title);
    if t.as_str().is_empty() {
        return Err(DealError::TitleRequired);
    }
    if title.as_bytes().len() > 200 {
        return Err(DealError::TitleTooLong);
    }
    if body.as_bytes().len() > 16000 {
        return Err(DealError::BodyTooLong);
    }
    let ps = clean_party_list(parties);
    if ps.len() == 0 {
        return Err(DealError::NoParties);
    }
    if ps.len() > 32 {
        return Err(DealError::TooManyParties);
    }
    match find_invalid_party(&ps) {
        Some(i) => {
            assert(ps.deep_view()[i as int] == ps@[i as int]@);
            Err(DealError::InvalidParty(ps[i].clone()))
        },
        None => Ok((t, ps)),
    }
}

/// The key deals are listed by: their creation time.
pub open spec fn created_keys(s: Seq<DealV>) -> Seq<i128> {
    s.map_values(|d: DealV| d.created_at as i128)
}

impl DealStore {
    /// Create a deal under the id `id` at time `now`.
    pub fn create_at(&mut self, title: String, body: String, parties: Vec<String>, created_by: Option<String>, id: String, now: i64) -> (r: Result<DealView, DealError>)
        requires
            old(self).wf(),
        ensures
            final(self).wf(),
            match create_fault(title@, body@, parties.deep_view()) {
                Some(f) => r matches Err(e) && e@ == f && final(self).deals() == old(self).deals(),
                None => {
                    let d = new_deal(id@, title@, body@, parties.deep_view(), opt_str(created_by), now);
                    &&& r matches Ok(v) && v@ == view_spec(d)
                    &&& final(self).deals() == store_put(old(self).deals(), d)
                },
            },
    {
        let (t, ps) = match validate_new(title.as_str(), body.as_str(), &parties) {
            Ok(x) => x,
            Err(e) => return Err(e),
        };
        let deal = Deal {
            id,
            title: t,
            body,
            parties: ps,
            signatures: Vec::new(),
            rejections: Vec::new(),
            created_at: now,
            created_by: clean_creator_of(created_by),
        };
        assert(deal.dv().signatures =~= Seq::<SignatureV>::empty());
        assert(deal.dv().rejections =~= Seq::<RejectionV>::empty());
        let v = deal.view();
        self.put(deal);
        Ok(v)
    }

    /// Create a deal under a fresh short id, stamped with the current time.
    pub fn create(&mut self, title: String, body: String, parties: Vec<String>, created_by: Option<String>) -> (r: Result<DealView, DealError>)
        requires
            old(self).wf(),
        ensures
            final(self).wf(),
            match create_fault(title@, body@, parties.deep_view()) {
                Some(f) => r matches Err(e) && e@ == f && final(self).deals() == old(self).deals(),
                None => r matches Ok(v) && {
                    let d = new_deal(v@.deal.id, title@, body@, parties.deep_view(), opt_str(created_by), v@.deal.created_at);
                    &&& v@.deal.id.len() == 8
                    &&& forall|i: int| 0 <= i < 8 ==> is_lower_hex(#[trigger] v@.deal.id[i])
                    &&& v@ == view_spec(d)
                    &&& final(self).deals() == store_put(old(self).deals(), d)
                },
            },
    {
        let id = short_id();
        let now = crate::clock::now_micros();
        self.create_at(title, body, parties, created_by, id, now)
    }

    /// `name` signs deal `id` at time `now`.
    pub fn approve_at(&mut self, id: &str, name: &str, now: i64) -> (r: Result<DealView, DealError>)
        requires
            old(self).wf(),
        ensures
            final(self).wf(),
            match approve_fault(old(self).deals(), id@, name@) {
                Some(f) => r matches Err(e) && e@ == f && final(self).deals() == old(self).deals(),
                None => {
                    let i = index_of_id(old(self).deals(), id@).unwrap();
                    let d = with_signature(old(self).deals()[i], name@, now);
                    &&& r matches Ok(v) && v@ == view_spec(d)
                    &&& final(self).deals() == old(self).deals().update(i, d)
                },
            },
    {
        let t = crate::text::trim(name);
        if t.as_str().is_empty() {
            return Err(DealError::NameRequired);
        }
        let i = match self.find(id) {
            Some(i) => i,
            None => return Err(DealError::NotFound),
        };
        let ghost old_deals = self.deals();
        assert(old_deals[i as int] == self.deals@[i as int].dv());
        if !self.deals[i].has_party(name) {
            return Err(DealError::NotAParty(String::from_str(name)));
        }
        if self.deals[i].signed_by(name) {
            return Err(DealError::AlreadySigned(String::from_str(name)));
        }
        if self.deals[i].rejected_by(name) {
            return Err(DealError::AlreadyRejected(String::from_str(name)));
        }
        let mut d = self.deals[i].clone();
        let ghost before = d.dv();
        let sig = Signature { name: String::from_str(name), signed_at: now };
        let ghost sv = sig@;
        d.signatures.push(sig);
        assert(d.dv().signatures =~= before.signatures.push(sv));
        assert(d.dv() =~= with_signature(old_deals[i as int], name@, now));
        let v = d.view();
        self.deals.set(i, d);
        assert(self.deals() =~= old_deals.update(i as int, with_signature(old_deals[i as int], name@, now)));
        proof { lemma_update_keeps_ids(old_deals, i as int, with_signature(old_deals[i as int], name@, now)); }
        Ok(v)
    }

    /// `name` signs deal `id`, stamped with the current time.
    pub fn approve(&mut self, id: &str, name: &str) -> (r: Result<DealView, DealError>)
        requires
            old(self).wf(),
        ensures
            final(self).wf(),
            match approve_fault(old(self).deals(), id@, name@) {
                Some(f) => r matches Err(e) && e@ == f && final(self).deals() == old(self).deals(),
                None => r matches Ok(v) && {
                    let i = index_of_id(old(self).deals(), id@).unwrap();
                    let d = with_signature(old(self).deals()[i], name@, v@.deal.signatures.last().signed_at);
                    &&& v@ == view_spec(d)
                    &&& final(self).deals() == old(self).deals().update(i, d)
                },
            },
    {
        let now = crate::clock::now_micros();
        self.approve_at(id, name, now)
    }

    /// `name` rejects deal `id` at time `now`, with an optional reason.
    pub fn reject_at(&mut self, id: &str, name: &str, reason: Option<String>, now: i64) -> (r: Result<DealView, DealError>)
        requires
            old(self).wf(),
        ensures
            final(self).wf(),
            match reject_fault(old(self).deals(), id@, name@) {
                Some(f) => r matches Err(e) && e@ == f && final(self).deals() == old(self).deals(),
                None => {
                    let i = index_of_id(old(self).deals(), id@).unwrap();
                    let d = with_rejection(old(self).deals()[i], name@, now, opt_str(reason));
                    &&& r matches Ok(v) && v@ == view_spec(d)
                    &&& final(self).deals() == old(self).deals().update(i, d)
                },
            },
    {
        let t = crate::text::trim(name);
        if t.as_str().is_empty() {
            return Err(DealError::NameRequired);
        }
        let i = match self.find(id) {
            Some(i) => i,
            None => return Err(DealError::NotFound),
        };
        let ghost old_deals = self.deals();
        assert(old_deals[i as int] == self.deals@[i as int].dv());
        if !self.deals[i].has_party(name) {
            return Err(DealError::NotAParty(String::from_str(name)));
        }
        if self.deals[i].rejected_by(name) {
            return Err(DealError::AlreadyRejected(String::from_str(name)));
        }
        let ghost rv = opt_str(reason);
        let mut d = self.deals[i].clone();
        let ghost before = d.dv();
        let rej = Rejection { name: String::from_str(name), rejected_at: now, reason };
        let ghost rjv = rej@;
        d.rejections.push(rej);
        assert(d.dv().rejections =~= before.rejections.push(rjv));
        assert(d.dv() =~= with_rejection(old_deals[i as int], name@, now, rv));
        let v = d.view();
        self.deals.set(i, d);
        assert(self.deals() =~= old_deals.update(i as int, with_rejection(old_deals[i as int], name@, now, rv)));
        proof { lemma_update_keeps_ids(old_deals, i as int, with_rejection(old_deals[i as int], name@, now, rv)); }
        Ok(v)
    }

    /// `name` rejects deal `id`, stamped with the current time.
    pub fn reject(&mut self, id: &str, name: &str, reason: Option<String>) -> (r: Result<DealView, DealError>)
        requires
            old(self).wf(),
        ensures
            final(self).wf(),
            match reject_fault(old(self).deals(), id@, name@) {
                Some(f) => r matches Err(e) && e@ == f && final(self).deals() == old(self).deals(),
                None => r matches Ok(v) && {
                    let i = index_of_id(old(self).deals(), id@).unwrap();
                    let d = with_rejection(old(self).deals()[i], name@, v@.deal.rejections.last().rejected_at, opt_str(reason));
                    &&& v@ == view_spec(d)
                    &&& final(self).deals() == old(self).deals().update(i, d)
                },
            },
    {
        let now = crate::clock::now_micros();
        self.reject_at(id, name, reason, now)
    }

    /// Every deal as shown, newest first.
    pub fn list(&self) -> (r: Vec<DealView>)
        ensures
            exists|perm: Seq<usize>| crate::order::is_permutation(perm, self.deals().len())
                && crate::order::stable_descending(created_keys(self.deals()), perm)
                && r@.len() == self.deals().len()
                && forall|k: int| 0 <= k < r@.len() ==> (#[trigger] r@[k])@ == view_spec(self.deals()[perm[k] as int]),
    {
        let mut keys: Vec<i128> = Vec::new();
        let mut i: usize = 0;
        while i < self.deals.len()
            invariant
                i <= self.deals@.len(),
                keys@ == created_keys(self.deals().subrange(0, i as int)),
            decreases self.deals@.len() - i,
        {
            keys.push(self.deals[i].created_at as i128);
            assert(created_keys(self.deals().subrange(0, i + 1))
                =~= created_keys(self.deals().subrange(0, i as int)).push(self.deals@[i as int].created_at as i128));
            i = i + 1;
        }
        assert(self.deals().subrange(0, self.deals@.len() as int) =~= self.deals());
        let perm = crate::order::desc_order(&keys);
        let mut out: Vec<DealView> = Vec::new();
        let mut k: usize = 0;
        while k < perm.len()
            invariant
                crate::order::is_permutation(perm@, self.deals@.len()),
                k <= perm@.len(),
                out@.len() == k,
                forall|q: int| 0 <= q < k ==> (#[trigger] out@[q])@ == view_spec(self.deals()[perm@[q] as int]),
            decreases perm@.len() - k,
        {
            out.push(self.deals[perm[k]].view());
            k = k + 1;
        }
        out
    }
}

proof fn lemma_update_keeps_ids(s: Seq<DealV>, i: int, d: DealV)
    requires
        ids_unique(s),
        0 <= i < s.len(),
        d.id == s[i].id,
    ensures
        ids_unique(s.update(i, d)),
{
}

} // verus!

verus! {

proof fn lemma_index_after_update(s: Seq<DealV>, i: int, d: DealV)
    requires
        ids_unique(s),
        0 <= i < s.len(),
        d.id == s[i].id,
    ensures
        index_of_id(s.update(i, d), d.id) == Some(i),
        lookup(s.update(i, d), d.id) == Some(d),
{
    lemma_update_keeps_ids(s, i, d);
    let t = s.update(i, d);
    assert(t[i].id == d.id);
    let k = choose|k: int| 0 <= k < t.len() && t[k].id == d.id;
    assert(k == i);
}

proof fn lemma_index_is_unique(s: Seq<DealV>, id: Seq<char>, i: int)
    requires
        ids_unique(s),
        0 <= i < s.len(),
        s[i].id == id,
    ensures
        index_of_id(s, id) == Some(i),
{
    let k = choose|k: int| 0 <= k < s.len() && s[k].id == id;
    assert(k == i);
}

pub proof fn lemma_eq_ci_refl(a: Seq<char>)
    ensures
        eq_ci_spec(a, a),
{
}

/// A party that has signed cannot sign the same deal again.
pub proof fn law_sign_once(s: Seq<DealV>, id: Seq<char>, name: Seq<char>, at: i64)
    requires
        ids_unique(s),
        approve_fault(s, id, name) is None,
    ensures
        ({
            let i = index_of_id(s, id).unwrap();
            let s2 = s.update(i, with_signature(s[i], name, at));
            approve_fault(s2, id, name) == Some(DealFault::AlreadySigned(name))
        }),
{
    let i = index_of_id(s, id).unwrap();
    let d2 = with_signature(s[i], name, at);
    lemma_index_after_update(s, i, d2);
    lemma_eq_ci_refl(name);
    assert(d2.signatures[d2.signatures.len() - 1].name == name);
    assert(has_signed(d2, name));
    assert forall|k: int| 0 <= k < s[i].parties.len() implies d2.parties[k] == s[i].parties[k] by {}
}

/// Any party that has not yet rejected a deal may reject it, whether or not
/// it has signed: a rejection is refused only for a blank name, an unknown
/// deal, a non-party, or a party that already rejected.
pub proof fn law_reject_allowed(s: Seq<DealV>, id: Seq<char>, name: Seq<char>)
    ensures
        (trim_spec(name).len() > 0 && lookup(s, id) is Some && is_party(lookup(s, id).unwrap(), name)
            && !has_rejected(lookup(s, id).unwrap(), name)) ==> reject_fault(s, id, name) is None,
        reject_fault(s, id, name) is Some <== (trim_spec(name).len() == 0 || lookup(s, id) is None),
{
}

/// A party that has signed a deal can still reject it afterwards, and the
/// rejection then goes through.
pub proof fn law_signed_party_may_reject(s: Seq<DealV>, id: Seq<char>, name: Seq<char>, at: i64)
    requires
        ids_unique(s),
        approve_fault(s, id, name) is None,
    ensures
        ({
            let i = index_of_id(s, id).unwrap();
            let s2 = s.update(i, with_signature(s[i], name, at));
            &&& has_signed(s2[i], name)
            &&& reject_fault(s2, id, name) is None
        }),
{
    let i = index_of_id(s, id).unwrap();
    let d2 = with_signature(s[i], name, at);
    lemma_index_after_update(s, i, d2);
    lemma_eq_ci_refl(name);
    assert(d2.signatures[d2.signatures.len() - 1].name == name);
    let s2 = s.update(i, d2);
    assert(lookup(s2, id) == Some(d2));
    let pk = choose|k: int| 0 <= k < s[i].parties.len() && eq_ci_spec(#[trigger] s[i].parties[k], name);
    assert(d2.parties[pk] == s[i].parties[pk]);
    assert(d2.rejections == s[i].rejections);
}

/// A party that has rejected can neither sign nor reject the deal again.
pub proof fn law_reject_is_final_for_party(s: Seq<DealV>, id: Seq<char>, name: Seq<char>, at: i64, reason: Option<Seq<char>>)
    requires
        ids_unique(s),
        reject_fault(s, id, name) is None,
    ensures
        ({
            let i = index_of_id(s, id).unwrap();
            let s2 = s.update(i, with_rejection(s[i], name, at, reason));
            &&& reject_fault(s2, id, name) == Some(DealFault::AlreadyRejected(name))
            &&& has_signed(s[i], name) ==> approve_fault(s2, id, name) == Some(DealFault::AlreadySigned(name))
            &&& !has_signed(s[i], name) ==> approve_fault(s2, id, name) == Some(DealFault::AlreadyRejected(name))
        }),
{
    let i = index_of_id(s, id).unwrap();
    let d2 = with_rejection(s[i], name, at, reason);
    lemma_index_after_update(s, i, d2);
    lemma_eq_ci_refl(name);
    assert(d2.rejections[d2.rejections.len() - 1].name == name);
    assert(has_rejected(d2, name));
    if has_signed(s[i], name) {
        let k = choose|k: int| 0 <= k < s[i].signatures.len() && eq_ci_spec(#[trigger] s[i].signatures[k].name, name);
        assert(d2.signatures[k] == s[i].signatures[k]);
    }
    if has_signed(d2, name) {
        let k = choose|k: int| 0 <= k < d2.signatures.len() && eq_ci_spec(#[trigger] d2.signatures[k].name, name);
        assert(d2.signatures[k] == s[i].signatures[k]);
    }
    let s2 = s.update(i, d2);
    assert(lookup(s2, id) == Some(d2));
    assert(is_party(s[i], name));
    let pk = choose|k: int| 0 <= k < s[i].parties.len() && eq_ci_spec(#[trigger] s[i].parties[k], name);
    assert(d2.parties[pk] == s[i].parties[pk]);
    assert(is_party(d2, name));
}

/// Once any party has rejected a deal, its status stays "rejected",
/// whatever is signed or rejected afterwards.
pub proof fn law_rejected_is_final(d: DealV, name: Seq<char>, at: i64, reason: Option<Seq<char>>)
    requires
        status_spec(d) == "rejected"@ || d.rejections.len() > 0,
    ensures
        d.rejections.len() > 0,
        status_spec(d) == "rejected"@,
        status_spec(with_signature(d, name, at)) == "rejected"@,
        status_spec(with_rejection(d, name, at, reason)) == "rejected"@,
{
    if d.rejections.len() == 0 {
        reveal_strlit("rejected");
        reveal_strlit("signed");
        reveal_strlit("partial");
        reveal_strlit("pending");
        assert("rejected"@.len() == 8);
        assert("signed"@.len() == 6);
        assert("partial"@.len() == 7);
        assert("pending"@.len() == 7);
        assert(status_spec(d) != "rejected"@);
    }
}

/// A deal is "signed" exactly when nobody rejected it and each of its
/// (one or more) parties has signed it.
pub proof fn law_signed_status(d: DealV)
    ensures
        (status_spec(d) == "signed"@) <==> (d.rejections.len() == 0 && all_signed(d)),
{
    reveal_strlit("rejected");
    reveal_strlit("signed");
    reveal_strlit("partial");
    reveal_strlit("pending");
    assert("rejected"@.len() == 8);
    assert("signed"@.len() == 6);
    assert("partial"@.len() == 7);
    assert("pending"@.len() == 7);
    assert("signed"@[1] == 'i');
    assert("partial"@[1] == 'a');
    assert("pending"@[1] == 'e');
}

/// A created deal can be looked up by its id right away.
pub proof fn law_create_then_lookup(s: Seq<DealV>, d: DealV)
    requires
        ids_unique(s),
    ensures
        lookup(store_put(s, d), d.id) == Some(d),
        ids_unique(store_put(s, d)),
{
    match index_of_id(s, d.id) {
        Some(i) => {
            let k = choose|k: int| 0 <= k < s.len() && s[k].id == d.id;
            lemma_index_after_update(s, i, d);
        },
        None => {
            let t = s.push(d);
            assert(t[s.len() as int].id == d.id);
            lemma_index_is_unique(t, d.id, s.len() as int);
        },
    }
}

/// Signing leaves every other deal unchanged and keeps ids unique.
pub proof fn law_sign_touches_one_deal(s: Seq<DealV>, id: Seq<char>, name: Seq<char>, at: i64)
    requires
        ids_unique(s),
        approve_fault(s, id, name) is None,
    ensures
        ({
            let i = index_of_id(s, id).unwrap();
            let s2 = s.update(i, with_signature(s[i], name, at));
            &&& ids_unique(s2)
            &&& forall|k: int| 0 <= k < s.len() && k != i ==> s2[k] == s[k]
        }),
{
    let i = index_of_id(s, id).unwrap();
    lemma_update_keeps_ids(s, i, with_signature(s[i], name, at));
}

/// The parties still to answer are parties of the deal, none of whom has
/// signed or rejected it; when every party signed, nobody remains.
pub proof fn law_remaining(d: DealV, ps: Seq<Seq<char>>)
    ensures
        forall|k: int| 0 <= k < remaining_of(d, ps).len() ==> ps.contains(#[trigger] remaining_of(d, ps)[k]) && !has_signed(d, remaining_of(d, ps)[k]) && !has_rejected(d, remaining_of(d, ps)[k]),
        (forall|k: int| 0 <= k < ps.len() ==> has_signed(d, #[trigger] ps[k])) ==> remaining_of(d, ps).len() == 0,
    decreases ps.len(),
{
    if ps.len() > 0 {
        law_remaining(d, ps.drop_last());
        let r = remaining_of(d, ps.drop_last());
        assert forall|k: int| 0 <= k < r.len() implies ps.contains(#[trigger] r[k]) by {
            let j = choose|j: int| 0 <= j < ps.drop_last().len() && ps.drop_last()[j] == r[k];
            assert(ps[j] == r[k]);
        }
        assert(ps[ps.len() - 1] == ps.last());
        if forall|k: int| 0 <= k < ps.len() ==> has_signed(d, #[trigger] ps[k]) {
            assert forall|k: int| 0 <= k < ps.drop_last().len() implies has_signed(d, #[trigger] ps.drop_last()[k]) by {
                assert(ps.drop_last()[k] == ps[k]);
            }
        }
    }
}

} // verus!
