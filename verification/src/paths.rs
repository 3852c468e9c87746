//! Paths as text, with the Unix rules of `std::path`: joining, taking the
//! last component, and confining a relative path under a root.
use vstd::prelude::*;
use crate::text::{chars_of, ends_with, ends_with_seq, string_of};

verus! {

/// Why a path or file name is refused.
#[derive(Debug, Clone, Copy, PartialEq, Eq, Structural)]
pub enum PathError {
    /// The name has no final component ("bad name").
    BadName,
    /// Only `.zip` backups may be named.
    OnlyZip,
    /// A relative path tried to climb with "..".
    InvalidComponent,
    /// Not a region file.
    NotMca,
    /// No such dimension.
    UnknownDimension,
    /// A plugin file name without a final component.
    BadFilename,
    /// A plugin file name with a separator or "..".
    InvalidFilename,
    /// A plugin file must be a `.jar`.
    MustBeJar,
}

pub open spec fn path_error_message(e: PathError) -> Seq<char> {
    match e {
        PathError::BadName => "bad name"@,
        PathError::OnlyZip => "only zip backups"@,
        PathError::InvalidComponent => "invalid path component"@,
        PathError::NotMca => "not an mca"@,
        PathError::UnknownDimension => "unknown dimension"@,
        PathError::BadFilename => "bad filename"@,
        PathError::InvalidFilename => "invalid filename"@,
        PathError::MustBeJar => "must be .jar"@,
    }
}

impl PathError {
    pub fn message(&self) -> (m: String)
        ensures
            m@ == path_error_message(*self),
    {
        match self {
            PathError::BadName => String::from_str("bad name"),
            PathError::OnlyZip => String::from_str("only zip backups"),
            PathError::InvalidComponent => String::from_str("invalid path component"),
            PathError::NotMca => String::from_str("not an mca"),
            PathError::UnknownDimension => String::from_str("unknown dimension"),
            PathError::BadFilename => String::from_str("bad filename"),
            PathError::InvalidFilename => String::from_str("invalid filename"),
            PathError::MustBeJar => String::from_str("must be .jar"),
        }
    }
}

/// The pieces of `s` between slashes (an empty piece where two slashes meet,
/// or at either end).
pub open spec fn segs(s: Seq<char>) -> Seq<Seq<char>>
    decreases s.len(),
{
    if s.len() == 0 {
        seq![Seq::empty()]
    } else {
        let r = segs(s.drop_last());
        if s.last() == '/' {
            r.push(Seq::empty())
        } else {
            r.update(r.len() - 1, r.last().push(s.last()))
        }
    }
}

pub proof fn lemma_segs_nonempty(s: Seq<char>)
    ensures
        segs(s).len() >= 1,
    decreases s.len(),
{
    if s.len() > 0 {
        lemma_segs_nonempty(s.drop_last());
    }
}

/// A component that names something: not empty and not ".".
pub open spec fn is_normal_seg(p: Seq<char>) -> bool {
    p.len() > 0 && p != seq!['.']
}

pub open spec fn last_normal(ps: Seq<Seq<char>>) -> Option<Seq<char>>
    decreases ps.len(),
{
    if ps.len() == 0 {
        None
    } else if is_normal_seg(ps.last()) {
        Some(ps.last())
    } else {
        last_normal(ps.drop_last())
    }
}

/// What `Path::new(s).file_name()` gives: the last component, unless the
/// path ends in ".." or has no named component.
pub open spec fn file_name_spec(s: Seq<char>) -> Option<Seq<char>> {
    match last_normal(segs(s)) {
        Some(p) => if p == seq!['.', '.'] { None } else { Some(p) },
        None => None,
    }
}

pub(crate) fn is_normal_chars(p: &Vec<char>) -> (b: bool)
    ensures
        b == is_normal_seg(p@),
{
    if p.len() == 0 {
        return false;
    }
    if p.len() == 1 && p[0] == '.' {
        assert(p@ =~= seq!['.']);
        return false;
    }
    assert(p@ != seq!['.']) by {
        if p@.len() == 1 { assert(p@[0] != '.'); }
    }
    true
}

/// The last component of a path, as `Path::file_name` gives it.
pub fn file_name(s: &str) -> (r: Option<String>)
    ensures
        match file_name_spec(s@) {
            Some(p) => r matches Some(x) && x@ == p,
            None => r is None,
        },
{
    let cs = chars_of(s);
    let mut cur: Vec<char> = Vec::new();
    let mut last: Option<Vec<char>> = None;
    let mut i: usize = 0;
    proof { assert(cs@.subrange(0, 0) =~= Seq::<char>::empty()); }
    while i < cs.len()
        invariant
            cs@ == s@,
            i <= cs@.len(),
            cur@ == segs(cs@.subrange(0, i as int)).last(),
            match last {
                Some(v) => last_normal(segs(cs@.subrange(0, i as int)).drop_last()) == Some(v@),
                None => last_normal(segs(cs@.subrange(0, i as int)).drop_last()) is None,
            },
        decreases cs@.len() - i,
    {
        let ghost pre = cs@.subrange(0, i as int);
        let c = cs[i];
        proof {
            assert(cs@.subrange(0, i + 1).drop_last() =~= pre);
            lemma_segs_nonempty(pre);
        }
        if c == '/' {
            if is_normal_chars(&cur) {
                last = Some(cur);
            }
            cur = Vec::new();
            proof {
                let r = segs(pre);
                assert(segs(cs@.subrange(0, i + 1)) == r.push(Seq::<char>::empty()));
                assert(r.push(Seq::<char>::empty()).drop_last() =~= r);
                assert(r =~= r.drop_last().push(r.last()));
            }
        } else {
            cur.push(c);
            proof {
                let r = segs(pre);
                let r2 = r.update(r.len() - 1, r.last().push(c));
                assert(segs(cs@.subrange(0, i + 1)) == r2);
                assert(r2.drop_last() =~= r.drop_last());
            }
        }
        i = i + 1;
    }
    proof {
        assert(cs@.subrange(0, cs@.len() as int) =~= cs@);
        lemma_segs_nonempty(cs@);
        let r = segs(cs@);
        assert(r =~= r.drop_last().push(r.last()));
    }
    let fin = if is_normal_chars(&cur) { Some(cur) } else { last };
    match fin {
        Some(p) => {
            if p.len() == 2 && p[0] == '.' && p[1] == '.' {
                assert(p@ =~= seq!['.', '.']);
                None
            } else {
                assert(p@ != seq!['.', '.']) by {
                    if p@.len() == 2 { assert(p@[0] != '.' || p@[1] != '.'); }
                }
                Some(string_of(p.as_slice()))
            }
        },
        None => None,
    }
}

/// `base` with `rel` pushed on, as `PathBuf::push` does on Unix: an absolute
/// `rel` replaces `base`; otherwise a separator goes between them when needed.
pub open spec fn join_spec(base: Seq<char>, rel: Seq<char>) -> Seq<char> {
    if rel.len() > 0 && rel[0] == '/' {
        rel
    } else if base.len() == 0 {
        rel
    } else if base.last() == '/' {
        base + rel
    } else {
        base + seq!['/'] + rel
    }
}

pub fn join_chars(base: &Vec<char>, rel: &Vec<char>) -> (r: Vec<char>)
    ensures
        r@ == join_spec(base@, rel@),
{
    if rel.len() > 0 && rel[0] == '/' {
        return rel.clone();
    }
    if base.len() == 0 {
        return rel.clone();
    }
    let mut out = base.clone();
    if base[base.len() - 1] != '/' {
        out.push('/');
    }
    let mut k: usize = 0;
    let ghost start = out@;
    while k < rel.len()
        invariant
            k <= rel@.len(),
            out@ == start + rel@.subrange(0, k as int),
        decreases rel@.len() - k,
    {
        out.push(rel[k]);
        assert(rel@.subrange(0, k + 1) =~= rel@.subrange(0, k as int).push(rel@[k as int]));
        k = k + 1;
    }
    assert(rel@.subrange(0, rel@.len() as int) =~= rel@);
    assert(base@.last() == base@[base@.len() - 1]);
    out
}

/// `base` joined with `rel`.
pub fn join(base: &str, rel: &str) -> (r: String)
    ensures
        r@ == join_spec(base@, rel@),
{
    let b = chars_of(base);
    let c = chars_of(rel);
    let r = join_chars(&b, &c);
    string_of(r.as_slice())
}

} // verus!

verus! {

/// No piece between slashes holds a slash.
pub proof fn lemma_segs_no_slash(s: Seq<char>)
    ensures
        forall|k: int, j: int| 0 <= k < segs(s).len() && 0 <= j < segs(s)[k].len() ==> segs(s)[k][j] != '/',
    decreases s.len(),
{
    if s.len() > 0 {
        lemma_segs_no_slash(s.drop_last());
        lemma_segs_nonempty(s.drop_last());
        let r = segs(s.drop_last());
        if s.last() != '/' {
            let r2 = r.update(r.len() - 1, r.last().push(s.last()));
            assert forall|k: int, j: int| 0 <= k < r2.len() && 0 <= j < r2[k].len() implies r2[k][j] != '/' by {
                if k == r.len() - 1 {
                    if j < r.last().len() { assert(r2[k][j] == r[k][j]); }
                } else {
                    assert(r2[k] == r[k]);
                }
            }
        } else {
            let r2 = r.push(Seq::<char>::empty());
            assert forall|k: int, j: int| 0 <= k < r2.len() && 0 <= j < r2[k].len() implies r2[k][j] != '/' by {
                if k < r.len() { assert(r2[k] == r[k]); }
            }
        }
    }
}

/// A file name is a single named component: not empty, not "." or "..",
/// and without a slash.
pub proof fn law_file_name_is_one_component(s: Seq<char>)
    ensures
        file_name_spec(s) matches Some(f) ==> {
            &&& f.len() > 0
            &&& f != seq!['.']
            &&& f != seq!['.', '.']
            &&& forall|j: int| 0 <= j < f.len() ==> f[j] != '/'
        },
{
    lemma_segs_no_slash(s);
    lemma_last_normal_is_piece(segs(s));
}

proof fn lemma_last_normal_is_piece(ps: Seq<Seq<char>>)
    ensures
        last_normal(ps) matches Some(p) ==> is_normal_seg(p) && exists|k: int| 0 <= k < ps.len() && ps[k] == p,
    decreases ps.len(),
{
    if ps.len() > 0 && !is_normal_seg(ps.last()) {
        lemma_last_normal_is_piece(ps.drop_last());
        if last_normal(ps.drop_last()) is Some {
            let k = choose|k: int| 0 <= k < ps.drop_last().len() && ps.drop_last()[k] == last_normal(ps.drop_last()).unwrap();
            assert(ps[k] == ps.drop_last()[k]);
        }
    } else if ps.len() > 0 {
        assert(ps[ps.len() - 1] == ps.last());
    }
}

} // verus!
