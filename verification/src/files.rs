//! The server file manager: confining requested paths to the server
//! directory, and the order in which a directory is listed.
use vstd::prelude::*;
use crate::paths::{is_normal_chars, is_normal_seg, join_chars, join_spec, lemma_segs_nonempty, segs, PathError};
use crate::text::{chars_of, concat2, concat3, string_of, unicode_lowercase};

verus! {

/// `s` without its leading slashes.
pub open spec fn trim_leading_slashes(s: Seq<char>) -> Seq<char>
    decreases s.len(),
{
    if s.len() > 0 && s[0] == '/' { trim_leading_slashes(s.drop_first()) } else { s }
}

/// `root` with each named piece of `ps` pushed on, or nothing when a piece is "..".
pub open spec fn push_pieces(root: Seq<char>, ps: Seq<Seq<char>>) -> Option<Seq<char>>
    decreases ps.len(),
{
    if ps.len() == 0 {
        Some(root)
    } else {
        match push_pieces(root, ps.drop_last()) {
            None => None,
            Some(p) => {
                let last = ps.last();
                if last == seq!['.', '.'] {
                    None
                } else if is_normal_seg(last) {
                    Some(join_spec(p, last))
                } else {
                    Some(p)
                }
            },
        }
    }
}

/// `rel` (leading slashes ignored) under `root`, or nothing when `rel` climbs with "..".
pub open spec fn safe_join_spec(root: Seq<char>, rel: Seq<char>) -> Option<Seq<char>> {
    push_pieces(root, segs(trim_leading_slashes(rel)))
}

proof fn lemma_trim_leading_skip(s: Seq<char>, i: int)
    requires
        0 <= i <= s.len(),
        forall|j: int| 0 <= j < i ==> s[j] == '/',
    ensures
        trim_leading_slashes(s) == trim_leading_slashes(s.subrange(i, s.len() as int)),
    decreases i,
{
    if i > 0 {
        assert(s.drop_first().subrange(i - 1, s.drop_first().len() as int) =~= s.subrange(i, s.len() as int));
        lemma_trim_leading_skip(s.drop_first(), i - 1);
    } else {
        assert(s.subrange(0, s.len() as int) =~= s);
    }
}

fn is_dotdot(p: &Vec<char>) -> (b: bool)
    ensures
        b == (p@ == seq!['.', '.']),
{
    if p.len() == 2 && p[0] == '.' && p[1] == '.' {
        assert(p@ =~= seq!['.', '.']);
        true
    } else {
        assert(p@ != seq!['.', '.']) by {
            if p@.len() == 2 { assert(p@[0] != '.' || p@[1] != '.'); }
        }
        false
    }
}

/// `rel` under `root`, refusing a path that climbs out with "..".
pub fn safe_join(root: &str, rel: &str) -> (r: Result<String, PathError>)
    ensures
        match safe_join_spec(root@, rel@) {
            Some(p) => r matches Ok(x) && x@ == p,
            None => r == Err::<String, PathError>(PathError::InvalidComponent),
        },
{
    let all = chars_of(rel);
    let mut s0: usize = 0;
    while s0 < all.len() && all[s0] == '/'
        invariant
            s0 <= all@.len(),
            forall|j: int| 0 <= j < s0 ==> all@[j] == '/',
        decreases all@.len() - s0,
    {
        s0 = s0 + 1;
    }
    proof { lemma_trim_leading_skip(all@, s0 as int); }
    let ghost t = all@.subrange(s0 as int, all@.len() as int);
    assert(trim_leading_slashes(t) == t);
    let mut p = chars_of(root);
    let mut bad = false;
    let mut cur: Vec<char> = Vec::new();
    let mut i: usize = s0;
    proof { assert(t.subrange(0, 0) =~= Seq::<char>::empty()); }
    while i < all.len()
        invariant
            all@ == rel@,
            s0 <= i <= all@.len(),
            t == all@.subrange(s0 as int, all@.len() as int),
            cur@ == segs(t.subrange(0, i - s0)).last(),
            bad ==> push_pieces(root@, segs(t.subrange(0, i - s0)).drop_last()) is None,
            !bad ==> push_pieces(root@, segs(t.subrange(0, i - s0)).drop_last()) == Some(p@),
        decreases all@.len() - i,
    {
        let ghost pre = t.subrange(0, i - s0);
        let c = all[i];
        proof {
            assert(t.subrange(0, i + 1 - s0).drop_last() =~= pre);
            assert(t.subrange(0, i + 1 - s0).last() == c);
            lemma_segs_nonempty(pre);
        }
        if c == '/' {
            if is_dotdot(&cur) {
                bad = true;
            } else if is_normal_chars(&cur) {
                p = join_chars(&p, &cur);
            }
            cur = Vec::new();
            proof {
                let r = segs(pre);
                assert(segs(t.subrange(0, i + 1 - s0)) == r.push(Seq::<char>::empty()));
                assert(r.push(Seq::<char>::empty()).drop_last() =~= r);
                assert(r =~= r.drop_last().push(r.last()));
            }
        } else {
            cur.push(c);
            proof {
                let r = segs(pre);
                let r2 = r.update(r.len() - 1, r.last().push(c));
                assert(segs(t.subrange(0, i + 1 - s0)) == r2);
                assert(r2.drop_last() =~= r.drop_last());
            }
        }
        i = i + 1;
    }
    proof {
        assert(t.subrange(0, t.len() as int) =~= t);
        lemma_segs_nonempty(t);
        let r = segs(t);
        assert(r =~= r.drop_last().push(r.last()));
    }
    if bad || is_dotdot(&cur) {
        return Err(PathError::InvalidComponent);
    }
    if is_normal_chars(&cur) {
        p = join_chars(&p, &cur);
    }
    Ok(string_of(p.as_slice()))
}

} // verus!

verus! {

proof fn lemma_push_pieces_prefix(root: Seq<char>, ps: Seq<Seq<char>>)
    requires
        forall|k: int, j: int| 0 <= k < ps.len() && 0 <= j < ps[k].len() ==> ps[k][j] != '/',
    ensures
        push_pieces(root, ps) matches Some(p) ==> root.len() <= p.len() && p.subrange(0, root.len() as int) == root,
    decreases ps.len(),
{
    if ps.len() > 0 {
        let pre = ps.drop_last();
        assert forall|k: int, j: int| 0 <= k < pre.len() && 0 <= j < pre[k].len() implies pre[k][j] != '/' by {
            assert(pre[k] == ps[k]);
        }
        lemma_push_pieces_prefix(root, pre);
        match push_pieces(root, pre) {
            Some(p) => {
                let last = ps.last();
                assert(last == ps[ps.len() - 1]);
                if last != seq!['.', '.'] && is_normal_seg(last) {
                    assert(last[0] != '/');
                    let q = join_spec(p, last);
                    assert(q.subrange(0, p.len() as int) =~= p) by {
                        if p.len() == 0 { } else if p.last() == '/' { } else { }
                    }
                    assert(q.subrange(0, root.len() as int) =~= p.subrange(0, root.len() as int));
                }
            },
            None => {},
        }
    }
}

/// A joined path always begins with the root it was joined under.
pub proof fn law_safe_join_stays_under_root(root: Seq<char>, rel: Seq<char>)
    ensures
        safe_join_spec(root, rel) matches Some(p) ==> root.len() <= p.len() && p.subrange(0, root.len() as int) == root,
{
    crate::paths::lemma_segs_no_slash(trim_leading_slashes(rel));
    lemma_push_pieces_prefix(root, segs(trim_leading_slashes(rel)));
}

/// Any ".." anywhere in the relative path refuses it.
pub proof fn law_safe_join_refuses_parent(root: Seq<char>, ps: Seq<Seq<char>>, k: int)
    requires
        0 <= k < ps.len(),
        ps[k] == seq!['.', '.'],
    ensures
        push_pieces(root, ps) is None,
    decreases ps.len(),
{
    if k < ps.len() - 1 {
        assert(ps.drop_last()[k] == ps[k]);
        law_safe_join_refuses_parent(root, ps.drop_last(), k);
    } else {
        assert(ps.last() == ps[k]);
    }
}

#[derive(Debug)]
pub struct DirEntry {
    pub name: String,
    pub path: String,
    pub is_dir: bool,
    pub size: u64,
    /// Seconds since the Unix epoch.
    pub modified: Option<i64>,
}

/// The key a listing is ordered by: directories first, then names compared
/// lower-cased.
pub open spec fn dir_entry_key(is_dir: bool, name: Seq<char>) -> Seq<char> {
    seq![if is_dir { '0' } else { '1' }] + unicode_lowercase(name)
}

/// A directory listing, directories first, then by lower-cased name.
pub fn sort_dir_entries(v: Vec<DirEntry>) -> (r: Vec<DirEntry>)
    ensures
        exists|perm: Seq<usize>| crate::order::is_permutation(perm, v@.len())
            && crate::order::stable_ascending(v@.map_values(|e: DirEntry| dir_entry_key(e.is_dir, e.name@)), perm)
            && r@.len() == v@.len()
            && forall|k: int| 0 <= k < r@.len() ==> #[trigger] r@[k] == v@[perm[k] as int],
{
    let mut keys: Vec<Vec<char>> = Vec::new();
    let mut i: usize = 0;
    while i < v.len()
        invariant
            i <= v@.len(),
            keys@.len() == i,
            forall|k: int| 0 <= k < i ==> (#[trigger] keys@[k])@ == dir_entry_key(v@[k].is_dir, v@[k].name@),
        decreases v@.len() - i,
    {
        let l = crate::text::to_lowercase(v[i].name.as_str());
        let mut key: Vec<char> = Vec::new();
        key.push(if v[i].is_dir { '0' } else { '1' });
        let lc = chars_of(l.as_str());
        let mut j: usize = 0;
        while j < lc.len()
            invariant
                j <= lc@.len(),
                key@ == seq![if v@[i as int].is_dir { '0' } else { '1' }] + lc@.subrange(0, j as int),
            decreases lc@.len() - j,
        {
            key.push(lc[j]);
            assert(lc@.subrange(0, j + 1) =~= lc@.subrange(0, j as int).push(lc@[j as int]));
            j = j + 1;
        }
        assert(lc@.subrange(0, lc@.len() as int) =~= lc@);
        keys.push(key);
        i = i + 1;
    }
    assert forall|k: int| 0 <= k < keys@.len() implies #[trigger] keys.deep_view()[k] == v@.map_values(|e: DirEntry| dir_entry_key(e.is_dir, e.name@))[k] by {
        assert(keys.deep_view()[k] == keys@[k].deep_view());
        assert(keys@[k].deep_view() =~= keys@[k]@);
    }
    assert(keys.deep_view() =~= v@.map_values(|e: DirEntry| dir_entry_key(e.is_dir, e.name@)));
    let perm = crate::order::text_sort_order(&keys);
    crate::order::permute(v, &perm)
}

/// The path a directory entry is listed under: `/name` at the top,
/// otherwise the directory (without trailing slashes), a slash and the name.
pub open spec fn trim_trailing_slashes(s: Seq<char>) -> Seq<char>
    decreases s.len(),
{
    if s.len() > 0 && s.last() == '/' { trim_trailing_slashes(s.drop_last()) } else { s }
}

pub fn listing_path(rel: &str, name: &str) -> (p: String)
    ensures
        p@ == (if rel@.len() == 0 || rel@ == "/"@ { "/"@ + name@ } else { trim_trailing_slashes(rel@) + "/"@ + name@ }),
{
    if rel.is_empty() || crate::text::same_text(rel, "/") {
        return concat2("/", name);
    }
    let cs = chars_of(rel);
    let mut e: usize = cs.len();
    assert(cs@.subrange(0, cs@.len() as int) =~= cs@);
    while e > 0 && cs[e - 1] == '/'
        invariant
            e <= cs@.len(),
            trim_trailing_slashes(cs@) == trim_trailing_slashes(cs@.subrange(0, e as int)),
        decreases e,
    {
        assert(cs@.subrange(0, e as int).drop_last() =~= cs@.subrange(0, e - 1));
        e = e - 1;
    }
    let mut out: Vec<char> = Vec::new();
    let mut k: usize = 0;
    while k < e
        invariant
            e <= cs@.len(),
            k <= e,
            out@ == cs@.subrange(0, k as int),
        decreases e - k,
    {
        out.push(cs[k]);
        assert(cs@.subrange(0, k + 1) =~= cs@.subrange(0, k as int).push(cs@[k as int]));
        k = k + 1;
    }
    let d = string_of(out.as_slice());
    concat3(d.as_str(), "/", name)
}

} // verus!
