//! Plugin jars: which files count as plugins, enabling and disabling by the
//! `.disabled` suffix, safe file names and names taken from download URLs.
use vstd::prelude::*;
use crate::paths::{file_name, file_name_spec, join, join_spec, PathError};
use crate::text::{chars_of, contains, contains_seq, ends_with, ends_with_seq, string_of, to_lowercase, unicode_lowercase};

verus! {

#[derive(Debug)]
pub struct PluginEntry {
    pub name: String,
    pub size: u64,
    pub enabled: bool,
}

/// The plugins directory of a server directory.
pub fn plugins_dir(server_dir: &str) -> (d: String)
    ensures
        d@ == join_spec(server_dir@, "plugins"@),
{
    join(server_dir, "plugins")
}

/// `s` with every trailing copy of `suffix` removed, as `str::trim_end_matches` does.
pub open spec fn trim_end_matches_spec(s: Seq<char>, suffix: Seq<char>) -> Seq<char>
    decreases s.len(),
{
    if suffix.len() > 0 && ends_with_seq(s, suffix) {
        trim_end_matches_spec(s.subrange(0, s.len() - suffix.len()), suffix)
    } else {
        s
    }
}

fn trim_end_matches_chars(s: &Vec<char>, suffix: &Vec<char>) -> (r: Vec<char>)
    ensures
        r@ == trim_end_matches_spec(s@, suffix@),
{
    let mut end: usize = s.len();
    let ghost full = s@;
    assert(s@.subrange(0, s@.len() as int) =~= s@);
    while suffix.len() > 0 && end >= suffix.len() && crate::text::matches_at(s.as_slice(), suffix.as_slice(), end - suffix.len())
        invariant
            end <= s@.len(),
            trim_end_matches_spec(full, suffix@) == trim_end_matches_spec(s@.subrange(0, end as int), suffix@),
            full == s@,
        decreases end,
    {
        proof {
            let cur = s@.subrange(0, end as int);
            assert(cur.subrange(cur.len() - suffix@.len(), cur.len() as int) =~= s@.subrange(end - suffix@.len(), end as int));
            assert(ends_with_seq(cur, suffix@));
            assert(cur.subrange(0, cur.len() - suffix@.len()) =~= s@.subrange(0, end - suffix@.len()));
        }
        end = end - suffix.len();
    }
    proof {
        let cur = s@.subrange(0, end as int);
        if suffix@.len() > 0 && ends_with_seq(cur, suffix@) {
            assert(cur.subrange(cur.len() - suffix@.len(), cur.len() as int) =~= s@.subrange(end - suffix@.len(), end as int));
            assert(crate::text::occurs_at(s@, suffix@, end - suffix@.len()));
        }
        assert(s@.subrange(0, s@.len() as int) =~= s@);
    }
    let mut out: Vec<char> = Vec::new();
    let mut k: usize = 0;
    while k < end
        invariant
            end <= s@.len(),
            k <= end,
            out@ == s@.subrange(0, k as int),
        decreases end - k,
    {
        out.push(s[k]);
        assert(s@.subrange(0, k + 1) =~= s@.subrange(0, k as int).push(s@[k as int]));
        k = k + 1;
    }
    out
}

/// How a file in the plugins directory is listed: a `.jar` is an enabled
/// plugin, a `.jar.disabled` a disabled one (case ignored in both), anything
/// else is not listed.
pub open spec fn plugin_listing(name: Seq<char>, is_file: bool) -> Option<(Seq<char>, bool)> {
    let lower = unicode_lowercase(name);
    if !is_file {
        None
    } else if ends_with_seq(lower, ".jar.disabled"@) {
        Some((trim_end_matches_spec(name, ".disabled"@), false))
    } else if ends_with_seq(lower, ".jar"@) {
        Some((name, true))
    } else {
        None
    }
}

pub fn plugin_entry(name: &str, size: u64, is_file: bool) -> (r: Option<PluginEntry>)
    ensures
        match plugin_listing(name@, is_file) {
            Some((n, en)) => r matches Some(e) && e.name@ == n && e.enabled == en && e.size == size,
            None => r is None,
        },
{
    if !is_file {
        return None;
    }
    let lower = to_lowercase(name);
    let lc = chars_of(lower.as_str());
    let dis = chars_of(".jar.disabled");
    let jar = chars_of(".jar");
    if ends_with(lc.as_slice(), dis.as_slice()) {
        let cs = chars_of(name);
        let suffix = chars_of(".disabled");
        let base = trim_end_matches_chars(&cs, &suffix);
        return Some(PluginEntry { name: string_of(base.as_slice()), size, enabled: false });
    }
    if ends_with(lc.as_slice(), jar.as_slice()) {
        return Some(PluginEntry { name: String::from_str(name), size, enabled: true });
    }
    None
}

/// Plugins ordered by their lower-cased name.
pub fn sort_plugins(v: Vec<PluginEntry>) -> (r: Vec<PluginEntry>)
    ensures
        exists|perm: Seq<usize>| crate::order::is_permutation(perm, v@.len())
            && crate::order::stable_ascending(v@.map_values(|p: PluginEntry| unicode_lowercase(p.name@)), perm)
            && r@.len() == v@.len()
            && forall|k: int| 0 <= k < r@.len() ==> #[trigger] r@[k] == v@[perm[k] as int],
{
    let mut keys: Vec<Vec<char>> = Vec::new();
    let mut i: usize = 0;
    while i < v.len()
        invariant
            i <= v@.len(),
            keys@.len() == i,
            forall|k: int| 0 <= k < i ==> (#[trigger] keys@[k])@ == unicode_lowercase(v@[k].name@),
        decreases v@.len() - i,
    {
        let l = to_lowercase(v[i].name.as_str());
        keys.push(chars_of(l.as_str()));
        i = i + 1;
    }
    assert forall|k: int| 0 <= k < keys@.len() implies #[trigger] keys.deep_view()[k] == v@.map_values(|p: PluginEntry| unicode_lowercase(p.name@))[k] by {
        assert(keys.deep_view()[k] == keys@[k].deep_view());
        assert(keys@[k].deep_view() =~= keys@[k]@);
    }
    assert(keys.deep_view() =~= v@.map_values(|p: PluginEntry| unicode_lowercase(p.name@)));
    let perm = crate::order::text_sort_order(&keys);
    crate::order::permute(v, &perm)
}

/// The plugin file name a request names: its last component, with no
/// separator or "..", ending in ".jar" (case ignored).
pub open spec fn sanitize_jar_spec(name: Seq<char>) -> Result<Seq<char>, PathError> {
    match file_name_spec(name) {
        None => Err(PathError::BadFilename),
        Some(n) => if contains_seq(n, "/"@) || contains_seq(n, "\\"@) || contains_seq(n, ".."@) {
            Err(PathError::InvalidFilename)
        } else if !ends_with_seq(unicode_lowercase(n), ".jar"@) {
            Err(PathError::MustBeJar)
        } else {
            Ok(n)
        },
    }
}

pub fn sanitize_jar(name: &str) -> (r: Result<String, PathError>)
    ensures
        match sanitize_jar_spec(name@) {
            Ok(n) => r matches Ok(x) && x@ == n,
            Err(e) => r == Err::<String, PathError>(e),
        },
{
    let n = match file_name(name) {
        Some(n) => n,
        None => return Err(PathError::BadFilename),
    };
    let cs = chars_of(n.as_str());
    let slash = chars_of("/");
    let back = chars_of("\\");
    let dots = chars_of("..");
    if contains(cs.as_slice(), slash.as_slice()) || contains(cs.as_slice(), back.as_slice()) || contains(cs.as_slice(), dots.as_slice()) {
        return Err(PathError::InvalidFilename);
    }
    let lower = to_lowercase(n.as_str());
    let lc = chars_of(lower.as_str());
    let jar = chars_of(".jar");
    if !ends_with(lc.as_slice(), jar.as_slice()) {
        return Err(PathError::MustBeJar);
    }
    Ok(n)
}

/// The name of a plugin's file while it is disabled.
pub fn disabled_name(safe: &str) -> (n: String)
    ensures
        n@ == safe@ + ".disabled"@,
{
    crate::text::concat2(safe, ".disabled")
}

/// What a toggle request does with the plugin's two possible files.
#[derive(Debug, Clone, Copy, PartialEq, Eq, Structural)]
pub enum ToggleAction {
    /// Rename `name.disabled` to `name`.
    Enable,
    /// Rename `name` to `name.disabled`.
    Disable,
    Nothing,
}

pub fn toggle_action(enable: bool, on_exists: bool, off_exists: bool) -> (a: ToggleAction)
    ensures
        a == (if enable && off_exists {
            ToggleAction::Enable
        } else if !enable && on_exists {
            ToggleAction::Disable
        } else {
            ToggleAction::Nothing
        }),
{
    if enable && off_exists {
        ToggleAction::Enable
    } else if !enable && on_exists {
        ToggleAction::Disable
    } else {
        ToggleAction::Nothing
    }
}

#[derive(Debug, Clone, Copy, PartialEq, Eq, Structural)]
pub enum UploadError {
    AlreadyExists,
}

impl UploadError {
    pub fn message(&self) -> (m: String)
        ensures
            m@ == "plugin already exists"@,
    {
        String::from_str("plugin already exists")
    }
}

/// An upload may not overwrite an existing plugin unless asked to.
pub fn check_upload(target_exists: bool, replace: bool) -> (r: Result<(), UploadError>)
    ensures
        r is Err <==> (target_exists && !replace),
{
    if target_exists && !replace { Err(UploadError::AlreadyExists) } else { Ok(()) }
}

/// The jar file name for a URL's last path segment: the segment itself when
/// it ends in ".jar" (case ignored), else the segment with ".jar" appended.
pub open spec fn jar_name_for_spec(last: Seq<char>) -> Seq<char> {
    if ends_with_seq(unicode_lowercase(last), ".jar"@) { last } else { last + ".jar"@ }
}

pub fn jar_name_for(last: &str) -> (n: String)
    ensures
        n@ == jar_name_for_spec(last@),
{
    let lower = to_lowercase(last);
    let lc = chars_of(lower.as_str());
    let jar = chars_of(".jar");
    if ends_with(lc.as_slice(), jar.as_slice()) {
        String::from_str(last)
    } else {
        crate::text::concat2(last, ".jar")
    }
}

/// What `url::Url::parse` makes of a text: its path segments (`Ok(None)` for
/// a URL that cannot be a base, such as `mailto:`), or the error's text.
pub uninterp spec fn url_path_segments(url: Seq<char>) -> Result<Option<Seq<Seq<char>>>, Seq<char>>;

/// Parse a URL and list its path segments.
///
/// Trusted: calls `url::Url::parse`, then `path_segments()`, and collects the
/// segments as strings; an error is turned into its `Display` text.
/// Claimed: the outcome is a function of the text alone, named
/// `url_path_segments`.
#[verifier::external_body]
fn parse_url_path_segments(url: &str) -> (r: Result<Option<Vec<String>>, String>)
    ensures
        match r {
            Ok(Some(v)) => url_path_segments(url@) == Ok::<Option<Seq<Seq<char>>>, Seq<char>>(Some(v.deep_view())),
            Ok(None) => url_path_segments(url@) == Ok::<Option<Seq<Seq<char>>>, Seq<char>>(None),
            Err(e) => url_path_segments(url@) == Err::<Option<Seq<Seq<char>>>, Seq<char>>(e@),
        },
{
    match url::Url::parse(url) {
        Ok(u) => Ok(u.path_segments().map(|segs| segs.map(|s| s.to_string()).collect())),
        Err(e) => Err(e.to_string()),
    }
}

/// The last of a URL's path segments, if it has any.
pub open spec fn last_segment(segs: Option<Seq<Seq<char>>>) -> Option<Seq<char>> {
    match segs {
        Some(v) => if v.len() > 0 { Some(v.last()) } else { None },
        None => None,
    }
}

/// The file name a plugin downloaded from `url` is saved under: the jar name
/// for the URL's last path segment ("plugin.jar" when it has none); or the
/// text of the parse error.
pub open spec fn plugin_name_from_url_spec(url: Seq<char>) -> Result<Seq<char>, Seq<char>> {
    match url_path_segments(url) {
        Err(e) => Err(e),
        Ok(segs) => match last_segment(segs) {
            Some(s) => Ok(jar_name_for_spec(s)),
            None => Ok(jar_name_for_spec("plugin.jar"@)),
        },
    }
}

pub fn plugin_name_from_url(url: &str) -> (r: Result<String, String>)
    ensures
        match plugin_name_from_url_spec(url@) {
            Ok(n) => r matches Ok(x) && x@ == n,
            Err(e) => r matches Err(x) && x@ == e,
        },
{
    match parse_url_path_segments(url) {
        Err(e) => Err(e),
        Ok(Some(v)) => {
            if v.len() > 0 {
                let n = v.len();
                proof { assert(v.deep_view()[n - 1] == v@[n - 1]@); }
                Ok(jar_name_for(v[n - 1].as_str()))
            } else {
                Ok(jar_name_for("plugin.jar"))
            }
        },
        Ok(None) => Ok(jar_name_for("plugin.jar")),
    }
}

} // verus!
