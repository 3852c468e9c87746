//! The plugin marketplace: search and download addresses for Modrinth and
//! Hangar, turning their answers into listings, and choosing the file to
//! install. The HTTP requests are the program's.
use vstd::prelude::*;
use crate::text::{chars_of, compare_text, ends_with, ends_with_seq, string_of, text_lt, to_lowercase, unicode_lowercase, concat2, concat3};

verus! {

/// An RFC 3986 unreserved byte: letters, digits, `-`, `_`, `.`, `~`.
pub open spec fn is_unreserved(b: u8) -> bool {
    (65 <= b <= 90) || (97 <= b <= 122) || (48 <= b <= 57) || b == 45 || b == 95 || b == 46 || b == 126
}

pub open spec fn upper_hex_digit(d: int) -> char {
    if d < 10 { ((48 + d) as u8) as char } else { ((55 + d) as u8) as char }
}

/// Each unreserved byte as itself, every other byte as `%XX` (upper-case hex).
pub open spec fn percent_encode(b: Seq<u8>) -> Seq<char>
    decreases b.len(),
{
    if b.len() == 0 {
        Seq::empty()
    } else {
        let x = b.last();
        percent_encode(b.drop_last()) + if is_unreserved(x) {
            seq![x as char]
        } else {
            seq!['%', upper_hex_digit(x as int / 16), upper_hex_digit(x as int % 16)]
        }
    }
}

fn upper_hex_char(d: u8) -> (c: char)
    requires
        d < 16,
    ensures
        c == upper_hex_digit(d as int),
{
    if d < 10 { (48u8 + d) as char } else { (55u8 + d) as char }
}

/// Percent-encode the UTF-8 bytes of `s` for use in a query string.
pub fn urlencoding(s: &str) -> (r: String)
    ensures
        r@ == percent_encode(vstd::utf8::encode_utf8(s@)),
{
    let b = s.as_bytes();
    let mut out: Vec<char> = Vec::new();
    let mut i: usize = 0;
    while i < b.len()
        invariant
            i <= b@.len(),
            out@ == percent_encode(b@.subrange(0, i as int)),
        decreases b@.len() - i,
    {
        let x = b[i];
        if (65 <= x && x <= 90) || (97 <= x && x <= 122) || (48 <= x && x <= 57) || x == 45 || x == 95 || x == 46 || x == 126 {
            out.push(x as char);
        } else {
            out.push('%');
            out.push(upper_hex_char(x / 16));
            out.push(upper_hex_char(x % 16));
        }
        assert(b@.subrange(0, i + 1).drop_last() =~= b@.subrange(0, i as int));
        assert(out@ =~= percent_encode(b@.subrange(0, i + 1)));
        i = i + 1;
    }
    assert(b@.subrange(0, b@.len() as int) =~= b@);
    string_of(out.as_slice())
}

pub open spec fn enc(s: Seq<char>) -> Seq<char> {
    percent_encode(vstd::utf8::encode_utf8(s))
}

#[derive(Debug)]
pub struct MarketItem {
    /// "modrinth" or "hangar".
    pub source: &'static str,
    pub slug: String,
    pub title: String,
    pub description: String,
    pub author: String,
    pub icon_url: Option<String>,
    pub downloads: u64,
    pub url: String,
}

/// The Modrinth search for Paper-family plugins matching `q`.
pub fn modrinth_search_url(q: &str) -> (u: String)
    ensures
        u@ == "https://api.modrinth.com/v2/search?query="@ + enc(q@) + "&facets="@
            + enc("[[\"project_type:plugin\"],[\"categories:paper\",\"categories:spigot\",\"categories:bukkit\",\"categories:purpur\",\"categories:folia\"]]"@)
            + "&limit=20"@,
{
    let facets = "[[\"project_type:plugin\"],[\"categories:paper\",\"categories:spigot\",\"categories:bukkit\",\"categories:purpur\",\"categories:folia\"]]";
    let a = concat3("https://api.modrinth.com/v2/search?query=", urlencoding(q).as_str(), "&facets=");
    concat3(a.as_str(), urlencoding(facets).as_str(), "&limit=20")
}

/// The versions of a Modrinth project, limited to Paper-family loaders or not.
pub fn modrinth_versions_url(slug: &str, plugin_loaders_only: bool) -> (u: String)
    ensures
        plugin_loaders_only ==> u@ == "https://api.modrinth.com/v2/project/"@ + enc(slug@) + "/version?loaders="@
            + enc("[\"paper\",\"spigot\",\"bukkit\",\"purpur\",\"folia\"]"@),
        !plugin_loaders_only ==> u@ == "https://api.modrinth.com/v2/project/"@ + enc(slug@) + "/version"@,
{
    let a = concat2("https://api.modrinth.com/v2/project/", urlencoding(slug).as_str());
    if plugin_loaders_only {
        let loaders = "[\"paper\",\"spigot\",\"bukkit\",\"purpur\",\"folia\"]";
        let b = concat2(a.as_str(), "/version?loaders=");
        concat2(b.as_str(), urlencoding(loaders).as_str())
    } else {
        concat2(a.as_str(), "/version")
    }
}

/// A Modrinth search hit as a listing.
pub fn modrinth_item(slug: String, title: String, description: String, author: String, icon_url: Option<String>, downloads: u64) -> (m: MarketItem)
    ensures
        m.source@ == "modrinth"@,
        m.url@ == "https://modrinth.com/plugin/"@ + slug@,
        m.slug@ == slug@,
        m.title@ == title@,
        m.description@ == description@,
        m.author@ == author@,
        m.icon_url == icon_url,
        m.downloads == downloads,
{
    let url = concat2("https://modrinth.com/plugin/", slug.as_str());
    MarketItem { source: "modrinth", url, slug, title, description, author, icon_url, downloads }
}

/// The Hangar search for Paper plugins matching `q`.
pub fn hangar_search_url(q: &str) -> (u: String)
    ensures
        u@ == "https://hangar.papermc.io/api/v1/projects?query="@ + enc(q@) + "&limit=20&platform=PAPER"@,
{
    concat3("https://hangar.papermc.io/api/v1/projects?query=", urlencoding(q).as_str(), "&limit=20&platform=PAPER")
}

/// A Hangar project as a listing, its slug being `owner/slug`.
pub fn hangar_item(name: String, description: Option<String>, owner: String, slug: String, avatar_url: Option<String>, downloads: Option<u64>) -> (m: MarketItem)
    ensures
        m.source@ == "hangar"@,
        m.slug@ == owner@ + "/"@ + slug@,
        m.url@ == "https://hangar.papermc.io/"@ + owner@ + "/"@ + slug@,
        m.title@ == name@,
        m.description@ == (match description { Some(d) => d@, None => Seq::<char>::empty() }),
        m.author@ == owner@,
        m.icon_url == avatar_url,
        m.downloads == (match downloads { Some(d) => d, None => 0 }),
{
    let full = concat3(owner.as_str(), "/", slug.as_str());
    let url = concat2("https://hangar.papermc.io/", full.as_str());
    let desc = match description {
        Some(d) => d,
        None => String::new(),
    };
    let dl = match downloads {
        Some(d) => d,
        None => 0,
    };
    let author = owner.clone();
    MarketItem { source: "hangar", url, slug: full, title: name, description: desc, author, icon_url: avatar_url, downloads: dl }
}

/// One file of a Modrinth version.
#[derive(Debug)]
pub struct ModrinthFile {
    pub url: String,
    pub filename: String,
    pub primary: bool,
}

#[derive(Debug)]
pub struct ModrinthVersion {
    pub files: Vec<ModrinthFile>,
    pub date_published: String,
}

/// The version listed first among those with the latest publication date
/// (the one a stable newest-first sort puts first).
pub open spec fn latest_index(dates: Seq<Seq<char>>, i: int) -> bool {
    &&& 0 <= i < dates.len()
    &&& forall|j: int| 0 <= j < dates.len() ==> !text_lt(dates[i], dates[j])
    &&& forall|j: int| 0 <= j < i ==> text_lt(dates[j], dates[i])
}

pub open spec fn is_jar_name(f: Seq<char>) -> bool {
    ends_with_seq(unicode_lowercase(f), ".jar"@)
}

/// The file to install from a version: the first primary `.jar`, else the
/// first `.jar` (case ignored).
pub open spec fn chosen_file(files: Seq<(Seq<char>, Seq<char>, bool)>, k: int) -> bool {
    &&& 0 <= k < files.len()
    &&& is_jar_name(files[k].1)
    &&& if exists|j: int| 0 <= j < files.len() && files[j].2 && is_jar_name(files[j].1) {
        files[k].2 && forall|j: int| 0 <= j < k ==> !(files[j].2 && is_jar_name(files[j].1))
    } else {
        forall|j: int| 0 <= j < k ==> !is_jar_name(files[j].1)
    }
}

pub open spec fn file_views(v: Seq<ModrinthFile>) -> Seq<(Seq<char>, Seq<char>, bool)> {
    v.map_values(|f: ModrinthFile| (f.url@, f.filename@, f.primary))
}

pub open spec fn date_views(v: Seq<ModrinthVersion>) -> Seq<Seq<char>> {
    v.map_values(|x: ModrinthVersion| x.date_published@)
}

/// Why nothing could be chosen to install.
#[derive(Debug)]
pub enum MarketError {
    /// "no versions for {slug}"
    NoVersionsFor(String),
    /// "no versions"
    NoVersions,
    /// "no .jar file in latest version"
    NoJar,
    /// "no Paper download"
    NoPaperDownload,
    /// "empty query"
    EmptyQuery,
    /// "unknown source"
    UnknownSource,
}

impl MarketError {
    pub fn message(&self) -> (m: String)
        ensures
            (match self {
                MarketError::NoVersionsFor(s) => m@ == "no versions for "@ + s@,
                MarketError::NoVersions => m@ == "no versions"@,
                MarketError::NoJar => m@ == "no .jar file in latest version"@,
                MarketError::NoPaperDownload => m@ == "no Paper download"@,
                MarketError::EmptyQuery => m@ == "empty query"@,
                MarketError::UnknownSource => m@ == "unknown source"@,
            }),
    {
        match self {
            MarketError::NoVersionsFor(s) => concat2("no versions for ", s.as_str()),
            MarketError::NoVersions => String::from_str("no versions"),
            MarketError::NoJar => String::from_str("no .jar file in latest version"),
            MarketError::NoPaperDownload => String::from_str("no Paper download"),
            MarketError::EmptyQuery => String::from_str("empty query"),
            MarketError::UnknownSource => String::from_str("unknown source"),
        }
    }
}

#[verifier::loop_isolation(false)]
fn latest_version(versions: &Vec<ModrinthVersion>) -> (i: usize)
    requires
        versions@.len() > 0,
    ensures
        latest_index(date_views(versions@), i as int),
{
    let ghost ds = date_views(versions@);
    let mut best: usize = 0;
    let mut best_key = chars_of(versions[0].date_published.as_str());
    proof { crate::text::lemma_text_lt_irrefl(ds[0]); }
    let mut i: usize = 1;
    while i < versions.len()
        invariant
            ds == date_views(versions@),
            versions@.len() > 0,
            best < i <= versions@.len(),
            best_key@ == ds[best as int],
            forall|j: int| 0 <= j < i ==> !text_lt(ds[best as int], ds[j]),
            forall|j: int| 0 <= j < best ==> text_lt(ds[j], ds[best as int]),
        decreases versions@.len() - i,
    {
        let k = chars_of(versions[i].date_published.as_str());
        assert(k@ == ds[i as int]);
        if compare_text(best_key.as_slice(), k.as_slice()) == -1 {
            proof {
                assert forall|j: int| 0 <= j < i + 1 implies !text_lt(ds[i as int], ds[j]) by {
                    if j < i {
                        if text_lt(ds[i as int], ds[j]) {
                            crate::text::lemma_text_lt_trans(ds[best as int], ds[i as int], ds[j]);
                        }
                    } else {
                        crate::text::lemma_text_lt_irrefl(ds[i as int]);
                    }
                }
                assert forall|j: int| 0 <= j < i implies text_lt(ds[j], ds[i as int]) by {
                    crate::text::lemma_text_lt_total(ds[j], ds[best as int]);
                    if j == best { } else if ds[j] == ds[best as int] { } else if text_lt(ds[j], ds[best as int]) {
                        crate::text::lemma_text_lt_trans(ds[j], ds[best as int], ds[i as int]);
                    }
                }
            }
            best = i;
            best_key = k;
        } else {
            proof {
                crate::text::lemma_text_lt_total(best_key@, k@);
                if k@ == best_key@ { crate::text::lemma_text_lt_irrefl(k@); }
                else if text_lt(best_key@, k@) { } else { crate::text::lemma_text_lt_asym(k@, best_key@); }
            }
        }
        i = i + 1;
    }
    best
}

fn jar_name(f: &str) -> (b: bool)
    ensures
        b == is_jar_name(f@),
{
    let l = to_lowercase(f);
    let lc = chars_of(l.as_str());
    let jar = chars_of(".jar");
    ends_with(lc.as_slice(), jar.as_slice())
}

/// The (file name, download address) to install from the latest Modrinth version.
#[verifier::loop_isolation(false)]
pub fn pick_modrinth_file(slug: &str, versions: &Vec<ModrinthVersion>) -> (r: Result<(String, String), MarketError>)
    ensures
        versions@.len() == 0 ==> (r matches Err(MarketError::NoVersionsFor(s)) && s@ == slug@),
        versions@.len() > 0 ==> exists|i: int| latest_index(date_views(versions@), i) && {
            let fs = file_views(versions@[i].files@);
            match r {
                Ok((name, url)) => exists|k: int| chosen_file(fs, k) && name@ == fs[k].1 && url@ == fs[k].0,
                Err(e) => e is NoJar && forall|k: int| 0 <= k < fs.len() ==> !is_jar_name(fs[k].1),
            }
        },
{
    if versions.len() == 0 {
        return Err(MarketError::NoVersionsFor(String::from_str(slug)));
    }
    let i = latest_version(versions);
    let files = &versions[i].files;
    let ghost fs = file_views(files@);
    let mut k: usize = 0;
    while k < files.len()
        invariant
            fs == file_views(files@),
            k <= files@.len(),
            forall|j: int| 0 <= j < k ==> !(fs[j].2 && is_jar_name(fs[j].1)),
        decreases files@.len() - k,
    {
        if files[k].primary && jar_name(files[k].filename.as_str()) {
            assert(fs[k as int].2 && is_jar_name(fs[k as int].1));
            assert(chosen_file(fs, k as int));
            return Ok((files[k].filename.clone(), files[k].url.clone()));
        }
        k = k + 1;
    }
    let mut k: usize = 0;
    while k < files.len()
        invariant
            fs == file_views(files@),
            k <= files@.len(),
            forall|j: int| 0 <= j < files@.len() ==> !(fs[j].2 && is_jar_name(fs[j].1)),
            forall|j: int| 0 <= j < k ==> !is_jar_name(fs[j].1),
        decreases files@.len() - k,
    {
        if jar_name(files[k].filename.as_str()) {
            assert(chosen_file(fs, k as int));
            return Ok((files[k].filename.clone(), files[k].url.clone()));
        }
        k = k + 1;
    }
    Err(MarketError::NoJar)
}

} // verus!

verus! {


/// Hangar endpoints take the project part of an `owner/project` slug: the
/// text after the last slash (all of it when there is none).
pub open spec fn hangar_project_slug_spec(slug: Seq<char>) -> Seq<char> {
    crate::auth::split_on(slug, '/').last()
}

pub fn hangar_project_slug(slug: &str) -> (p: String)
    ensures
        p@ == hangar_project_slug_spec(slug@),
{
    let cs = chars_of(slug);
    let pieces = crate::auth::split_pieces(&cs, '/');
    proof { crate::auth::lemma_split_nonempty(cs@, '/'); }
    let n = pieces.len();
    assert(pieces.deep_view()[n - 1] == pieces@[n - 1].deep_view());
    assert(pieces@[n - 1].deep_view() =~= pieces@[n - 1]@);
    string_of(pieces[n - 1].as_slice())
}

/// The latest Paper version of a Hangar project.
pub fn hangar_versions_url(project_slug: &str) -> (u: String)
    ensures
        u@ == "https://hangar.papermc.io/api/v1/projects/"@ + enc(project_slug@) + "/versions?limit=1&platform=PAPER"@,
{
    concat3("https://hangar.papermc.io/api/v1/projects/", urlencoding(project_slug).as_str(), "/versions?limit=1&platform=PAPER")
}

/// One platform's download of a Hangar version.
#[derive(Debug)]
pub struct HangarDownload {
    pub file_name: Option<String>,
    pub download_url: Option<String>,
    pub external_url: Option<String>,
}

#[derive(Debug)]
pub struct HangarVersion {
    pub name: String,
    /// Platform and download, in the order the downloads map was walked.
    pub downloads: Vec<(String, HangarDownload)>,
}

pub open spec fn opt_view(o: Option<String>) -> Option<Seq<char>> {
    match o {
        Some(s) => Some(s@),
        None => None,
    }
}

/// The download chosen from a version: the one for "PAPER", else the first one.
pub open spec fn chosen_download(ds: Seq<(String, HangarDownload)>, k: int) -> bool {
    &&& 0 <= k < ds.len()
    &&& if exists|j: int| 0 <= j < ds.len() && ds[j].0@ == "PAPER"@ {
        ds[k].0@ == "PAPER"@ && forall|j: int| 0 <= j < k ==> ds[j].0@ != "PAPER"@
    } else {
        k == 0
    }
}

/// Where the chosen download comes from: its own address, else its external
/// address, else Hangar's download endpoint for the version.
pub open spec fn hangar_url_spec(project_slug: Seq<char>, version: Seq<char>, d: HangarDownload) -> Seq<char> {
    match opt_view(d.download_url) {
        Some(u) => u,
        None => match opt_view(d.external_url) {
            Some(u) => u,
            None => "https://hangar.papermc.io/api/v1/projects/"@ + enc(project_slug) + "/versions/"@ + enc(version) + "/PAPER/download"@,
        },
    }
}

pub open spec fn hangar_file_spec(project_slug: Seq<char>, version: Seq<char>, d: HangarDownload) -> Seq<char> {
    match opt_view(d.file_name) {
        Some(f) => f,
        None => project_slug + "-"@ + version + ".jar"@,
    }
}

/// The (file name, download address) to install from Hangar's answer.
#[verifier::loop_isolation(false)]
pub fn pick_hangar_download(project_slug: &str, versions: &Vec<HangarVersion>) -> (r: Result<(String, String), MarketError>)
    ensures
        versions@.len() == 0 ==> (r matches Err(e) && e is NoVersions),
        versions@.len() > 0 && versions@[0].downloads@.len() == 0 ==> (r matches Err(e) && e is NoPaperDownload),
        versions@.len() > 0 && versions@[0].downloads@.len() > 0 ==> exists|k: int| chosen_download(versions@[0].downloads@, k) && {
            let v = versions@[0];
            let d = v.downloads@[k].1;
            r matches Ok((name, url)) && name@ == hangar_file_spec(project_slug@, v.name@, d)
                && url@ == hangar_url_spec(project_slug@, v.name@, d)
        },
{
    if versions.len() == 0 {
        return Err(MarketError::NoVersions);
    }
    let v = &versions[0];
    let n = v.downloads.len();
    if n == 0 {
        return Err(MarketError::NoPaperDownload);
    }
    let mut k: usize = 0;
    let mut found = false;
    let mut pick: usize = 0;
    while k < n
        invariant
            n == v.downloads@.len(),
            k <= n,
            found ==> pick < k && v.downloads@[pick as int].0@ == "PAPER"@
                && forall|j: int| 0 <= j < pick ==> v.downloads@[j].0@ != "PAPER"@,
            !found ==> pick == 0 && forall|j: int| 0 <= j < k ==> v.downloads@[j].0@ != "PAPER"@,
        decreases n - k,
    {
        if !found && crate::text::same_text(v.downloads[k].0.as_str(), "PAPER") {
            found = true;
            pick = k;
        }
        k = k + 1;
    }
    assert(chosen_download(v.downloads@, pick as int));
    let d = &v.downloads[pick].1;
    let url = match &d.download_url {
        Some(u) => u.clone(),
        None => match &d.external_url {
            Some(u) => u.clone(),
            None => {
                let a = concat3("https://hangar.papermc.io/api/v1/projects/", urlencoding(project_slug).as_str(), "/versions/");
                concat3(a.as_str(), urlencoding(v.name.as_str()).as_str(), "/PAPER/download")
            },
        },
    };
    let name = match &d.file_name {
        Some(f) => f.clone(),
        None => {
            let a = concat3(project_slug, "-", v.name.as_str());
            concat2(a.as_str(), ".jar")
        },
    };
    Ok((name, url))
}

/// Which marketplaces a search asks: "all" (the default) asks both.
pub fn search_sources(source: Option<&str>) -> (r: (bool, bool))
    ensures
        ({
            let s = match source { Some(x) => x@, None => "all"@ };
            r == (s == "all"@ || s == "modrinth"@, s == "all"@ || s == "hangar"@)
        }),
{
    let s = match source {
        Some(x) => x,
        None => "all",
    };
    let all = crate::text::same_text(s, "all");
    (all || crate::text::same_text(s, "modrinth"), all || crate::text::same_text(s, "hangar"))
}

pub struct MarketItemV {
    pub source: Seq<char>,
    pub slug: Seq<char>,
    pub title: Seq<char>,
    pub description: Seq<char>,
    pub author: Seq<char>,
    pub icon_url: Option<Seq<char>>,
    pub downloads: u64,
    pub url: Seq<char>,
}

impl View for MarketItem {
    type V = MarketItemV;

    open spec fn view(&self) -> MarketItemV {
        MarketItemV {
            source: self.source@,
            slug: self.slug@,
            title: self.title@,
            description: self.description@,
            author: self.author@,
            icon_url: opt_view(self.icon_url),
            downloads: self.downloads,
            url: self.url@,
        }
    }
}

/// Both answers together, Modrinth's first; a missing answer counts as none.
pub open spec fn both_answers(modrinth: Option<Vec<MarketItem>>, hangar: Option<Vec<MarketItem>>) -> Seq<MarketItem> {
    (match modrinth { Some(v) => v@, None => Seq::empty() }) + (match hangar { Some(v) => v@, None => Seq::empty() })
}

/// The key listings are ordered by: their download count.
pub open spec fn download_keys(v: Seq<MarketItem>) -> Seq<i128> {
    v.map_values(|m: MarketItem| m.downloads as i128)
}

/// The listings of both marketplaces together, most downloaded first;
/// equal counts keep their order (Modrinth's before Hangar's).
pub fn merge_results(modrinth: Option<Vec<MarketItem>>, hangar: Option<Vec<MarketItem>>) -> (r: Vec<MarketItem>)
    ensures
        exists|perm: Seq<usize>| crate::order::is_permutation(perm, both_answers(modrinth, hangar).len())
            && crate::order::stable_descending(download_keys(both_answers(modrinth, hangar)), perm)
            && r@.len() == both_answers(modrinth, hangar).len()
            && forall|k: int| 0 <= k < r@.len() ==> #[trigger] r@[k] == both_answers(modrinth, hangar)[perm[k] as int],
{
    let ghost whole = both_answers(modrinth, hangar);
    let mut all: Vec<MarketItem> = Vec::new();
    match modrinth {
        Some(mut v) => { all.append(&mut v); },
        None => {},
    }
    match hangar {
        Some(mut v) => { all.append(&mut v); },
        None => {},
    }
    assert(all@ =~= whole);
    let mut keys: Vec<i128> = Vec::new();
    let mut i: usize = 0;
    while i < all.len()
        invariant
            i <= all@.len(),
            keys@ == download_keys(all@.subrange(0, i as int)),
        decreases all@.len() - i,
    {
        keys.push(all[i].downloads as i128);
        assert(download_keys(all@.subrange(0, i + 1)) =~= download_keys(all@.subrange(0, i as int)).push(all@[i as int].downloads as i128));
        i = i + 1;
    }
    assert(all@.subrange(0, all@.len() as int) =~= all@);
    let perm = crate::order::desc_order(&keys);
    crate::order::permute(all, &perm)
}

} // verus!
