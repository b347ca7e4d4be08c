//! Deciding what the latest published release means for the running build.
//!
//! Fetching the release is I/O and stays with the caller; this module takes
//! the release as plain values and decides whether it is an update, which
//! version it is, and which asset to download.
use vstd::prelude::*;

use crate::text::{
    decimal_text, lemma_decimal_reads_back, lemma_split_concat, parse_std_u64, split_chars,
    split_on, std_parse_u64, str_chars, texts,
};

verus! {

/// The outcome of one update check.
#[derive(Clone, Debug, PartialEq, Eq)]
pub enum UpdateCheck {
    UpToDate,
    Available { version: String, url: String, download_url: Option<String> },
    Failed(String),
}

/// One downloadable asset of a published release.
pub struct ReleaseAsset {
    pub name: String,
    pub browser_download_url: String,
}

/// What the release service reports of the latest published release.
pub struct ReleaseResponse {
    pub tag_name: String,
    pub html_url: String,
    pub assets: Vec<ReleaseAsset>,
}

// ---------------------------------------------------------------------
// Loose version triples
// ---------------------------------------------------------------------

/// The `i`-th dot-separated piece of `value` read as `u64`'s `FromStr`
/// reads it; a missing or malformed piece counts as zero.
pub open spec fn version_component(value: Seq<char>, i: int) -> u64 {
    let parts = split_on(value, '.');
    if i < parts.len() {
        match std_parse_u64(parts[i]) {
            Some(n) => n,
            None => 0,
        }
    } else {
        0
    }
}

/// The first three dot-separated pieces of `value` as numbers; pieces past
/// the third are ignored.
pub open spec fn version_triple(value: Seq<char>) -> (u64, u64, u64) {
    (version_component(value, 0), version_component(value, 1), version_component(value, 2))
}

/// Lexicographic "strictly greater" on triples.
pub open spec fn triple_greater(a: (u64, u64, u64), b: (u64, u64, u64)) -> bool {
    ||| a.0 > b.0
    ||| a.0 == b.0 && a.1 > b.1
    ||| a.0 == b.0 && a.1 == b.1 && a.2 > b.2
}

/// `candidate` names a strictly newer version than `current`.
pub open spec fn newer_than(candidate: Seq<char>, current: Seq<char>) -> bool {
    triple_greater(version_triple(candidate), version_triple(current))
}

/// Reads the `i`-th piece of a split version text; see [`version_component`].
fn component(parts: &Vec<Vec<char>>, i: usize) -> (r: u64)
    ensures
        r == (if i < parts@.len() {
            match std_parse_u64(parts@[i as int]@) {
                Some(n) => n,
                None => 0,
            }
        } else {
            0
        }),
{
    if i < parts.len() {
        match parse_std_u64(parts[i].as_slice()) {
            Some(n) => n,
            None => 0,
        }
    } else {
        0
    }
}

/// Reads a loose `MAJOR.MINOR.PATCH` triple; see [`version_triple`].
pub fn parse_version(value: &str) -> (r: (u64, u64, u64))
    ensures
        r == version_triple(value@),
{
    let chars = str_chars(value);
    let parts = split_chars(chars.as_slice(), '.');
    let ghost pieces = split_on(value@, '.');
    assert(parts@.len() == pieces.len());
    assert(forall|i: int| 0 <= i < parts@.len() ==> #[trigger] parts@[i]@ == pieces[i]) by {
        assert forall|i: int| 0 <= i < parts@.len() implies #[trigger] parts@[i]@ == pieces[i] by {
            assert(texts(parts@)[i] == parts@[i]@);
        }
    }
    (component(&parts, 0), component(&parts, 1), component(&parts, 2))
}

/// True when `candidate` names a strictly newer version than `current`
/// (see [`newer_than`]).
pub fn is_newer(candidate: &str, current: &str) -> (r: bool)
    ensures
        r == newer_than(candidate@, current@),
{
    let a = parse_version(candidate);
    let b = parse_version(current);
    a.0 > b.0 || (a.0 == b.0 && a.1 > b.1) || (a.0 == b.0 && a.1 == b.1 && a.2 > b.2)
}

/// "Newer than" is a strict order: no version is newer than itself, two
/// versions are never newer than each other, and it is transitive.
pub proof fn lemma_newer_is_strict_order(a: Seq<char>, b: Seq<char>, c: Seq<char>)
    ensures
        !newer_than(a, a),
        newer_than(a, b) ==> !newer_than(b, a),
        newer_than(a, b) && newer_than(b, c) ==> newer_than(a, c),
{
}

/// Texts that read as the same triple are interchangeable: one is newer
/// than a third exactly when the other is. A missing or malformed piece
/// reads as zero, so `0.2` and `0.2.x` read like `0.2.0`.
pub proof fn lemma_newer_depends_on_triples_only(
    a: Seq<char>,
    b: Seq<char>,
    other: Seq<char>,
)
    requires
        version_triple(a) == version_triple(b),
    ensures
        newer_than(a, other) == newer_than(b, other),
        newer_than(other, a) == newer_than(other, b),
{
}

/// One text is newer than another exactly when its triple is
/// lexicographically greater: a greater major; or an equal major and a
/// greater minor; or equal major and minor and a greater patch.
pub proof fn lemma_newer_compares_triples_lexicographically(candidate: Seq<char>, current: Seq<char>)
    ensures
        ({
            let a = version_triple(candidate);
            let b = version_triple(current);
            newer_than(candidate, current) == (a.0 > b.0 || (a.0 == b.0 && a.1 > b.1) || (a.0
                == b.0 && a.1 == b.1 && a.2 > b.2))
        }),
{
}

/// The text `MAJOR.MINOR.PATCH` written in decimal reads as that triple;
/// with the patch left out, it reads with patch 0.
pub proof fn lemma_version_triple_of_decimal_text(major: u64, minor: u64, patch: u64)
    ensures
        version_triple(
            decimal_text(major as nat) + seq!['.'] + decimal_text(minor as nat) + seq!['.']
                + decimal_text(patch as nat),
        ) == (major, minor, patch),
        version_triple(decimal_text(major as nat) + seq!['.'] + decimal_text(minor as nat))
            == (major, minor, 0u64),
{
    let d0 = decimal_text(major as nat);
    let d1 = decimal_text(minor as nat);
    let d2 = decimal_text(patch as nat);
    lemma_decimal_reads_back(major as nat);
    lemma_decimal_reads_back(minor as nat);
    lemma_decimal_reads_back(patch as nat);
    lemma_split_concat(d0, d1, '.');
    lemma_split_concat(d0 + seq!['.'] + d1, d2, '.');
    assert(split_on(d0 + seq!['.'] + d1, '.') =~= seq![d0, d1]);
    assert(split_on(d0 + seq!['.'] + d1 + seq!['.'] + d2, '.') =~= seq![d0, d1, d2]);
    assert(d0[0] != '+' && d1[0] != '+' && d2[0] != '+');
}

// ---------------------------------------------------------------------
// Deciding on a release
// ---------------------------------------------------------------------

/// The text without all of its leading `v`s.
pub open spec fn trim_leading_v(s: Seq<char>) -> Seq<char>
    decreases s.len(),
{
    if s.len() > 0 && s[0] == 'v' {
        trim_leading_v(s.skip(1))
    } else {
        s
    }
}

/// The asset name the release workflow publishes for `version` on `arch`.
pub open spec fn archive_name_text(version: Seq<char>, arch: Seq<char>) -> Seq<char> {
    "strata-"@ + version + "-"@ + arch + "-unknown-linux-gnu.tar.gz"@
}

/// The download URL of the first asset named `name`, if any.
pub open spec fn asset_url_for(assets: Seq<ReleaseAsset>, name: Seq<char>) -> Option<Seq<char>>
    decreases assets.len(),
{
    if assets.len() == 0 {
        None
    } else if assets[0].name@ == name {
        Some(assets[0].browser_download_url@)
    } else {
        asset_url_for(assets.skip(1), name)
    }
}

/// The text of an optional string.
pub open spec fn optional_text(s: Option<String>) -> Option<Seq<char>> {
    match s {
        Some(s) => Some(s@),
        None => None,
    }
}

/// Trimming removes exactly the leading run of `v`s: what is left does not
/// start with `v`, it is the end of the text, and everything before it is
/// `v`.
pub proof fn lemma_trim_leading_v(s: Seq<char>)
    ensures
        trim_leading_v(s).len() <= s.len(),
        trim_leading_v(s).len() == 0 || trim_leading_v(s)[0] != 'v',
        trim_leading_v(s) == s.skip(s.len() - trim_leading_v(s).len()),
        forall|i: int| 0 <= i < s.len() - trim_leading_v(s).len() ==> #[trigger] s[i] == 'v',
    decreases s.len(),
{
    if s.len() > 0 && s[0] == 'v' {
        let t = s.skip(1);
        lemma_trim_leading_v(t);
        assert(t.skip(t.len() - trim_leading_v(t).len()) =~= s.skip(
            s.len() - trim_leading_v(s).len(),
        ));
        assert forall|i: int| 0 <= i < s.len() - trim_leading_v(s).len() implies #[trigger] s[i]
            == 'v' by {
            if i > 0 {
                assert(s[i] == t[i - 1]);
            }
        }
    } else {
        assert(s.skip(0) =~= s);
    }
}

/// The asset naming convention of the published release archives.
pub fn archive_name(version: &str, arch: &str) -> (r: String)
    ensures
        r@ == archive_name_text(version@, arch@),
{
    let mut name = String::from_str("strata-");
    name.append(version);
    name.append("-");
    name.append(arch);
    name.append("-unknown-linux-gnu.tar.gz");
    assert(name@ =~= archive_name_text(version@, arch@));
    name
}

/// `tag` without its leading `v`s.
fn trim_v(tag: &str) -> (r: &str)
    ensures
        r@ == trim_leading_v(tag@),
{
    let chars = str_chars(tag);
    let n = chars.len();
    let mut i: usize = 0;
    assert(tag@.skip(0) =~= tag@);
    while i < n && chars[i] == 'v'
        invariant
            chars@ == tag@,
            n == tag@.len(),
            0 <= i <= n,
            trim_leading_v(tag@) == trim_leading_v(tag@.skip(i as int)),
        decreases n - i,
    {
        assert(tag@.skip(i as int)[0] == 'v');
        assert(tag@.skip(i as int).skip(1) =~= tag@.skip(i + 1));
        i = i + 1;
    }
    tag.substring_char(i, n)
}

/// The download URL of the first asset named `name`; see [`asset_url_for`].
fn find_asset_url(assets: &Vec<ReleaseAsset>, name: &String) -> (r: Option<String>)
    ensures
        optional_text(r) == asset_url_for(assets@, name@),
{
    let mut i: usize = 0;
    assert(assets@.skip(0) =~= assets@);
    while i < assets.len()
        invariant
            0 <= i <= assets@.len(),
            asset_url_for(assets@, name@) == asset_url_for(assets@.skip(i as int), name@),
        decreases assets@.len() - i,
    {
        let asset = &assets[i];
        let ghost rest = assets@.skip(i as int);
        assert(rest[0] == assets@[i as int]);
        if asset.name == *name {
            return Some(asset.browser_download_url.clone());
        }
        assert(rest.skip(1) =~= assets@.skip(i + 1));
        i = i + 1;
    }
    assert(assets@.skip(assets@.len() as int) =~= Seq::<ReleaseAsset>::empty());
    None
}

/// Decides what the latest published `release` means for a build at
/// `current_version` running on `arch`: when its tag (without leading
/// `v`s) names a strictly newer version, an update to that version with the
/// release page and, if published, the matching archive's download URL;
/// otherwise up to date.
pub fn evaluate_release(release: ReleaseResponse, current_version: &str, arch: &str) -> (r:
    UpdateCheck)
    ensures
        ({
            let latest = trim_leading_v(release.tag_name@);
            if newer_than(latest, current_version@) {
                &&& r matches UpdateCheck::Available { version, url, download_url }
                &&& version@ == latest
                &&& url@ == release.html_url@
                &&& optional_text(download_url) == asset_url_for(
                    release.assets@,
                    archive_name_text(latest, arch@),
                )
            } else {
                r is UpToDate
            }
        }),
{
    let latest = trim_v(release.tag_name.as_str());
    if is_newer(latest, current_version) {
        let wanted = archive_name(latest, arch);
        let download_url = find_asset_url(&release.assets, &wanted);
        UpdateCheck::Available {
            version: latest.to_owned(),
            url: release.html_url,
            download_url,
        }
    } else {
        UpdateCheck::UpToDate
    }
}

/// The download URL is that of the first asset whose name is exactly
/// `name`: there is none exactly when no asset has that name, and otherwise
/// it belongs to an asset named exactly `name` with no such asset before it.
pub proof fn lemma_asset_url_is_first_exact_match(assets: Seq<ReleaseAsset>, name: Seq<char>)
    ensures
        asset_url_for(assets, name) is None <==> (forall|i: int|
            0 <= i < assets.len() ==> (#[trigger] assets[i]).name@ != name),
        asset_url_for(assets, name) is Some ==> exists|i: int|
            #![trigger assets[i]]
            {
                &&& 0 <= i < assets.len()
                &&& assets[i].name@ == name
                &&& forall|j: int| 0 <= j < i ==> (#[trigger] assets[j]).name@ != name
                &&& asset_url_for(assets, name) == Some(assets[i].browser_download_url@)
            },
    decreases assets.len(),
{
    if assets.len() > 0 {
        let rest = assets.skip(1);
        lemma_asset_url_is_first_exact_match(rest, name);
        if assets[0].name@ != name {
            assert forall|i: int| 1 <= i < assets.len() implies (#[trigger] assets[i]) == rest[i
                - 1] by {}
            if asset_url_for(rest, name) is Some {
                let k = choose|k: int|
                    #![trigger rest[k]]
                    {
                        &&& 0 <= k < rest.len()
                        &&& rest[k].name@ == name
                        &&& forall|j: int| 0 <= j < k ==> (#[trigger] rest[j]).name@ != name
                        &&& asset_url_for(rest, name) == Some(rest[k].browser_download_url@)
                    };
                assert(assets[k + 1] == rest[k]);
                assert forall|j: int| 0 <= j < k + 1 implies (#[trigger] assets[j]).name@
                    != name by {
                    if j > 0 {
                        assert(assets[j] == rest[j - 1]);
                    }
                }
            } else {
                assert forall|i: int| 0 <= i < assets.len() implies (#[trigger] assets[i]).name@
                    != name by {
                    if i > 0 {
                        assert(assets[i] == rest[i - 1]);
                    }
                }
            }
        } else {
            assert(forall|j: int| 0 <= j < 0 ==> (#[trigger] assets[j]).name@ != name);
        }
    }
}

} // verus!
