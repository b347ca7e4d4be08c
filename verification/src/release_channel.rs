//! Pure channel and version types for the self-updater.
//!
//! This module is the single place that interprets release tags and reasons
//! about their precedence. It performs no I/O: callers hand it plain strings
//! and get back structured, comparable values.
use vstd::prelude::*;

use crate::text::{
    decimal_text, decimal_u64, find_char, lemma_split_nonempty, lemma_split_once_at,
    parse_strict_u64, push_decimal, split_chars, split_on, split_once, str_chars, sub_chars,
};

use std::cmp::Ordering;
use vstd::std_specs::cmp::PartialEqSpecImpl;
use vstd::std_specs::cmp::PartialOrdSpecImpl;

verus! {

// ---------------------------------------------------------------------
// Channel
// ---------------------------------------------------------------------

/// The user's persisted update-channel preference.
///
/// Binary by design: a single opt-in toggle. This is deliberately distinct
/// from [`BuildKind`], which describes what a given release *is* rather than
/// what the user asked for.
#[derive(Clone, Copy, Debug, PartialEq, Eq, Structural)]
pub enum Channel {
    Stable,
    Preview,
}

/// The persisted/config-file text of a channel.
pub open spec fn channel_text(c: Channel) -> Seq<char> {
    match c {
        Channel::Stable => seq!['s', 't', 'a', 'b', 'l', 'e'],
        Channel::Preview => seq!['p', 'r', 'e', 'v', 'i', 'e', 'w'],
    }
}

/// The channel a persisted value stands for: only the exact text `preview`
/// opts into prereleases; anything else, recognised or not, is `Stable`.
pub open spec fn channel_from_text(value: Seq<char>) -> Channel {
    if value == channel_text(Channel::Preview) {
        Channel::Preview
    } else {
        Channel::Stable
    }
}

/// True when the text `value` is exactly the text `expected`.
fn text_is(value: &str, expected: &str) -> (r: bool)
    ensures
        r == (value@ == expected@),
{
    let a = str_chars(value);
    let b = str_chars(expected);
    crate::text::chars_equal(a.as_slice(), b.as_slice())
}

impl Channel {
    /// The persisted/config-file representation of this channel.
    pub fn as_str(self) -> (r: &'static str)
        ensures
            r@ == channel_text(self),
    {
        proof {
            reveal_strlit("stable");
            reveal_strlit("preview");
        }
        match self {
            Channel::Stable => {
                assert("stable"@ =~= channel_text(Channel::Stable));
                "stable"
            },
            Channel::Preview => {
                assert("preview"@ =~= channel_text(Channel::Preview));
                "preview"
            },
        }
    }

    /// Parses a persisted channel value, falling back to [`Channel::Stable`]
    /// for anything unrecognised.
    ///
    /// This fails closed: a corrupted or hand-edited config value never
    /// silently opts a user into prereleases.
    pub fn parse(value: &str) -> (r: Channel)
        ensures
            r == channel_from_text(value@),
    {
        proof {
            reveal_strlit("preview");
        }
        assert("preview"@ =~= channel_text(Channel::Preview));
        if text_is(value, "preview") {
            Channel::Preview
        } else {
            Channel::Stable
        }
    }
}

// ---------------------------------------------------------------------
// BuildKind
// ---------------------------------------------------------------------

/// What a given release build IS, independent of the user's channel
/// preference.
///
/// Kept separate from [`Channel`] because RC and nightly builds keep distinct
/// user-facing labels even though both fall under the single "preview"
/// preference.
///
/// Precedence among prereleases sharing a core version is not declaration
/// order but [`precedence_rank`]: at an equal core a release candidate
/// outranks a nightly build (`0.5.0-rc.1` sorts above
/// `0.5.0-nightly.20260901`). The derived `PartialOrd`/`Ord` follow
/// declaration order and play no part in version precedence.
#[derive(Clone, Copy, Debug, PartialEq, Eq, PartialOrd, Ord, Structural)]
pub enum BuildKind {
    Stable,
    Rc,
    Nightly,
}

/// The user-facing label of a build kind.
pub open spec fn kind_label(k: BuildKind) -> Seq<char> {
    match k {
        BuildKind::Stable => seq!['S', 't', 'a', 'b', 'l', 'e'],
        BuildKind::Rc => seq![
            'R', 'e', 'l', 'e', 'a', 's', 'e', ' ', 'c', 'a', 'n', 'd', 'i', 'd', 'a', 't', 'e'
        ],
        BuildKind::Nightly => seq!['N', 'i', 'g', 'h', 't', 'l', 'y'],
    }
}

/// The rank of a prerelease's build kind in version precedence: at an equal
/// core a nightly sorts below a release candidate.
pub open spec fn precedence_rank(k: BuildKind) -> int {
    match k {
        BuildKind::Stable => 0,
        BuildKind::Nightly => 1,
        BuildKind::Rc => 2,
    }
}

impl BuildKind {
    /// The user-facing label shown in the UI.
    pub fn label(self) -> (r: &'static str)
        ensures
            r@ == kind_label(self),
    {
        proof {
            reveal_strlit("Stable");
            reveal_strlit("Release candidate");
            reveal_strlit("Nightly");
        }
        match self {
            BuildKind::Stable => {
                assert("Stable"@ =~= kind_label(BuildKind::Stable));
                "Stable"
            },
            BuildKind::Rc => {
                assert("Release candidate"@ =~= kind_label(BuildKind::Rc));
                "Release candidate"
            },
            BuildKind::Nightly => {
                assert("Nightly"@ =~= kind_label(BuildKind::Nightly));
                "Nightly"
            },
        }
    }

    fn rank(self) -> (r: u64)
        ensures
            r == precedence_rank(self),
    {
        match self {
            BuildKind::Stable => 0,
            BuildKind::Nightly => 1,
            BuildKind::Rc => 2,
        }
    }
}

// ---------------------------------------------------------------------
// The tag grammar
// ---------------------------------------------------------------------

/// A prerelease suffix as the grammar reads it: its kind, its ordinal (`N`
/// of `rc.N`, or the date of `nightly.YYYYMMDD[.N]`) and its same-day
/// number (the `N` of a nightly; 0 when absent, and always 0 for a release
/// candidate).
pub struct PrereleaseModel {
    pub kind: BuildKind,
    pub ordinal: u64,
    pub same_day: u64,
}

/// A release tag as the grammar reads it: the core triple and an optional
/// prerelease.
pub struct VersionModel {
    pub core: (u64, u64, u64),
    pub prerelease: Option<PrereleaseModel>,
}

/// The word `rc`.
pub open spec fn rc_word() -> Seq<char> {
    seq!['r', 'c']
}

/// The word `nightly`.
pub open spec fn nightly_word() -> Seq<char> {
    seq!['n', 'i', 'g', 'h', 't', 'l', 'y']
}

/// The tag without its optional leading `v`.
pub open spec fn strip_v(tag: Seq<char>) -> Seq<char> {
    if tag.len() > 0 && tag[0] == 'v' {
        tag.skip(1)
    } else {
        tag
    }
}

/// `MAJOR.MINOR.PATCH`: exactly three dot-separated strictly decimal `u64`s.
pub open spec fn core_of(text: Seq<char>) -> Option<(u64, u64, u64)> {
    let parts = split_on(text, '.');
    if parts.len() == 3 && decimal_u64(parts[0]) is Some && decimal_u64(parts[1]) is Some
        && decimal_u64(parts[2]) is Some {
        Some(
            (
                decimal_u64(parts[0]).unwrap(),
                decimal_u64(parts[1]).unwrap(),
                decimal_u64(parts[2]).unwrap(),
            ),
        )
    } else {
        None
    }
}

/// The suffix after the first `-`: either `rc.N` with `N` a positive
/// strictly decimal `u64` (its ordinal is `N`), or `nightly.YYYYMMDD[.N]`
/// with an eight-digit date (its ordinal) and an optional strictly decimal
/// same-day number `N` (taken as 0 when absent).
pub open spec fn prerelease_of(suffix: Seq<char>) -> Option<PrereleaseModel> {
    let parts = split_on(suffix, '.');
    if parts[0] == rc_word() {
        if parts.len() == 2 && decimal_u64(parts[1]) is Some && decimal_u64(parts[1]).unwrap()
            > 0 {
            Some(
                PrereleaseModel {
                    kind: BuildKind::Rc,
                    ordinal: decimal_u64(parts[1]).unwrap(),
                    same_day: 0,
                },
            )
        } else {
            None
        }
    } else if parts[0] == nightly_word() {
        if (parts.len() == 2 || parts.len() == 3) && parts[1].len() == 8 && decimal_u64(
            parts[1],
        ) is Some && (parts.len() == 3 ==> decimal_u64(parts[2]) is Some) {
            Some(
                PrereleaseModel {
                    kind: BuildKind::Nightly,
                    ordinal: decimal_u64(parts[1]).unwrap(),
                    same_day: if parts.len() == 3 {
                        decimal_u64(parts[2]).unwrap()
                    } else {
                        0
                    },
                },
            )
        } else {
            None
        }
    } else {
        None
    }
}

/// Reads a release tag. With the optional leading `v` removed, the tag is
/// `MAJOR.MINOR.PATCH`, optionally followed by `-` and a prerelease suffix
/// (everything after the first `-`). Anything else has no reading: there is
/// no zero-fill fallback.
pub open spec fn parse_tag(tag: Seq<char>) -> Option<VersionModel> {
    let rest = strip_v(tag);
    if rest.len() == 0 {
        None
    } else {
        match split_once(rest, '-') {
            Some((core_text, suffix)) => match (core_of(core_text), prerelease_of(suffix)) {
                (Some(core), Some(pre)) => Some(VersionModel { core, prerelease: Some(pre) }),
                _ => None,
            },
            None => match core_of(rest) {
                Some(core) => Some(VersionModel { core, prerelease: None }),
                None => None,
            },
        }
    }
}

// ---------------------------------------------------------------------
// Prerelease and Version
// ---------------------------------------------------------------------

/// A parsed prerelease suffix: its kind, its ordinal (the `N` of a release
/// candidate, or the date of a nightly), the same-day number of a nightly,
/// and the tag text exactly as published.
#[derive(Debug)]
pub struct Prerelease {
    kind: BuildKind,
    ordinal: u64,
    same_day: u64,
    // Preserved so the maintainer's exact published tag can be displayed.
    raw: String,
}

impl View for Prerelease {
    type V = PrereleaseModel;

    closed spec fn view(&self) -> PrereleaseModel {
        PrereleaseModel { kind: self.kind, ordinal: self.ordinal, same_day: self.same_day }
    }
}

impl Prerelease {
    /// Only release candidates (with a positive ordinal and no same-day
    /// number) and nightlies are prereleases.
    #[verifier::type_invariant]
    closed spec fn well_formed(self) -> bool {
        &&& self.kind != BuildKind::Stable
        &&& self.kind == BuildKind::Rc ==> self.ordinal > 0 && self.same_day == 0
    }

    /// The text of the tag this prerelease was read from.
    pub closed spec fn raw_text(&self) -> Seq<char> {
        self.raw@
    }
}

impl Clone for Prerelease {
    fn clone(&self) -> (r: Self)
        ensures
            r == *self,
    {
        proof {
            use_type_invariant(self);
        }
        Prerelease {
            kind: self.kind,
            ordinal: self.ordinal,
            same_day: self.same_day,
            raw: self.raw.clone(),
        }
    }
}

/// A semver-correct, comparable representation of a release tag.
///
/// [`Version::parse`] is the only place release tags are interpreted. It
/// accepts an optional leading `v` and exactly three grammar forms:
///
/// ```text
/// v?MAJOR.MINOR.PATCH
/// v?MAJOR.MINOR.PATCH-rc.N
/// v?MAJOR.MINOR.PATCH-nightly.YYYYMMDD[.N]
/// ```
///
/// Anything else returns `None` -- there is no silent zero-fill fallback.
#[derive(Debug)]
pub struct Version {
    core: (u64, u64, u64),
    prerelease: Option<Prerelease>,
}

impl View for Version {
    type V = VersionModel;

    closed spec fn view(&self) -> VersionModel {
        VersionModel {
            core: self.core,
            prerelease: match self.prerelease {
                Some(p) => Some(p@),
                None => None,
            },
        }
    }
}

impl Clone for Version {
    fn clone(&self) -> (r: Self)
        ensures
            r == *self,
    {
        let prerelease = match &self.prerelease {
            Some(p) => Some(p.clone()),
            None => None,
        };
        Version { core: self.core, prerelease }
    }
}

impl Version {
    /// The text of the tag a prerelease was read from; `None` for a final
    /// release.
    pub closed spec fn raw_text(&self) -> Option<Seq<char>> {
        match self.prerelease {
            Some(p) => Some(p.raw_text()),
            None => None,
        }
    }
}

/// True when `s` is the word `rc`.
fn is_rc_word(s: &[char]) -> (r: bool)
    ensures
        r == (s@ == rc_word()),
{
    let r = s.len() == 2 && s[0] == 'r' && s[1] == 'c';
    if r {
        assert(s@ =~= rc_word());
    }
    r
}

/// True when `s` is the word `nightly`.
fn is_nightly_word(s: &[char]) -> (r: bool)
    ensures
        r == (s@ == nightly_word()),
{
    let r = s.len() == 7 && s[0] == 'n' && s[1] == 'i' && s[2] == 'g' && s[3] == 'h' && s[4]
        == 't' && s[5] == 'l' && s[6] == 'y';
    if r {
        assert(s@ =~= nightly_word());
    }
    r
}

/// Reads `MAJOR.MINOR.PATCH`; see [`core_of`].
fn parse_core(value: &[char]) -> (r: Option<(u64, u64, u64)>)
    ensures
        r == core_of(value@),
{
    let parts = split_chars(value, '.');
    assert(parts@.len() == split_on(value@, '.').len());
    if parts.len() != 3 {
        return None;
    }
    assert(parts@[0]@ == split_on(value@, '.')[0]);
    assert(parts@[1]@ == split_on(value@, '.')[1]);
    assert(parts@[2]@ == split_on(value@, '.')[2]);
    let major = match parse_strict_u64(parts[0].as_slice()) {
        Some(n) => n,
        None => return None,
    };
    let minor = match parse_strict_u64(parts[1].as_slice()) {
        Some(n) => n,
        None => return None,
    };
    let patch = match parse_strict_u64(parts[2].as_slice()) {
        Some(n) => n,
        None => return None,
    };
    Some((major, minor, patch))
}

/// Reads a prerelease suffix; see [`prerelease_of`]. `raw` is the whole tag,
/// kept as published.
fn parse_prerelease(raw: &str, suffix: &[char]) -> (r: Option<Prerelease>)
    ensures
        match r {
            Some(p) => prerelease_of(suffix@) == Some(p@) && p.raw_text() == raw@,
            None => prerelease_of(suffix@) is None,
        },
{
    let parts = split_chars(suffix, '.');
    let ghost pieces = split_on(suffix@, '.');
    proof {
        lemma_split_nonempty(suffix@, '.');
    }
    assert(parts@.len() == pieces.len());
    assert(parts@[0]@ == pieces[0]);
    if is_rc_word(parts[0].as_slice()) {
        if parts.len() != 2 {
            return None;
        }
        assert(parts@[1]@ == pieces[1]);
        let ordinal = match parse_strict_u64(parts[1].as_slice()) {
            Some(n) => n,
            None => return None,
        };
        if ordinal == 0 {
            return None;
        }
        Some(Prerelease { kind: BuildKind::Rc, ordinal, same_day: 0, raw: raw.to_owned() })
    } else if is_nightly_word(parts[0].as_slice()) {
        if parts.len() != 2 && parts.len() != 3 {
            return None;
        }
        assert(parts@[1]@ == pieces[1]);
        if parts[1].len() != 8 {
            return None;
        }
        let date = match parse_strict_u64(parts[1].as_slice()) {
            Some(n) => n,
            None => return None,
        };
        let suffix_n = if parts.len() == 3 {
            assert(parts@[2]@ == pieces[2]);
            match parse_strict_u64(parts[2].as_slice()) {
                Some(n) => n,
                None => return None,
            }
        } else {
            0
        };
        Some(
            Prerelease {
                kind: BuildKind::Nightly,
                ordinal: date,
                same_day: suffix_n,
                raw: raw.to_owned(),
            },
        )
    } else {
        None
    }
}

impl Version {
    /// Parses a release tag per the grammar documented on [`Version`]
    /// (see [`parse_tag`]). Returns `None` for anything that does not match
    /// exactly. A prerelease keeps the whole tag as its raw text.
    pub fn parse(tag: &str) -> (r: Option<Version>)
        ensures
            match r {
                Some(v) => parse_tag(tag@) == Some(v@) && (v.raw_text() matches Some(raw)
                    ==> raw == tag@),
                None => parse_tag(tag@) is None,
            },
    {
        let chars = str_chars(tag);
        let rest = if chars.len() > 0 && chars[0] == 'v' {
            sub_chars(chars.as_slice(), 1, chars.len())
        } else {
            chars
        };
        assert(rest@ =~= crate::release_channel::strip_v(tag@));
        if rest.len() == 0 {
            return None;
        }
        match find_char(rest.as_slice(), '-') {
            Some(i) => {
                proof {
                    lemma_split_once_at(rest@, '-', i as int);
                }
                let core_text = sub_chars(rest.as_slice(), 0, i);
                let suffix = sub_chars(rest.as_slice(), i + 1, rest.len());
                assert(core_text@ =~= rest@.take(i as int));
                assert(suffix@ =~= rest@.skip(i + 1));
                let core = match parse_core(core_text.as_slice()) {
                    Some(c) => c,
                    None => return None,
                };
                let prerelease = match parse_prerelease(tag, suffix.as_slice()) {
                    Some(p) => p,
                    None => return None,
                };
                Some(Version { core, prerelease: Some(prerelease) })
            },
            None => {
                let core = match parse_core(rest.as_slice()) {
                    Some(c) => c,
                    None => return None,
                };
                Some(Version { core, prerelease: None })
            },
        }
    }
}

// ---------------------------------------------------------------------
// Canonical text
// ---------------------------------------------------------------------

/// `MAJOR.MINOR.PATCH` in shortest decimal form.
pub open spec fn core_text(core: (u64, u64, u64)) -> Seq<char> {
    decimal_text(core.0 as nat) + seq!['.'] + decimal_text(core.1 as nat) + seq!['.']
        + decimal_text(core.2 as nat)
}

/// The canonical text after the `-` of a prerelease: `rc.N`, or
/// `nightly.DATE` with `.N` appended when the same-day number `N` is not
/// zero.
pub open spec fn suffix_text(p: PrereleaseModel) -> Seq<char> {
    match p.kind {
        BuildKind::Rc => rc_word() + seq!['.'] + decimal_text(p.ordinal as nat),
        BuildKind::Nightly => if p.same_day == 0 {
            nightly_word() + seq!['.'] + decimal_text(p.ordinal as nat)
        } else {
            nightly_word() + seq!['.'] + decimal_text(p.ordinal as nat) + seq!['.']
                + decimal_text(p.same_day as nat)
        },
        BuildKind::Stable => Seq::<char>::empty(),
    }
}

/// The canonical suffix of a version: `-` then the suffix text of a
/// release-candidate or nightly prerelease; nothing otherwise.
pub open spec fn prerelease_text(p: Option<PrereleaseModel>) -> Seq<char> {
    match p {
        Some(p) => if p.kind == BuildKind::Stable {
            Seq::<char>::empty()
        } else {
            seq!['-'] + suffix_text(p)
        },
        None => Seq::<char>::empty(),
    }
}

/// The canonical text of a version: no leading `v`, numbers in shortest
/// decimal form.
pub open spec fn render(v: VersionModel) -> Seq<char> {
    core_text(v.core) + prerelease_text(v.prerelease)
}

impl Version {
    /// The canonical text of this version (see [`render`]), e.g.
    /// `0.5.0-rc.1` for the tag `v0.5.0-rc.1`.
    pub fn to_canonical_string(&self) -> (r: String)
        ensures
            r@ == render(self@),
    {
        proof {
            reveal_strlit(".");
            reveal_strlit("-rc.");
            reveal_strlit("-nightly.");
        }
        assert("."@ =~= seq!['.']);
        assert("-rc."@ =~= seq!['-', 'r', 'c', '.']);
        assert("-nightly."@ =~= seq!['-', 'n', 'i', 'g', 'h', 't', 'l', 'y', '.']);
        let mut out = String::new();
        push_decimal(&mut out, self.core.0);
        out.append(".");
        push_decimal(&mut out, self.core.1);
        out.append(".");
        push_decimal(&mut out, self.core.2);
        assert(out@ =~= core_text(self.core));
        let ghost core_part = out@;
        match &self.prerelease {
            Some(p) => match p.kind {
                BuildKind::Rc => {
                    out.append("-rc.");
                    push_decimal(&mut out, p.ordinal);
                    assert(out@ =~= core_part + prerelease_text(Some(p@)));
                },
                BuildKind::Nightly => {
                    out.append("-nightly.");
                    push_decimal(&mut out, p.ordinal);
                    if p.same_day != 0 {
                        out.append(".");
                        push_decimal(&mut out, p.same_day);
                    }
                    assert(out@ =~= core_part + prerelease_text(Some(p@)));
                },
                BuildKind::Stable => {
                    assert(out@ =~= core_part + prerelease_text(Some(p@)));
                },
            },
            None => {
                assert(out@ =~= core_part + prerelease_text(None));
            },
        }
        out
    }
}

// ---------------------------------------------------------------------
// Precedence
// ---------------------------------------------------------------------

/// Lexicographic order on core triples.
pub open spec fn core_precedes(a: (u64, u64, u64), b: (u64, u64, u64)) -> bool {
    ||| a.0 < b.0
    ||| a.0 == b.0 && a.1 < b.1
    ||| a.0 == b.0 && a.1 == b.1 && a.2 < b.2
}

/// For equal cores: a prerelease precedes the final release, and two
/// prereleases compare by kind (a nightly below a release candidate, see
/// [`precedence_rank`]), then by ordinal (a nightly's date), then by
/// same-day number.
pub open spec fn prerelease_precedes(a: Option<PrereleaseModel>, b: Option<PrereleaseModel>) -> bool {
    match (a, b) {
        (Some(_), None) => true,
        (Some(x), Some(y)) => {
            ||| precedence_rank(x.kind) < precedence_rank(y.kind)
            ||| x.kind == y.kind && x.ordinal < y.ordinal
            ||| x.kind == y.kind && x.ordinal == y.ordinal && x.same_day < y.same_day
        },
        _ => false,
    }
}

/// Semver precedence: `a` sorts strictly below `b`. Core triples decide
/// first; for equal cores see [`prerelease_precedes`].
pub open spec fn precedes(a: VersionModel, b: VersionModel) -> bool {
    ||| core_precedes(a.core, b.core)
    ||| a.core == b.core && prerelease_precedes(a.prerelease, b.prerelease)
}

/// The three-way comparison of two versions by precedence. Two versions are
/// `Equal` exactly when the grammar reads them alike.
pub open spec fn precedence_order(a: VersionModel, b: VersionModel) -> Ordering {
    if precedes(a, b) {
        Ordering::Less
    } else if a == b {
        Ordering::Equal
    } else {
        Ordering::Greater
    }
}

/// Three-way comparison of two `u64`s.
fn order_u64(a: u64, b: u64) -> (r: Ordering)
    ensures
        r == (if a < b {
            Ordering::Less
        } else if a == b {
            Ordering::Equal
        } else {
            Ordering::Greater
        }),
{
    if a < b {
        Ordering::Less
    } else if a == b {
        Ordering::Equal
    } else {
        Ordering::Greater
    }
}

impl Version {
    /// Per semver: compare core triples first; for equal cores, a
    /// prerelease is always less than a final release; for two prereleases
    /// on an equal core, compare kind (a nightly below a release candidate),
    /// then ordinal (a nightly's date), then same-day number.
    pub fn cmp(&self, other: &Self) -> (r: Ordering)
        ensures
            r == precedence_order(self@, other@),
    {
        let by_core = match order_u64(self.core.0, other.core.0) {
            Ordering::Equal => match order_u64(self.core.1, other.core.1) {
                Ordering::Equal => order_u64(self.core.2, other.core.2),
                o => o,
            },
            o => o,
        };
        match by_core {
            Ordering::Equal => {},
            o => {
                return o;
            },
        }
        assert(self@.core == other@.core);
        match (&self.prerelease, &other.prerelease) {
            (None, None) => Ordering::Equal,
            (None, Some(_)) => Ordering::Greater,
            (Some(_), None) => Ordering::Less,
            (Some(a), Some(b)) => match order_u64(a.kind.rank(), b.kind.rank()) {
                Ordering::Equal => {
                    assert(a.kind == b.kind);
                    match order_u64(a.ordinal, b.ordinal) {
                        Ordering::Equal => order_u64(a.same_day, b.same_day),
                        o => o,
                    }
                },
                o => o,
            },
        }
    }
}

impl PartialEq for Version {
    fn eq(&self, other: &Self) -> (r: bool) {
        match self.cmp(other) {
            Ordering::Equal => true,
            _ => false,
        }
    }
}

impl PartialEqSpecImpl for Version {
    open spec fn obeys_eq_spec() -> bool {
        true
    }

    open spec fn eq_spec(&self, other: &Self) -> bool {
        self@ == other@
    }
}

impl Eq for Version {

}

impl PartialOrd for Version {
    fn partial_cmp(&self, other: &Self) -> (r: Option<Ordering>) {
        Some(self.cmp(other))
    }
}

impl PartialOrdSpecImpl for Version {
    open spec fn obeys_partial_cmp_spec() -> bool {
        true
    }

    open spec fn partial_cmp_spec(&self, other: &Self) -> Option<Ordering> {
        Some(precedence_order(self@, other@))
    }
}

} // verus!
