//! Laws of the tag grammar: what every reading of a tag satisfies, how
//! versions are ordered, and that canonical text reads back.
use vstd::prelude::*;

use crate::release_channel::{
    channel_from_text, channel_text, core_of, core_text, nightly_word, parse_tag,
    precedence_order, precedes, prerelease_of, rc_word, render, strip_v, suffix_text, BuildKind, Channel,
    PrereleaseModel, VersionModel,
};
use std::cmp::Ordering;

use crate::text::{
    all_digits, decimal_text, decimal_u64, decimal_value, is_digit, is_first_index,
    is_shortest_decimal, lemma_concat_excludes, lemma_decimal_reads_back, lemma_decimal_text,
    lemma_decimal_text_is_shortest, lemma_first_piece, lemma_decimal_text_eight_digits,
    lemma_decimal_value_bound, lemma_first_index_exists, lemma_split_concat,
    lemma_split_once_at, lemma_split_without_sep, pow10, split_on,
};

verus! {

// ---------------------------------------------------------------------
// Channels
// ---------------------------------------------------------------------

/// A channel's persisted text parses back to the same channel.
pub proof fn lemma_channel_round_trip(c: Channel)
    ensures
        channel_from_text(channel_text(c)) == c,
{
    if c == Channel::Stable {
        assert(channel_text(Channel::Stable)[0] != channel_text(Channel::Preview)[0]);
    }
}

/// Parsing fails closed: any text other than exactly `preview` selects the
/// stable channel.
pub proof fn lemma_channel_fails_closed(value: Seq<char>)
    requires
        value != channel_text(Channel::Preview),
    ensures
        channel_from_text(value) == Channel::Stable,
{
}

// ---------------------------------------------------------------------
// Precedence
// ---------------------------------------------------------------------

/// No version precedes itself.
pub proof fn lemma_precedes_irreflexive(a: VersionModel)
    ensures
        !precedes(a, a),
{
}

/// Any two versions compare one way: exactly one of `a` below `b`, `a`
/// read the same as `b`, or `b` below `a` holds.
pub proof fn lemma_precedes_trichotomy(a: VersionModel, b: VersionModel)
    ensures
        precedes(a, b) || a == b || precedes(b, a),
        !(precedes(a, b) && precedes(b, a)),
        a == b ==> !precedes(a, b),
{
}

/// The three-way comparison is `Equal` exactly for versions read alike, and
/// swapping its arguments reverses it.
pub proof fn lemma_order_is_antisymmetric(a: VersionModel, b: VersionModel)
    ensures
        (precedence_order(a, b) == Ordering::Equal) == (a == b),
        (precedence_order(a, b) == Ordering::Less) == (precedence_order(b, a)
            == Ordering::Greater),
        (precedence_order(a, b) == Ordering::Greater) == (precedence_order(b, a)
            == Ordering::Less),
{
}

/// Precedence is transitive.
pub proof fn lemma_precedes_transitive(a: VersionModel, b: VersionModel, c: VersionModel)
    requires
        precedes(a, b),
        precedes(b, c),
    ensures
        precedes(a, c),
{
}

/// A higher core triple outranks anything on a lower core, whatever the
/// prereleases.
pub proof fn lemma_core_decides(a: VersionModel, b: VersionModel)
    requires
        a.core.0 < b.core.0 || (a.core.0 == b.core.0 && a.core.1 < b.core.1) || (a.core.0
            == b.core.0 && a.core.1 == b.core.1 && a.core.2 < b.core.2),
    ensures
        precedes(a, b),
{
}

/// A final release outranks every prerelease of its own core version.
pub proof fn lemma_final_outranks_its_prereleases(
    core: (u64, u64, u64),
    p: PrereleaseModel,
)
    ensures
        precedes(
            VersionModel { core, prerelease: Some(p) },
            VersionModel { core, prerelease: None },
        ),
{
}

/// On an equal core, any release candidate outranks any nightly.
pub proof fn lemma_rc_outranks_nightly(
    core: (u64, u64, u64),
    nightly: PrereleaseModel,
    rc: PrereleaseModel,
)
    requires
        nightly.kind == BuildKind::Nightly,
        rc.kind == BuildKind::Rc,
    ensures
        precedes(
            VersionModel { core, prerelease: Some(nightly) },
            VersionModel { core, prerelease: Some(rc) },
        ),
{
}

/// On an equal core and kind, prereleases compare by ordinal first: `rc.10`
/// sorts after `rc.9`, and a later nightly date sorts after an earlier one
/// whatever their same-day numbers.
pub proof fn lemma_prereleases_order_by_ordinal(
    core: (u64, u64, u64),
    lower: PrereleaseModel,
    higher: PrereleaseModel,
)
    requires
        lower.kind == higher.kind,
        lower.ordinal < higher.ordinal,
    ensures
        precedes(
            VersionModel { core, prerelease: Some(lower) },
            VersionModel { core, prerelease: Some(higher) },
        ),
{
}

/// Two nightlies of the same core and date compare by same-day number, an
/// absent one counting as 0.
pub proof fn lemma_same_day_number_breaks_ties(
    core: (u64, u64, u64),
    date: u64,
    lower: u64,
    higher: u64,
)
    requires
        lower < higher,
    ensures
        precedes(
            VersionModel {
                core,
                prerelease: Some(
                    PrereleaseModel { kind: BuildKind::Nightly, ordinal: date, same_day: lower },
                ),
            },
            VersionModel {
                core,
                prerelease: Some(
                    PrereleaseModel { kind: BuildKind::Nightly, ordinal: date, same_day: higher },
                ),
            },
        ),
{
}

// ---------------------------------------------------------------------
// Readings of tags
// ---------------------------------------------------------------------

/// The shape of every reading: a prerelease, if any, is a release
/// candidate with a positive ordinal and no same-day number, or a nightly;
/// never a prerelease of kind `Stable`.
pub open spec fn is_reading_shape(v: VersionModel) -> bool {
    v.prerelease matches Some(p) ==> ((p.kind == BuildKind::Rc && p.ordinal > 0 && p.same_day
        == 0) || p.kind == BuildKind::Nightly)
}

/// Every reading of a tag has the shape of a reading.
pub proof fn lemma_reading_kinds(tag: Seq<char>)
    requires
        parse_tag(tag) is Some,
    ensures
        is_reading_shape(parse_tag(tag).unwrap()),
        parse_tag(tag).unwrap().prerelease matches Some(p) ==> (p.kind == BuildKind::Nightly
            ==> p.ordinal < 100_000_000),
{
    let v = parse_tag(tag).unwrap();
    if v.prerelease is Some && v.prerelease.unwrap().kind == BuildKind::Nightly {
        let rest = strip_v(tag);
        assert(rest.contains('-'));
        lemma_first_index_exists(rest, '-');
        let i = choose|i: int| is_first_index(rest, '-', i);
        lemma_split_once_at(rest, '-', i);
        let parts = split_on(rest.skip(i + 1), '.');
        lemma_decimal_value_bound(parts[1]);
        reveal_with_fuel(pow10, 9);
        assert(pow10(8) == 100_000_000);
    }
}

/// The leading `v` is optional: a tag reads the same with and without it.
pub proof fn lemma_leading_v_is_optional(tag: Seq<char>)
    requires
        tag.len() > 0,
        tag[0] != 'v',
    ensures
        parse_tag(seq!['v'] + tag) == parse_tag(tag),
{
    assert((seq!['v'] + tag).skip(1) =~= tag);
}

// ---------------------------------------------------------------------
// Canonical text
// ---------------------------------------------------------------------

/// A version whose canonical text reads back to it: it has the shape of a
/// reading, and the date of a nightly has eight digits without a leading
/// zero.
pub open spec fn renders_faithfully(v: VersionModel) -> bool {
    &&& is_reading_shape(v)
    &&& v.prerelease matches Some(p) ==> (p.kind == BuildKind::Nightly ==> 10_000_000
        <= p.ordinal < 100_000_000)
}

/// The canonical core text reads back as the core triple and holds no `-`.
proof fn lemma_core_text_reads_back(core: (u64, u64, u64))
    ensures
        core_of(core_text(core)) == Some(core),
        !core_text(core).contains('-'),
        core_text(core).len() >= 1,
        is_digit(core_text(core)[0]),
{
    let d0 = decimal_text(core.0 as nat);
    let d1 = decimal_text(core.1 as nat);
    let d2 = decimal_text(core.2 as nat);
    lemma_decimal_reads_back(core.0 as nat);
    lemma_decimal_reads_back(core.1 as nat);
    lemma_decimal_reads_back(core.2 as nat);
    lemma_split_concat(d0, d1, '.');
    lemma_split_concat(d0 + seq!['.'] + d1, d2, '.');
    let parts = split_on(core_text(core), '.');
    assert(parts =~= seq![d0, d1, d2]);
    assert(!seq!['.'].contains('-'));
    lemma_concat_excludes(d0, seq!['.'], '-');
    lemma_concat_excludes(d0 + seq!['.'], d1, '-');
    lemma_concat_excludes(d0 + seq!['.'] + d1, seq!['.'], '-');
    lemma_concat_excludes(d0 + seq!['.'] + d1 + seq!['.'], d2, '-');
}

/// The pieces of the canonical suffix text of a release candidate or
/// nightly, split at `.`.
proof fn lemma_suffix_pieces(p: PrereleaseModel)
    requires
        p.kind != BuildKind::Stable,
    ensures
        split_on(suffix_text(p), '.') == (if p.kind == BuildKind::Rc {
            seq![rc_word(), decimal_text(p.ordinal as nat)]
        } else if p.same_day == 0 {
            seq![nightly_word(), decimal_text(p.ordinal as nat)]
        } else {
            seq![nightly_word(), decimal_text(p.ordinal as nat), decimal_text(p.same_day as nat)]
        }),
{
    let t = suffix_text(p);
    let d = decimal_text(p.ordinal as nat);
    assert(!rc_word().contains('.'));
    assert(!nightly_word().contains('.'));
    lemma_split_without_sep(rc_word(), '.');
    lemma_split_without_sep(nightly_word(), '.');
    lemma_decimal_reads_back(p.ordinal as nat);
    if p.kind == BuildKind::Rc {
        lemma_split_concat(rc_word(), d, '.');
        assert(split_on(t, '.') =~= seq![rc_word(), d]);
    } else {
        lemma_split_concat(nightly_word(), d, '.');
        if p.same_day == 0 {
            assert(split_on(t, '.') =~= seq![nightly_word(), d]);
        } else {
            let dn = decimal_text(p.same_day as nat);
            lemma_decimal_reads_back(p.same_day as nat);
            lemma_split_concat(nightly_word() + seq!['.'] + d, dn, '.');
            assert(split_on(t, '.') =~= seq![nightly_word(), d, dn]);
        }
    }
}

/// The canonical suffix text of a faithfully rendered prerelease reads back
/// as that prerelease.
proof fn lemma_suffix_text_reads_back(p: PrereleaseModel)
    requires
        renders_faithfully(VersionModel { core: (0, 0, 0), prerelease: Some(p) }),
    ensures
        prerelease_of(suffix_text(p)) == Some(p),
{
    lemma_suffix_pieces(p);
    lemma_decimal_reads_back(p.ordinal as nat);
    assert(rc_word() != nightly_word());
    if p.kind == BuildKind::Nightly {
        lemma_decimal_text_eight_digits(p.ordinal as nat);
        if p.same_day != 0 {
            lemma_decimal_reads_back(p.same_day as nat);
        }
    }
}

/// Distinct release candidates and nightlies have distinct canonical suffix
/// texts.
proof fn lemma_suffix_text_injective(p: PrereleaseModel, q: PrereleaseModel)
    requires
        is_reading_shape(VersionModel { core: (0, 0, 0), prerelease: Some(p) }),
        is_reading_shape(VersionModel { core: (0, 0, 0), prerelease: Some(q) }),
        suffix_text(p) == suffix_text(q),
    ensures
        p == q,
{
    lemma_suffix_pieces(p);
    lemma_suffix_pieces(q);
    lemma_decimal_reads_back(p.ordinal as nat);
    lemma_decimal_reads_back(q.ordinal as nat);
    lemma_decimal_reads_back(p.same_day as nat);
    lemma_decimal_reads_back(q.same_day as nat);
    let pp = split_on(suffix_text(p), '.');
    assert(rc_word() != nightly_word()) by {
        assert(rc_word().len() != nightly_word().len());
    }
    assert(pp[0] == split_on(suffix_text(q), '.')[0]);
    assert(p.kind == q.kind);
    assert(decimal_u64(pp[1]) == Some(p.ordinal));
    assert(p.ordinal == q.ordinal);
    if p.kind == BuildKind::Nightly && p.same_day != 0 {
        assert(pp.len() == 3);
        assert(q.same_day != 0);
        assert(decimal_u64(pp[2]) == Some(p.same_day));
    }
}

/// Canonical text reads back: the canonical text of a faithfully rendered
/// version is a valid tag whose reading is that same version.
pub proof fn lemma_render_reads_back(v: VersionModel)
    requires
        renders_faithfully(v),
    ensures
        parse_tag(render(v)) == Some(v),
{
    let c = core_text(v.core);
    let r = render(v);
    lemma_core_text_reads_back(v.core);
    assert(r[0] == c[0]);
    assert(strip_v(r) == r);
    match v.prerelease {
        None => {
            assert(r =~= c);
        },
        Some(p) => {
            let body = suffix_text(p);
            assert(r =~= c + seq!['-'] + body);
            assert(r.take(c.len() as int) =~= c);
            assert(r.skip(c.len() as int + 1) =~= body);
            assert(is_first_index(r, '-', c.len() as int));
            lemma_split_once_at(r, '-', c.len() as int);
            lemma_suffix_text_reads_back(p);
        },
    }
}

/// A tag's reading renders to canonical text that reads back the same,
/// unless it is a nightly whose date starts with a zero.
pub proof fn lemma_canonical_text_of_tag_reads_back(tag: Seq<char>)
    requires
        parse_tag(tag) is Some,
        parse_tag(tag).unwrap().prerelease matches Some(p) ==> (p.kind == BuildKind::Nightly
            ==> 10_000_000 <= p.ordinal),
    ensures
        parse_tag(render(parse_tag(tag).unwrap())) == parse_tag(tag),
{
    lemma_reading_kinds(tag);
    lemma_render_reads_back(parse_tag(tag).unwrap());
}

/// Two versions of the shape of a reading are equal exactly when their
/// canonical texts are equal: the canonical text loses nothing, and the
/// raw text of a tag (a leading `v`, leading zeros) never matters.
pub proof fn lemma_equal_exactly_when_same_text(a: VersionModel, b: VersionModel)
    requires
        is_reading_shape(a),
        is_reading_shape(b),
    ensures
        (a == b) == (render(a) == render(b)),
{
    if render(a) == render(b) {
        let r = render(a);
        let ca = core_text(a.core);
        let cb = core_text(b.core);
        lemma_core_text_reads_back(a.core);
        lemma_core_text_reads_back(b.core);
        match (a.prerelease, b.prerelease) {
            (None, None) => {
                assert(r =~= ca);
                assert(r =~= cb);
            },
            (Some(p), None) => {
                assert(r =~= ca + seq!['-'] + suffix_text(p));
                assert(r =~= cb);
                assert(r[ca.len() as int] == '-');
                assert(cb[ca.len() as int] == '-');
            },
            (None, Some(q)) => {
                assert(r =~= cb + seq!['-'] + suffix_text(q));
                assert(r =~= ca);
                assert(r[cb.len() as int] == '-');
                assert(ca[cb.len() as int] == '-');
            },
            (Some(p), Some(q)) => {
                assert(r =~= ca + seq!['-'] + suffix_text(p));
                assert(r =~= cb + seq!['-'] + suffix_text(q));
                assert(r.take(ca.len() as int) =~= ca);
                assert(r.take(cb.len() as int) =~= cb);
                assert(is_first_index(r, '-', ca.len() as int));
                assert(is_first_index(r, '-', cb.len() as int));
                lemma_split_once_at(r, '-', ca.len() as int);
                lemma_split_once_at(r, '-', cb.len() as int);
                assert(ca == cb);
                assert(r.skip(ca.len() as int + 1) =~= suffix_text(p));
                assert(r.skip(cb.len() as int + 1) =~= suffix_text(q));
                lemma_suffix_text_injective(p, q);
            },
        }
    }
}

/// Two tags read as equal versions exactly when the canonical texts of
/// their readings are equal.
pub proof fn lemma_equal_readings_exactly_when_same_text(s: Seq<char>, t: Seq<char>)
    requires
        parse_tag(s) is Some,
        parse_tag(t) is Some,
    ensures
        (parse_tag(s).unwrap() == parse_tag(t).unwrap()) == (render(parse_tag(s).unwrap())
            == render(parse_tag(t).unwrap())),
{
    lemma_reading_kinds(s);
    lemma_reading_kinds(t);
    lemma_equal_exactly_when_same_text(parse_tag(s).unwrap(), parse_tag(t).unwrap());
}

// ---------------------------------------------------------------------
// Order of prerelease tags
// ---------------------------------------------------------------------

/// Two nightly tags of one core compare by date first, then by same-day
/// number (0 when absent): the tag `s` sorts below `t` exactly when its
/// date is earlier, or the dates are equal and its same-day number is
/// smaller; they are equal exactly when both numbers match.
pub proof fn lemma_nightly_tags_order_by_date_then_same_day(s: Seq<char>, t: Seq<char>)
    requires
        parse_tag(s) is Some,
        parse_tag(t) is Some,
        parse_tag(s).unwrap().core == parse_tag(t).unwrap().core,
        parse_tag(s).unwrap().prerelease matches Some(p) && p.kind == BuildKind::Nightly,
        parse_tag(t).unwrap().prerelease matches Some(q) && q.kind == BuildKind::Nightly,
    ensures
        ({
            let p = parse_tag(s).unwrap().prerelease.unwrap();
            let q = parse_tag(t).unwrap().prerelease.unwrap();
            &&& precedes(parse_tag(s).unwrap(), parse_tag(t).unwrap()) == (p.ordinal < q.ordinal
                || (p.ordinal == q.ordinal && p.same_day < q.same_day))
            &&& (parse_tag(s).unwrap() == parse_tag(t).unwrap()) == (p.ordinal == q.ordinal
                && p.same_day == q.same_day)
        }),
{
}

/// A release-candidate tag outranks a nightly tag of the same core, whatever
/// their numbers.
pub proof fn lemma_rc_tag_outranks_nightly_tag(rc: Seq<char>, nightly: Seq<char>)
    requires
        parse_tag(rc) is Some,
        parse_tag(nightly) is Some,
        parse_tag(rc).unwrap().core == parse_tag(nightly).unwrap().core,
        parse_tag(rc).unwrap().prerelease matches Some(p) && p.kind == BuildKind::Rc,
        parse_tag(nightly).unwrap().prerelease matches Some(q) && q.kind == BuildKind::Nightly,
    ensures
        precedes(parse_tag(nightly).unwrap(), parse_tag(rc).unwrap()),
{
}

// ---------------------------------------------------------------------
// What the three-way comparison answers
// ---------------------------------------------------------------------

/// Core triples decide first and compare lexicographically: a greater major
/// wins; for equal majors a greater minor wins; for equal majors and minors a
/// greater patch wins; whatever the prereleases.
pub proof fn lemma_order_compares_cores_lexicographically(a: VersionModel, b: VersionModel)
    ensures
        a.core.0 < b.core.0 ==> precedence_order(a, b) == Ordering::Less,
        a.core.0 > b.core.0 ==> precedence_order(a, b) == Ordering::Greater,
        a.core.0 == b.core.0 && a.core.1 < b.core.1 ==> precedence_order(a, b) == Ordering::Less,
        a.core.0 == b.core.0 && a.core.1 > b.core.1 ==> precedence_order(a, b)
            == Ordering::Greater,
        a.core.0 == b.core.0 && a.core.1 == b.core.1 && a.core.2 < b.core.2 ==> precedence_order(
            a,
            b,
        ) == Ordering::Less,
        a.core.0 == b.core.0 && a.core.1 == b.core.1 && a.core.2 > b.core.2 ==> precedence_order(
            a,
            b,
        ) == Ordering::Greater,
{
}

/// On an equal core: two finals are `Equal`; a prerelease is `Less` than the
/// final; a nightly is `Less` than a release candidate; two prereleases of
/// one kind compare by ordinal, then by same-day number, and are `Equal`
/// only when both match.
pub proof fn lemma_order_on_an_equal_core(a: VersionModel, b: VersionModel)
    requires
        a.core == b.core,
    ensures
        a.prerelease is None && b.prerelease is None ==> precedence_order(a, b)
            == Ordering::Equal,
        a.prerelease is Some && b.prerelease is None ==> precedence_order(a, b)
            == Ordering::Less,
        a.prerelease is None && b.prerelease is Some ==> precedence_order(a, b)
            == Ordering::Greater,
        a.prerelease is Some && b.prerelease is Some ==> ({
            let p = a.prerelease.unwrap();
            let q = b.prerelease.unwrap();
            &&& p.kind == BuildKind::Nightly && q.kind == BuildKind::Rc ==> precedence_order(a, b)
                == Ordering::Less
            &&& p.kind == BuildKind::Rc && q.kind == BuildKind::Nightly ==> precedence_order(a, b)
                == Ordering::Greater
            &&& p.kind == q.kind && p.ordinal < q.ordinal ==> precedence_order(a, b)
                == Ordering::Less
            &&& p.kind == q.kind && p.ordinal > q.ordinal ==> precedence_order(a, b)
                == Ordering::Greater
            &&& p.kind == q.kind && p.ordinal == q.ordinal && p.same_day < q.same_day
                ==> precedence_order(a, b) == Ordering::Less
            &&& p.kind == q.kind && p.ordinal == q.ordinal && p.same_day > q.same_day
                ==> precedence_order(a, b) == Ordering::Greater
            &&& p.kind == q.kind && p.ordinal == q.ordinal && p.same_day == q.same_day
                ==> precedence_order(a, b) == Ordering::Equal
        }),
{
}

// ---------------------------------------------------------------------
// Which suffixes read
// ---------------------------------------------------------------------

/// A tag reads as a prerelease only when the text after its first `-`
/// begins with `rc.` (a release candidate) or `nightly.` (a nightly); any
/// other suffix word has no reading.
pub proof fn lemma_prerelease_word_is_rc_or_nightly(tag: Seq<char>)
    requires
        parse_tag(tag) is Some,
        parse_tag(tag).unwrap().prerelease is Some,
    ensures
        exists|i: int|
            #![trigger is_first_index(strip_v(tag), '-', i)]
            {
                let suffix = strip_v(tag).skip(i + 1);
                let p = parse_tag(tag).unwrap().prerelease.unwrap();
                &&& is_first_index(strip_v(tag), '-', i)
                &&& p.kind == BuildKind::Rc ==> suffix.take(3) == seq!['r', 'c', '.']
                &&& p.kind == BuildKind::Nightly ==> suffix.take(8) == seq![
                    'n',
                    'i',
                    'g',
                    'h',
                    't',
                    'l',
                    'y',
                    '.',
                ]
                &&& p.kind == BuildKind::Rc || p.kind == BuildKind::Nightly
            },
{
    let rest = strip_v(tag);
    assert(rest.contains('-'));
    lemma_first_index_exists(rest, '-');
    let i = choose|i: int| is_first_index(rest, '-', i);
    lemma_split_once_at(rest, '-', i);
    let suffix = rest.skip(i + 1);
    let parts = split_on(suffix, '.');
    lemma_first_piece(suffix, '.');
    let p = parse_tag(tag).unwrap().prerelease.unwrap();
    if p.kind == BuildKind::Rc {
        assert(parts[0] == rc_word());
        assert(suffix.take(3) =~= seq!['r', 'c', '.']) by {
            assert(suffix.take(2) == rc_word());
        }
    } else {
        assert(parts[0] == nightly_word());
        assert(suffix.take(8) =~= seq!['n', 'i', 'g', 'h', 't', 'l', 'y', '.']) by {
            assert(suffix.take(7) == nightly_word());
        }
    }
}

// ---------------------------------------------------------------------
// Numbers in canonical text
// ---------------------------------------------------------------------

/// Every number in the canonical text of a release candidate, nightly or
/// final is written in shortest decimal form (no leading zero): the text
/// before the first `-` (or the whole text) is major, minor and patch
/// separated by `.`; after the `-`, the prerelease's ordinal and a non-zero
/// same-day number follow its word, separated by `.`.
pub proof fn lemma_canonical_numbers_are_shortest(v: VersionModel)
    requires
        is_reading_shape(v),
    ensures
        exists|k: int|
            #![trigger render(v).take(k)]
            {
                let r = render(v);
                let core = split_on(r.take(k), '.');
                &&& 0 < k <= r.len()
                &&& !r.take(k).contains('-')
                &&& core.len() == 3
                &&& is_shortest_decimal(core[0], v.core.0 as nat)
                &&& is_shortest_decimal(core[1], v.core.1 as nat)
                &&& is_shortest_decimal(core[2], v.core.2 as nat)
                &&& v.prerelease is None ==> k == r.len()
                &&& v.prerelease is Some ==> ({
                    let p = v.prerelease.unwrap();
                    let pieces = split_on(r.skip(k + 1), '.');
                    &&& k < r.len()
                    &&& r[k] == '-'
                    &&& pieces.len() >= 2
                    &&& is_shortest_decimal(pieces[1], p.ordinal as nat)
                    &&& (p.same_day != 0 ==> pieces.len() == 3 && is_shortest_decimal(
                        pieces[2],
                        p.same_day as nat,
                    ))
                })
            },
{
    let c = core_text(v.core);
    let r = render(v);
    let k = c.len() as int;
    lemma_core_text_reads_back(v.core);
    lemma_core_numbers_are_shortest(v.core);
    assert(r.take(k) =~= c);
    match v.prerelease {
        None => {
            assert(r =~= c);
        },
        Some(p) => {
            assert(r =~= c + seq!['-'] + suffix_text(p));
            assert(r.skip(k + 1) =~= suffix_text(p));
            lemma_suffix_numbers_are_shortest(p);
        },
    }
    assert(r.take(k) == c);
}

/// The canonical core text is three shortest decimal numbers separated by
/// `.`.
proof fn lemma_core_numbers_are_shortest(core: (u64, u64, u64))
    ensures
        split_on(core_text(core), '.').len() == 3,
        is_shortest_decimal(split_on(core_text(core), '.')[0], core.0 as nat),
        is_shortest_decimal(split_on(core_text(core), '.')[1], core.1 as nat),
        is_shortest_decimal(split_on(core_text(core), '.')[2], core.2 as nat),
{
    let d0 = decimal_text(core.0 as nat);
    let d1 = decimal_text(core.1 as nat);
    let d2 = decimal_text(core.2 as nat);
    lemma_decimal_text_is_shortest(core.0 as nat);
    lemma_decimal_text_is_shortest(core.1 as nat);
    lemma_decimal_text_is_shortest(core.2 as nat);
    lemma_decimal_reads_back(core.0 as nat);
    lemma_decimal_reads_back(core.1 as nat);
    lemma_decimal_reads_back(core.2 as nat);
    lemma_split_concat(d0, d1, '.');
    lemma_split_concat(d0 + seq!['.'] + d1, d2, '.');
    assert(split_on(core_text(core), '.') =~= seq![d0, d1, d2]);
}

/// The numbers in the canonical suffix text of a release candidate or
/// nightly are shortest decimals.
proof fn lemma_suffix_numbers_are_shortest(p: PrereleaseModel)
    requires
        p.kind != BuildKind::Stable,
        p.kind == BuildKind::Rc ==> p.same_day == 0,
    ensures
        split_on(suffix_text(p), '.').len() >= 2,
        is_shortest_decimal(split_on(suffix_text(p), '.')[1], p.ordinal as nat),
        p.same_day != 0 ==> split_on(suffix_text(p), '.').len() == 3 && is_shortest_decimal(
            split_on(suffix_text(p), '.')[2],
            p.same_day as nat,
        ),
{
    lemma_suffix_pieces(p);
    lemma_decimal_text_is_shortest(p.ordinal as nat);
    lemma_decimal_text_is_shortest(p.same_day as nat);
}

} // verus!
