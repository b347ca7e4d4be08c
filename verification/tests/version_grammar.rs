use std::cmp::Ordering;
use strata::{Channel, Version};

fn parse(tag: &str) -> Version {
    Version::parse(tag).unwrap_or_else(|| panic!("expected {tag} to parse"))
}

#[test]
fn release_candidate_zero_is_not_a_positive_ordinal() {
    assert!(Version::parse("v0.5.0-rc.0").is_none());
    assert!(Version::parse("v0.5.0-rc.00").is_none());
    assert!(Version::parse("v0.5.0-rc.01").is_some());
}

#[test]
fn nightly_date_has_exactly_eight_digits() {
    assert!(Version::parse("0.5.0-nightly.2026091").is_none());
    assert!(Version::parse("0.5.0-nightly.202609011").is_none());
    assert!(Version::parse("0.5.0-nightly.2026090x").is_none());
    assert!(Version::parse("0.5.0-nightly").is_none());
}

#[test]
fn nightly_takes_at_most_one_same_day_number() {
    assert!(Version::parse("0.5.0-nightly.20260901.1.2").is_none());
    assert!(Version::parse("0.5.0-nightly.20260901.").is_none());
    assert!(Version::parse("0.5.0-nightly.20260901.x").is_none());
}

#[test]
fn numbers_are_strictly_decimal() {
    assert!(Version::parse("0.+5.0").is_none());
    assert!(Version::parse("0.5.0-rc.+1").is_none());
    assert!(Version::parse("0.5.-0").is_none());
    assert!(Version::parse("0..0").is_none());
    assert!(Version::parse("0.5.0.1").is_none());
    assert!(Version::parse("v").is_none());
    assert!(Version::parse("0.5.0-").is_none());
}

#[test]
fn core_numbers_must_fit_in_sixty_four_bits() {
    assert!(Version::parse("18446744073709551615.0.0").is_some());
    assert!(Version::parse("18446744073709551616.0.0").is_none());
    assert!(Version::parse("0.5.0-rc.18446744073709551616").is_none());
}

#[test]
fn leading_v_is_optional() {
    assert_eq!(parse("v1.2.3"), parse("1.2.3"));
    assert_eq!(parse("v1.2.3-rc.4"), parse("1.2.3-rc.4"));
    assert_eq!(
        parse("v1.2.3-nightly.20260901.5"),
        parse("1.2.3-nightly.20260901.5")
    );
}

#[test]
fn core_version_decides_before_prereleases() {
    assert!(parse("1.0.0-rc.1") > parse("0.9.9"));
    assert!(parse("0.10.0") > parse("0.9.0"));
    assert!(parse("0.5.0-rc.1") < parse("0.5.1-nightly.20200101"));
}

#[test]
fn rc_ordinals_compare_numerically() {
    assert!(parse("0.5.0-rc.10") > parse("0.5.0-rc.9"));
}

#[test]
fn comparison_is_three_way() {
    assert_eq!(parse("0.5.0-rc.1").cmp(&parse("0.5.0-rc.2")), Ordering::Less);
    assert_eq!(parse("0.5.0-rc.2").cmp(&parse("0.5.0-rc.1")), Ordering::Greater);
    assert_eq!(parse("v0.5.0").cmp(&parse("0.5.0")), Ordering::Equal);
    assert_eq!(
        parse("0.5.0-nightly.20260901").partial_cmp(&parse("0.5.0")),
        Some(Ordering::Less)
    );
}

#[test]
fn explicit_zero_same_day_number_equals_none() {
    assert_eq!(
        parse("0.5.0-nightly.20260901.0"),
        parse("0.5.0-nightly.20260901")
    );
    assert_eq!(
        parse("0.5.0-nightly.20260901.0").to_canonical_string(),
        "0.5.0-nightly.20260901"
    );
}

#[test]
fn canonical_text_drops_leading_zeros() {
    assert_eq!(parse("v00.05.000-rc.007").to_canonical_string(), "0.5.0-rc.7");
    assert_eq!(parse("1.2.3").to_canonical_string(), "1.2.3");
    assert_eq!(
        parse("18446744073709551615.10.0").to_canonical_string(),
        "18446744073709551615.10.0"
    );
}

#[test]
fn canonical_text_reads_back() {
    for tag in [
        "v0.5.0",
        "0.5.0-rc.1",
        "v12.0.7-rc.10",
        "0.5.0-nightly.20260901",
        "0.5.0-nightly.20260901.2",
        "v3.2.1-nightly.19991231.999",
    ] {
        let version = parse(tag);
        let text = version.to_canonical_string();
        assert_eq!(parse(&text), version, "{tag} -> {text}");
        assert_eq!(parse(&text).to_canonical_string(), text);
    }
}

#[test]
fn a_date_with_a_leading_zero_does_not_read_back() {
    let version = parse("0.5.0-nightly.00000001");
    assert_eq!(version.to_canonical_string(), "0.5.0-nightly.1");
    assert!(Version::parse(&version.to_canonical_string()).is_none());
}

#[test]
fn same_day_number_never_spills_into_the_date() {
    assert!(parse("0.5.0-nightly.20260901.1000") < parse("0.5.0-nightly.20260902"));
    assert!(parse("0.5.0-nightly.20260901.1000") > parse("0.5.0-nightly.20260901.999"));
    assert_eq!(
        parse("0.5.0-nightly.20260901.1000").to_canonical_string(),
        "0.5.0-nightly.20260901.1000"
    );
    let late = parse("0.5.0-nightly.99999999.1000");
    assert_eq!(late.to_canonical_string(), "0.5.0-nightly.99999999.1000");
    assert_eq!(parse(&late.to_canonical_string()), late);
}

#[test]
fn any_sixty_four_bit_same_day_number_is_read() {
    let version = parse("0.5.0-nightly.20260901.18446744073709551615");
    assert_eq!(
        version.to_canonical_string(),
        "0.5.0-nightly.20260901.18446744073709551615"
    );
    assert!(Version::parse("0.5.0-nightly.20260901.18446744073709551616").is_none());
}

#[test]
fn equal_exactly_when_canonical_text_is_equal() {
    let pairs = [
        ("v0.5.0-rc.1", "0.5.0-rc.01", true),
        ("0.5.0", "v00.5.0", true),
        ("0.5.0-nightly.20260901", "0.5.0-nightly.20260901.0", true),
        ("0.5.0-rc.1", "0.5.0-rc.2", false),
        ("0.5.0-nightly.20260901.1000", "0.5.0-nightly.20260902", false),
        ("0.5.0", "0.5.0-rc.1", false),
    ];
    for (left, right, equal) in pairs {
        let (a, b) = (parse(left), parse(right));
        assert_eq!(a == b, equal, "{left} vs {right}");
        assert_eq!(a.cmp(&b) == Ordering::Equal, equal, "{left} vs {right}");
        assert_eq!(
            a.to_canonical_string() == b.to_canonical_string(),
            equal,
            "{left} vs {right}"
        );
    }
}

#[test]
fn channel_text_parses_back_to_the_channel() {
    for channel in [Channel::Stable, Channel::Preview] {
        assert_eq!(Channel::parse(channel.as_str()), channel);
    }
}

#[test]
fn channel_parsing_fails_closed() {
    assert_eq!(Channel::parse("Preview"), Channel::Stable);
    assert_eq!(Channel::parse(" preview"), Channel::Stable);
    assert_eq!(Channel::parse("preview\n"), Channel::Stable);
    assert_eq!(Channel::parse("rc"), Channel::Stable);
}

#[test]
fn release_candidate_outranks_nightly_at_an_equal_core() {
    assert!(parse("0.5.0-rc.1") > parse("0.5.0-nightly.20260901"));
    assert_eq!(
        parse("0.5.0-rc.1").cmp(&parse("0.5.0-nightly.20260901.999")),
        Ordering::Greater
    );
    assert!(parse("0.5.0-rc.1") < parse("0.5.0"));
    assert!(parse("0.5.0-nightly.20260901") < parse("0.5.0"));
    assert!(parse("0.5.1-nightly.20200101") > parse("0.5.0-rc.9"));
}

#[test]
fn nightlies_compare_by_date_then_same_day_number() {
    assert!(parse("0.5.0-nightly.20260831.999") < parse("0.5.0-nightly.20260901"));
    assert!(parse("0.5.0-nightly.20260901") < parse("0.5.0-nightly.20260901.1"));
    assert_eq!(
        parse("0.5.0-nightly.20260901.3").cmp(&parse("v0.5.0-nightly.20260901.3")),
        Ordering::Equal
    );
}
