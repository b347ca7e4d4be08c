use strata::{archive_name, evaluate_release, is_newer, parse_version, ReleaseAsset, ReleaseResponse, UpdateCheck};

fn asset(name: &str, url: &str) -> ReleaseAsset {
    ReleaseAsset {
        name: name.to_owned(),
        browser_download_url: url.to_owned(),
    }
}

fn release(tag: &str, assets: Vec<ReleaseAsset>) -> ReleaseResponse {
    ReleaseResponse {
        tag_name: tag.to_owned(),
        html_url: "https://example.test/release".to_owned(),
        assets,
    }
}

#[test]
fn version_triples_read_loosely() {
    assert_eq!(parse_version("1.2.3"), (1, 2, 3));
    assert_eq!(parse_version("1.x"), (1, 0, 0));
    assert_eq!(parse_version(""), (0, 0, 0));
    assert_eq!(parse_version("1.2.3.4"), (1, 2, 3));
    assert_eq!(parse_version("18446744073709551616.1.1"), (0, 1, 1));
    assert_eq!(parse_version("+7.+8.9"), (7, 8, 9));
    assert_eq!(parse_version("+.-1.++2"), (0, 0, 0));
}

#[test]
fn newer_is_a_strict_order() {
    assert!(!is_newer("1.2.3", "1.2.3"));
    assert!(is_newer("1.0.0", "0.9.9"));
    assert!(!is_newer("0.9.9", "1.0.0"));
    assert!(!is_newer("0.2.0", "0.2"));
    assert!(is_newer("0.2.1.0", "0.2.0.9"));
}

#[test]
fn archive_names_follow_the_release_workflow() {
    assert_eq!(
        archive_name("0.6.0", "x86_64"),
        "strata-0.6.0-x86_64-unknown-linux-gnu.tar.gz"
    );
    assert_eq!(
        archive_name("1.0.0", "aarch64"),
        "strata-1.0.0-aarch64-unknown-linux-gnu.tar.gz"
    );
}

#[test]
fn newer_release_with_matching_archive_is_available() {
    let outcome = evaluate_release(
        release(
            "v0.3.0",
            vec![
                asset("strata-0.3.0-aarch64-unknown-linux-gnu.tar.gz", "https://example.test/arm"),
                asset("strata-0.3.0-x86_64-unknown-linux-gnu.tar.gz", "https://example.test/x86"),
                asset("strata-0.3.0-x86_64-unknown-linux-gnu.tar.gz", "https://example.test/again"),
            ],
        ),
        "0.2.0",
        "x86_64",
    );
    assert_eq!(
        outcome,
        UpdateCheck::Available {
            version: "0.3.0".to_owned(),
            url: "https://example.test/release".to_owned(),
            download_url: Some("https://example.test/x86".to_owned()),
        }
    );
}

#[test]
fn newer_release_without_matching_archive_has_no_download() {
    let outcome = evaluate_release(
        release("vv0.3.0", vec![asset("checksums.txt", "https://example.test/sums")]),
        "0.2.0",
        "x86_64",
    );
    assert_eq!(
        outcome,
        UpdateCheck::Available {
            version: "0.3.0".to_owned(),
            url: "https://example.test/release".to_owned(),
            download_url: None,
        }
    );
}

#[test]
fn same_or_older_release_is_up_to_date() {
    assert_eq!(
        evaluate_release(release("v0.2.0", Vec::new()), "0.2.0", "x86_64"),
        UpdateCheck::UpToDate
    );
    assert_eq!(
        evaluate_release(release("0.1.9", Vec::new()), "0.2.0", "x86_64"),
        UpdateCheck::UpToDate
    );
    assert_eq!(
        evaluate_release(release("garbage", Vec::new()), "0.2.0", "x86_64"),
        UpdateCheck::UpToDate
    );
}
