use wux::commands::update::{
    check_update, download_url, is_newer, latest_release_url, latest_version, release_version,
    version_parts, UpdateCheck, UpdateError,
};

#[test]
fn newer_versions_compare_numerically() {
    assert!(is_newer("1.2.10", "1.2.9"));
    assert!(is_newer("2.0.0", "1.9.9"));
    assert!(!is_newer("1.2.9", "1.2.10"));
    assert!(!is_newer("1.2.3", "1.2.3"));
}

#[test]
fn newer_ignores_positions_beyond_the_shorter() {
    assert!(!is_newer("1.2.1", "1.2"));
    assert!(!is_newer("1.2", "1.2.1"));
}

#[test]
fn version_parts_skip_non_numbers() {
    assert_eq!(version_parts("1.x.3"), vec![1, 3]);
    assert_eq!(version_parts("+4.05"), vec![4, 5]);
    assert_eq!(version_parts("4294967296.1"), vec![1]);
    assert_eq!(version_parts(""), Vec::<u32>::new());
    assert!(is_newer("1.x.4", "1.3"));
}

#[test]
fn newer_is_a_strict_order_on_examples() {
    let vs = ["0.1.0", "0.2.0", "1.0.0", "1.0.1", "1.1", "2"];
    for a in vs.iter() {
        assert!(!is_newer(a, a));
        for b in vs.iter() {
            if is_newer(a, b) {
                assert!(!is_newer(b, a));
                for c in vs.iter() {
                    if is_newer(b, c) {
                        assert!(is_newer(a, c));
                    }
                }
            }
        }
    }
}

#[test]
fn update_check_outcomes() {
    assert_eq!(check_update("0.1.0", "0.1.0"), UpdateCheck::UpToDate);
    assert_eq!(check_update("0.2.0", "0.1.0"), UpdateCheck::NewerAvailable);
    assert_eq!(check_update("0.0.9", "0.1.0"), UpdateCheck::UpToDate);
    assert_eq!(check_update("0.1", "0.1.0"), UpdateCheck::UpToDate);
}

#[test]
fn release_version_strips_leading_v() {
    assert_eq!(release_version(Some("v1.2.3".to_string()), "0.1.0"), "1.2.3");
    assert_eq!(release_version(Some("vv2".to_string()), "0.1.0"), "2");
    assert_eq!(release_version(None, "v0.1.0"), "0.1.0");
    assert_eq!(release_version(Some("1v".to_string()), "0.1.0"), "1v");
}

#[test]
fn latest_version_reads_tag_name() {
    let body = br#"{"tag_name": "v0.3.1", "name": "x"}"#;
    assert_eq!(latest_version(body, "0.1.0"), Ok("0.3.1".to_string()));
}

#[test]
fn latest_version_without_tag_uses_current() {
    assert_eq!(latest_version(br#"{"message": "Not Found"}"#, "0.1.0"), Ok("0.1.0".to_string()));
    assert_eq!(latest_version(br#"{"tag_name": 5}"#, "v0.1.0"), Ok("0.1.0".to_string()));
    assert_eq!(latest_version(br#"[1, 2]"#, "0.1.0"), Ok("0.1.0".to_string()));
}

#[test]
fn latest_version_rejects_non_json() {
    let r = latest_version(b"<html>rate limited</html>", "0.1.0");
    assert_eq!(r, Err(UpdateError::ReleaseInfo));
    assert_eq!(r.unwrap_err().message(), "Failed to parse release info");
    assert_eq!(latest_version(b"", "0.1.0"), Err(UpdateError::ReleaseInfo));
}

#[test]
fn release_urls() {
    assert_eq!(latest_release_url(), "https://api.github.com/repos/dramxx/wux/releases/latest");
    assert_eq!(
        download_url("1.2.3"),
        "https://github.com/dramxx/wux/releases/download/v1.2.3/wux.exe"
    );
}
