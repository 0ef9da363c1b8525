use ns_emu_tools::upstream_sha::{
    extract_labeled_upstream_sha, extract_short_sha_from_text, normalize_short_sha,
};

#[test]
fn short_sha_is_trimmed_cut_and_lowercased() {
    assert_eq!(normalize_short_sha("FAB192F77"), Some("fab192f".to_string()));
    assert_eq!(normalize_short_sha("  (0237a9b88)."), Some("0237a9b".to_string()));
    assert_eq!(normalize_short_sha("abcdef0"), Some("abcdef0".to_string()));
}

#[test]
fn short_sha_needs_seven_hex_digits() {
    assert_eq!(normalize_short_sha("abc123"), None);
    assert_eq!(normalize_short_sha(""), None);
    assert_eq!(normalize_short_sha("zzzz"), None);
    assert_eq!(normalize_short_sha("abc-1234567"), None);
}

#[test]
fn short_sha_is_its_own_normal_form() {
    for v in ["fab192f", "0237a9b", "abcdef0"] {
        assert_eq!(normalize_short_sha(v), Some(v.to_string()));
    }
}

#[test]
fn first_long_hex_run_is_taken() {
    assert_eq!(
        extract_short_sha_from_text("citron_nightly-0237a9b88-linux-x86_64.AppImage"),
        Some("0237a9b".to_string())
    );
    assert_eq!(
        extract_short_sha_from_text("Citron-windows-nightly-fab192f77-x64-msvc.zip"),
        Some("fab192f".to_string())
    );
    assert_eq!(extract_short_sha_from_text("abc 1234567"), Some("1234567".to_string()));
    assert_eq!(extract_short_sha_from_text("ABCDEF01"), Some("abcdef0".to_string()));
}

#[test]
fn no_long_hex_run_gives_none() {
    assert_eq!(extract_short_sha_from_text(""), None);
    assert_eq!(extract_short_sha_from_text("nightly-windows"), None);
    assert_eq!(extract_short_sha_from_text("abc123 def456"), None);
    assert_eq!(extract_short_sha_from_text("2026-04-27"), None);
}

#[test]
fn labeled_commit_is_found_in_any_case() {
    assert_eq!(
        extract_labeled_upstream_sha("Citron Upstream Commit: fab192f77"),
        Some("fab192f".to_string())
    );
    assert_eq!(
        extract_labeled_upstream_sha("Build abcdef0123\nCITRON UPSTREAM COMMIT: 1234567aa"),
        Some("1234567".to_string())
    );
    assert_eq!(
        extract_labeled_upstream_sha("Windows Nightly: fab192f77"),
        None
    );
    assert_eq!(
        extract_labeled_upstream_sha("Citron Upstream Commit: none"),
        None
    );
}
