use ns_emu_tools::error::AppError;
use ns_emu_tools::release::{ReleaseAsset, ReleaseInfo};
use ns_emu_tools::yuzu::{
    citron_nightly_release_by_version, citron_nightly_upstream_sha, citron_release_list,
    latest_change_log, merge_release_assets, normalize_citron_nightly_releases,
    release_tag_url, release_versions, unparsable_release_error, unsupported_yuzu_branch_error,
    yuzu_release_api_for_branch, yuzu_release_source, ReleaseSource,
    CITRON_NIGHTLY_RELEASES_API, CITRON_STABLE_RELEASES_API, EDEN_RELEASES_API,
};
use ns_emu_tools::yuzu_branch::{CITRON_NIGHTLY_BRANCH, CITRON_STABLE_BRANCH, LEGACY_CITRON_BRANCH};

fn asset(name: &str, url: &str) -> ReleaseAsset {
    ReleaseAsset {
        name: name.to_string(),
        download_url: url.to_string(),
        size: 0,
        content_type: None,
    }
}

fn release(name: &str, tag: &str, description: &str, assets: Vec<ReleaseAsset>) -> ReleaseInfo {
    ReleaseInfo {
        name: name.to_string(),
        tag_name: tag.to_string(),
        description: description.to_string(),
        assets,
        published_at: None,
        prerelease: true,
        html_url: None,
    }
}

#[test]
fn test_citron_nightly_release_versions_use_upstream_sha() {
    let releases = vec![
        ReleaseInfo {
            name: "Windows Nightly: fab192f77".to_string(),
            tag_name: "nightly-windows".to_string(),
            description: "Citron Upstream Commit: fab192f77".to_string(),
            assets: vec![ReleaseAsset {
                name: "Citron-windows-nightly-fab192f77-x64-msvc.zip".to_string(),
                download_url: "https://example.com/windows.zip".to_string(),
                size: 0,
                content_type: None,
            }],
            published_at: None,
            prerelease: true,
            html_url: None,
        },
        ReleaseInfo {
            name: "macOS Nightly: FAB192F77".to_string(),
            tag_name: "nightly-macos".to_string(),
            description: "Citron Upstream Commit: FAB192F77".to_string(),
            assets: vec![ReleaseAsset {
                name: "Citron-macOS-nightly-fab192f77.dmg".to_string(),
                download_url: "https://example.com/macos.dmg".to_string(),
                size: 0,
                content_type: None,
            }],
            published_at: None,
            prerelease: true,
            html_url: None,
        },
    ];

    let normalized = normalize_citron_nightly_releases(releases);

    assert_eq!(normalized.len(), 1);
    assert_eq!(normalized[0].tag_name, "fab192f");
    assert_eq!(normalized[0].assets.len(), 2);
    assert!(normalized[0]
        .assets
        .iter()
        .any(|asset| asset.name.contains("windows")));
    assert!(normalized[0]
        .assets
        .iter()
        .any(|asset| asset.name.contains("macOS")));
}

#[test]
fn test_citron_nightly_sha_falls_back_to_asset_name() {
    let release = ReleaseInfo {
        name: "Linux Nightly".to_string(),
        tag_name: "nightly-linux".to_string(),
        description: String::new(),
        assets: vec![ReleaseAsset {
            name: "citron_nightly-0237a9b88-linux-x86_64.AppImage".to_string(),
            download_url: "https://example.com/linux.AppImage".to_string(),
            size: 0,
            content_type: None,
        }],
        published_at: None,
        prerelease: true,
        html_url: None,
    };

    assert_eq!(
        citron_nightly_upstream_sha(&release),
        Some("0237a9b".to_string())
    );
}

#[test]
fn test_unknown_yuzu_branch_is_rejected() {
    let error = unsupported_yuzu_branch_error("unknown");
    assert!(matches!(error, AppError::InvalidArgument(_)));
    assert!(error.to_string().contains("eden"));
    assert!(error.to_string().contains("citron-stable"));
    assert!(error.to_string().contains("citron-nightly"));
}

#[test]
fn test_citron_release_api_by_branch() {
    assert_eq!(
        yuzu_release_api_for_branch(CITRON_STABLE_BRANCH),
        Some(CITRON_STABLE_RELEASES_API)
    );
    assert_eq!(
        yuzu_release_api_for_branch(LEGACY_CITRON_BRANCH),
        Some(CITRON_STABLE_RELEASES_API)
    );
    assert_eq!(
        yuzu_release_api_for_branch(CITRON_NIGHTLY_BRANCH),
        Some(CITRON_NIGHTLY_RELEASES_API)
    );
}

#[test]
fn unsupported_branch_message_is_exact() {
    let error = unsupported_yuzu_branch_error("mainline");
    assert_eq!(
        error.to_string(),
        "Unsupported Yuzu branch: mainline; supported branches: eden, citron-stable, citron-nightly"
    );
}

#[test]
fn release_api_of_each_branch() {
    assert_eq!(yuzu_release_api_for_branch("eden"), Some(EDEN_RELEASES_API));
    assert_eq!(yuzu_release_api_for_branch("mainline"), None);
    assert_eq!(yuzu_release_api_for_branch("ea"), None);
    assert_eq!(yuzu_release_api_for_branch("unknown"), None);
    assert!(CITRON_STABLE_RELEASES_API.contains("citron-neo/emulator"));
    assert!(CITRON_NIGHTLY_RELEASES_API.contains("citron-neo/CI"));
}

#[test]
fn release_source_of_each_branch() {
    assert_eq!(yuzu_release_source("eden").unwrap(), ReleaseSource::Eden);
    assert_eq!(yuzu_release_source("citron").unwrap(), ReleaseSource::CitronStable);
    assert_eq!(
        yuzu_release_source("citron-nightly").unwrap(),
        ReleaseSource::CitronNightly
    );
    let error = yuzu_release_source("yuzu").unwrap_err();
    assert_eq!(
        error.to_string(),
        "Unsupported Yuzu branch: yuzu; supported branches: eden, citron-stable, citron-nightly"
    );
    assert!(yuzu_release_source("nope").is_err());
}

#[test]
fn nightly_releases_without_commit_are_dropped() {
    let releases = vec![
        release("Windows Nightly", "nightly-windows", "", vec![asset("notes.txt", "u1")]),
        release("Linux Nightly: 0237a9b88", "nightly-linux", "", vec![]),
    ];
    let normalized = normalize_citron_nightly_releases(releases);
    assert_eq!(normalized.len(), 1);
    assert_eq!(normalized[0].tag_name, "0237a9b");
    assert_eq!(normalized[0].name, "Linux Nightly: 0237a9b88");
}

#[test]
fn nightly_groups_keep_first_appearance_order() {
    let releases = vec![
        release("a", "t1", "Citron Upstream Commit: 1111111", vec![asset("w1", "u1")]),
        release("b", "t2", "Citron Upstream Commit: 2222222", vec![asset("w2", "u2")]),
        release("c", "t3", "Citron Upstream Commit: 1111111aa", vec![asset("m1", "u3"), asset("w1", "u1")]),
    ];
    let normalized = normalize_citron_nightly_releases(releases);
    assert_eq!(normalized.len(), 2);
    assert_eq!(normalized[0].tag_name, "1111111");
    assert_eq!(normalized[0].name, "a");
    assert_eq!(normalized[0].assets.len(), 2);
    assert_eq!(normalized[0].assets[1].name, "m1");
    assert_eq!(normalized[1].tag_name, "2222222");
    let versions = release_versions(&normalized);
    assert_eq!(versions, vec!["1111111".to_string(), "2222222".to_string()]);
}

#[test]
fn nightly_versions_find_their_release_again() {
    let releases = vec![
        release("Windows Nightly: fab192f77", "nightly-windows", "", vec![asset("w", "u1")]),
        release("Linux Nightly", "nightly-linux", "", vec![asset("citron-0237A9B88.AppImage", "u2")]),
    ];
    let normalized = normalize_citron_nightly_releases(releases);
    let versions = release_versions(&normalized);
    for (i, v) in versions.iter().enumerate() {
        let found = citron_nightly_release_by_version(v, normalized.clone()).unwrap();
        assert_eq!(found.tag_name, normalized[i].tag_name);
        assert_eq!(found.name, normalized[i].name);
    }
}

#[test]
fn nightly_lookup_ignores_case_and_long_hashes() {
    let list = vec![
        release("x", "fab192f", "", vec![]),
        release("y", "0237a9b", "", vec![]),
    ];
    let found = citron_nightly_release_by_version("FAB192F77aa", list.clone()).unwrap();
    assert_eq!(found.name, "x");
    let found = citron_nightly_release_by_version("0237A9B", list.clone()).unwrap();
    assert_eq!(found.name, "y");
    let tagged = vec![release("z", "Latest", "", vec![])];
    let found = citron_nightly_release_by_version("latest", tagged).unwrap();
    assert_eq!(found.name, "z");
}

#[test]
fn nightly_lookup_of_unknown_version_fails() {
    let list = vec![release("x", "fab192f", "", vec![])];
    let error = citron_nightly_release_by_version("1234567", list).unwrap_err();
    assert!(matches!(error, AppError::InvalidArgument(_)));
    assert_eq!(error.to_string(), "Unable to parse Citron release 1234567");
}

#[test]
fn merge_skips_assets_already_present() {
    let mut existing = release("a", "t", "", vec![asset("w", "u1")]);
    merge_release_assets(
        &mut existing,
        vec![asset("w", "u1"), asset("w", "u2"), asset("m", "u3"), asset("m", "u3")],
    );
    let names: Vec<(String, String)> = existing
        .assets
        .iter()
        .map(|a| (a.name.clone(), a.download_url.clone()))
        .collect();
    assert_eq!(
        names,
        vec![
            ("w".to_string(), "u1".to_string()),
            ("w".to_string(), "u2".to_string()),
            ("m".to_string(), "u3".to_string()),
        ]
    );
    assert_eq!(existing.tag_name, "t");
    let before = existing.assets.len();
    merge_release_assets(&mut existing, vec![asset("w", "u2"), asset("m", "u3")]);
    assert_eq!(existing.assets.len(), before);
}

#[test]
fn stable_release_list_is_kept_as_published() {
    let releases = vec![
        release("2026-04-27", "2026-04-27", "notes", vec![asset("Citron-windows-nightly-0237a9b88-x64-msvc.zip", "u")]),
        release("2026-04-20", "2026-04-20", "older", vec![]),
    ];
    let list = citron_release_list("citron-stable", releases.clone());
    assert_eq!(release_versions(&list), vec!["2026-04-27".to_string(), "2026-04-20".to_string()]);
    let list = citron_release_list("citron", releases.clone());
    assert_eq!(list.len(), 2);
    let list = citron_release_list("citron-nightly", releases);
    assert_eq!(release_versions(&list), vec!["0237a9b".to_string()]);
}

#[test]
fn changelog_is_first_release_notes() {
    let releases = vec![
        release("n", "t1", "first notes", vec![]),
        release("m", "t2", "second notes", vec![]),
    ];
    assert_eq!(latest_change_log("eden", &releases), "first notes");
    assert_eq!(
        latest_change_log("eden", &vec![]),
        "Unable to fetch latest changelog information for eden"
    );
}

#[test]
fn tag_url_and_parse_error() {
    assert_eq!(
        release_tag_url(EDEN_RELEASES_API, "v0.1"),
        "https://git.eden-emu.dev/api/v1/repos/eden-emu/eden/releases/tags/v0.1"
    );
    let error = unparsable_release_error("Eden", "v0.1");
    assert_eq!(error.to_string(), "Unable to parse Eden release v0.1");
}

#[test]
fn invalid_response_error_names_the_api() {
    let error = ns_emu_tools::yuzu::invalid_api_response_error("GitHub");
    assert_eq!(error.to_string(), "Invalid GitHub API response");
}
