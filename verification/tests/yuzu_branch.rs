use ns_emu_tools::yuzu_branch::{
    normalize_downloadable_yuzu_branch, normalize_yuzu_branch, yuzu_user_dir_branch,
    CITRON_NIGHTLY_BRANCH, CITRON_STABLE_BRANCH, LEGACY_CITRON_BRANCH,
};

#[test]
fn legacy_citron_normalizes_to_stable() {
    assert_eq!(
        normalize_yuzu_branch(LEGACY_CITRON_BRANCH),
        Some(CITRON_STABLE_BRANCH)
    );
    assert_eq!(
        normalize_downloadable_yuzu_branch(LEGACY_CITRON_BRANCH),
        Some(CITRON_STABLE_BRANCH)
    );
}

#[test]
fn citron_channels_share_physical_user_dir() {
    assert_eq!(
        yuzu_user_dir_branch(CITRON_STABLE_BRANCH),
        Some(LEGACY_CITRON_BRANCH)
    );
    assert_eq!(
        yuzu_user_dir_branch(CITRON_NIGHTLY_BRANCH),
        Some(LEGACY_CITRON_BRANCH)
    );
}

use ns_emu_tools::yuzu_branch::{
    is_citron_branch, is_downloadable_yuzu_branch, DOWNLOAD_AVAILABLE_BRANCHES, EDEN_BRANCH,
    LEGACY_YUZU_BRANCH, YUZU_EA_BRANCH, YUZU_MAINLINE_BRANCH,
};

#[test]
fn every_known_branch_normalizes() {
    assert_eq!(normalize_yuzu_branch("eden"), Some(EDEN_BRANCH));
    assert_eq!(normalize_yuzu_branch("citron"), Some(CITRON_STABLE_BRANCH));
    assert_eq!(normalize_yuzu_branch("citron-stable"), Some(CITRON_STABLE_BRANCH));
    assert_eq!(normalize_yuzu_branch("citron-nightly"), Some(CITRON_NIGHTLY_BRANCH));
    assert_eq!(normalize_yuzu_branch("mainline"), Some(YUZU_MAINLINE_BRANCH));
    assert_eq!(normalize_yuzu_branch("ea"), Some(YUZU_EA_BRANCH));
    assert_eq!(normalize_yuzu_branch("yuzu"), Some(LEGACY_YUZU_BRANCH));
}

#[test]
fn unknown_branches_do_not_normalize() {
    assert_eq!(normalize_yuzu_branch(""), None);
    assert_eq!(normalize_yuzu_branch("Eden"), None);
    assert_eq!(normalize_yuzu_branch("citron "), None);
    assert_eq!(normalize_yuzu_branch("ryujinx"), None);
    assert_eq!(yuzu_user_dir_branch("ryujinx"), None);
    assert!(!is_citron_branch("ryujinx"));
    assert!(!is_downloadable_yuzu_branch("ryujinx"));
}

#[test]
fn normalizing_twice_changes_nothing() {
    for b in ["eden", "citron", "citron-stable", "citron-nightly", "mainline", "ea", "yuzu"] {
        let once = normalize_yuzu_branch(b).unwrap();
        assert_eq!(normalize_yuzu_branch(once), Some(once));
    }
}

#[test]
fn legacy_citron_behaves_as_stable() {
    assert_eq!(
        yuzu_user_dir_branch(LEGACY_CITRON_BRANCH),
        yuzu_user_dir_branch(CITRON_STABLE_BRANCH)
    );
    assert_eq!(
        is_citron_branch(LEGACY_CITRON_BRANCH),
        is_citron_branch(CITRON_STABLE_BRANCH)
    );
    assert_eq!(
        is_downloadable_yuzu_branch(LEGACY_CITRON_BRANCH),
        is_downloadable_yuzu_branch(CITRON_STABLE_BRANCH)
    );
}

#[test]
fn only_eden_and_citron_are_downloadable() {
    assert_eq!(normalize_downloadable_yuzu_branch("eden"), Some(EDEN_BRANCH));
    assert_eq!(
        normalize_downloadable_yuzu_branch("citron-nightly"),
        Some(CITRON_NIGHTLY_BRANCH)
    );
    assert_eq!(normalize_downloadable_yuzu_branch("mainline"), None);
    assert_eq!(normalize_downloadable_yuzu_branch("ea"), None);
    assert_eq!(normalize_downloadable_yuzu_branch("yuzu"), None);
    for b in ["eden", "citron", "citron-stable", "citron-nightly", "mainline", "ea", "yuzu", "x"] {
        let listed = match normalize_yuzu_branch(b) {
            Some(c) => DOWNLOAD_AVAILABLE_BRANCHES.contains(&c),
            None => false,
        };
        assert_eq!(is_downloadable_yuzu_branch(b), listed);
    }
}

#[test]
fn user_dirs_of_each_family() {
    assert_eq!(yuzu_user_dir_branch("eden"), Some(EDEN_BRANCH));
    assert_eq!(yuzu_user_dir_branch("citron"), Some(LEGACY_CITRON_BRANCH));
    assert_eq!(yuzu_user_dir_branch("mainline"), Some(LEGACY_YUZU_BRANCH));
    assert_eq!(yuzu_user_dir_branch("ea"), Some(LEGACY_YUZU_BRANCH));
    assert_eq!(yuzu_user_dir_branch("yuzu"), Some(LEGACY_YUZU_BRANCH));
}

#[test]
fn citron_branches_are_recognized() {
    assert!(is_citron_branch("citron"));
    assert!(is_citron_branch("citron-stable"));
    assert!(is_citron_branch("citron-nightly"));
    assert!(!is_citron_branch("eden"));
    assert!(!is_citron_branch("yuzu"));
}
