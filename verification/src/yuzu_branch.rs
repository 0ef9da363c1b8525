//! Yuzu-family branch identifiers and compatibility helpers.
//!
//! A branch name given by a user or read from an old configuration is first
//! brought to its canonical form by [`normalize_yuzu_branch`]; every other
//! helper here depends on the name only through that canonical form.

use vstd::prelude::*;
use crate::text::same_text;

verus! {

pub const EDEN_BRANCH: &'static str = "eden";
pub const CITRON_STABLE_BRANCH: &'static str = "citron-stable";
pub const CITRON_NIGHTLY_BRANCH: &'static str = "citron-nightly";
pub const LEGACY_CITRON_BRANCH: &'static str = "citron";
pub const YUZU_MAINLINE_BRANCH: &'static str = "mainline";
pub const YUZU_EA_BRANCH: &'static str = "ea";
pub const LEGACY_YUZU_BRANCH: &'static str = "yuzu";

pub const DOWNLOAD_AVAILABLE_BRANCHES: [&'static str; 3] =
    [EDEN_BRANCH, CITRON_STABLE_BRANCH, CITRON_NIGHTLY_BRANCH];

} // verus!

verus! {

/// The characters of an optional branch name.
pub open spec fn opt_view(o: Option<&str>) -> Option<Seq<char>> {
    match o {
        Some(s) => Some(s@),
        None => None,
    }
}

/// The canonical name of a branch: the legacy `citron` stands for
/// `citron-stable`, every other known name stands for itself, and an unknown
/// name has none.
pub open spec fn canonical_branch(b: Seq<char>) -> Option<Seq<char>> {
    if b == EDEN_BRANCH@ {
        Some(EDEN_BRANCH@)
    } else if b == LEGACY_CITRON_BRANCH@ || b == CITRON_STABLE_BRANCH@ {
        Some(CITRON_STABLE_BRANCH@)
    } else if b == CITRON_NIGHTLY_BRANCH@ {
        Some(CITRON_NIGHTLY_BRANCH@)
    } else if b == YUZU_MAINLINE_BRANCH@ {
        Some(YUZU_MAINLINE_BRANCH@)
    } else if b == YUZU_EA_BRANCH@ {
        Some(YUZU_EA_BRANCH@)
    } else if b == LEGACY_YUZU_BRANCH@ {
        Some(LEGACY_YUZU_BRANCH@)
    } else {
        None
    }
}

/// A canonical name that can still be downloaded: Eden and the two Citron channels.
pub open spec fn is_download_channel(c: Seq<char>) -> bool {
    c == EDEN_BRANCH@ || c == CITRON_STABLE_BRANCH@ || c == CITRON_NIGHTLY_BRANCH@
}

/// The canonical name of a branch that can be downloaded, if it is one.
pub open spec fn downloadable_branch(b: Seq<char>) -> Option<Seq<char>> {
    match canonical_branch(b) {
        Some(c) => if is_download_channel(c) { Some(c) } else { None },
        None => None,
    }
}

/// The name of the user-data directory that a branch shares: both Citron
/// channels use the legacy `citron` directory, all Yuzu branches use `yuzu`.
pub open spec fn user_dir_branch(b: Seq<char>) -> Option<Seq<char>> {
    match canonical_branch(b) {
        Some(c) => if c == EDEN_BRANCH@ {
            Some(EDEN_BRANCH@)
        } else if c == CITRON_STABLE_BRANCH@ || c == CITRON_NIGHTLY_BRANCH@ {
            Some(LEGACY_CITRON_BRANCH@)
        } else {
            Some(LEGACY_YUZU_BRANCH@)
        },
        None => None,
    }
}

/// Whether a branch is one of the Citron channels, after normalization.
pub open spec fn citron_branch(b: Seq<char>) -> bool {
    canonical_branch(b) == Some(CITRON_STABLE_BRANCH@)
        || canonical_branch(b) == Some(CITRON_NIGHTLY_BRANCH@)
}

/// The seven branch names are pairwise distinct.
pub proof fn lemma_branch_names_distinct()
    ensures
        EDEN_BRANCH@ != CITRON_STABLE_BRANCH@,
        EDEN_BRANCH@ != CITRON_NIGHTLY_BRANCH@,
        EDEN_BRANCH@ != LEGACY_CITRON_BRANCH@,
        EDEN_BRANCH@ != YUZU_MAINLINE_BRANCH@,
        EDEN_BRANCH@ != YUZU_EA_BRANCH@,
        EDEN_BRANCH@ != LEGACY_YUZU_BRANCH@,
        CITRON_STABLE_BRANCH@ != CITRON_NIGHTLY_BRANCH@,
        CITRON_STABLE_BRANCH@ != LEGACY_CITRON_BRANCH@,
        CITRON_STABLE_BRANCH@ != YUZU_MAINLINE_BRANCH@,
        CITRON_STABLE_BRANCH@ != YUZU_EA_BRANCH@,
        CITRON_STABLE_BRANCH@ != LEGACY_YUZU_BRANCH@,
        CITRON_NIGHTLY_BRANCH@ != LEGACY_CITRON_BRANCH@,
        CITRON_NIGHTLY_BRANCH@ != YUZU_MAINLINE_BRANCH@,
        CITRON_NIGHTLY_BRANCH@ != YUZU_EA_BRANCH@,
        CITRON_NIGHTLY_BRANCH@ != LEGACY_YUZU_BRANCH@,
        LEGACY_CITRON_BRANCH@ != YUZU_MAINLINE_BRANCH@,
        LEGACY_CITRON_BRANCH@ != YUZU_EA_BRANCH@,
        LEGACY_CITRON_BRANCH@ != LEGACY_YUZU_BRANCH@,
        YUZU_MAINLINE_BRANCH@ != YUZU_EA_BRANCH@,
        YUZU_MAINLINE_BRANCH@ != LEGACY_YUZU_BRANCH@,
        YUZU_EA_BRANCH@ != LEGACY_YUZU_BRANCH@,
{
    reveal_strlit("eden");
    reveal_strlit("citron-stable");
    reveal_strlit("citron-nightly");
    reveal_strlit("citron");
    reveal_strlit("mainline");
    reveal_strlit("ea");
    reveal_strlit("yuzu");
    assert(EDEN_BRANCH@.len() == 4);
    assert(CITRON_STABLE_BRANCH@.len() == 13);
    assert(CITRON_NIGHTLY_BRANCH@.len() == 14);
    assert(LEGACY_CITRON_BRANCH@.len() == 6);
    assert(YUZU_MAINLINE_BRANCH@.len() == 8);
    assert(YUZU_EA_BRANCH@.len() == 2);
    assert(LEGACY_YUZU_BRANCH@.len() == 4);
    assert(EDEN_BRANCH@[0] == 'e');
    assert(LEGACY_YUZU_BRANCH@[0] == 'y');
}

/// Brings a branch name to its canonical form, or `None` for an unknown name.
pub fn normalize_yuzu_branch(branch: &str) -> (res: Option<&'static str>)
    ensures
        opt_view(res) == canonical_branch(branch@),
{
    if same_text(branch, EDEN_BRANCH) {
        Some(EDEN_BRANCH)
    } else if same_text(branch, LEGACY_CITRON_BRANCH) || same_text(branch, CITRON_STABLE_BRANCH) {
        Some(CITRON_STABLE_BRANCH)
    } else if same_text(branch, CITRON_NIGHTLY_BRANCH) {
        Some(CITRON_NIGHTLY_BRANCH)
    } else if same_text(branch, YUZU_MAINLINE_BRANCH) {
        Some(YUZU_MAINLINE_BRANCH)
    } else if same_text(branch, YUZU_EA_BRANCH) {
        Some(YUZU_EA_BRANCH)
    } else if same_text(branch, LEGACY_YUZU_BRANCH) {
        Some(LEGACY_YUZU_BRANCH)
    } else {
        None
    }
}

/// The canonical name of a branch that can still be downloaded, or `None`.
pub fn normalize_downloadable_yuzu_branch(branch: &str) -> (res: Option<&'static str>)
    ensures
        opt_view(res) == downloadable_branch(branch@),
{
    let canonical = normalize_yuzu_branch(branch)?;
    if same_text(canonical, EDEN_BRANCH) {
        Some(EDEN_BRANCH)
    } else if same_text(canonical, CITRON_STABLE_BRANCH) {
        Some(CITRON_STABLE_BRANCH)
    } else if same_text(canonical, CITRON_NIGHTLY_BRANCH) {
        Some(CITRON_NIGHTLY_BRANCH)
    } else {
        None
    }
}

/// The branch name under which a branch keeps its user data.
pub fn yuzu_user_dir_branch(branch: &str) -> (res: Option<&'static str>)
    ensures
        opt_view(res) == user_dir_branch(branch@),
{
    proof {
        lemma_branch_names_distinct();
    }
    let canonical = normalize_yuzu_branch(branch)?;
    if same_text(canonical, EDEN_BRANCH) {
        Some(EDEN_BRANCH)
    } else if same_text(canonical, CITRON_STABLE_BRANCH) || same_text(canonical, CITRON_NIGHTLY_BRANCH) {
        Some(LEGACY_CITRON_BRANCH)
    } else if same_text(canonical, YUZU_MAINLINE_BRANCH) || same_text(canonical, YUZU_EA_BRANCH)
        || same_text(canonical, LEGACY_YUZU_BRANCH) {
        Some(LEGACY_YUZU_BRANCH)
    } else {
        None
    }
}

/// Whether a branch is Citron Stable or Citron Nightly (the legacy `citron` included).
pub fn is_citron_branch(branch: &str) -> (res: bool)
    ensures
        res == citron_branch(branch@),
{
    match normalize_yuzu_branch(branch) {
        Some(canonical) => same_text(canonical, CITRON_STABLE_BRANCH) || same_text(
            canonical,
            CITRON_NIGHTLY_BRANCH,
        ),
        None => false,
    }
}

/// Whether a branch can still be downloaded.
pub fn is_downloadable_yuzu_branch(branch: &str) -> (res: bool)
    ensures
        res == downloadable_branch(branch@).is_some(),
{
    normalize_downloadable_yuzu_branch(branch).is_some()
}

} // verus!

verus! {

/// Normalizing is idempotent: a canonical name is its own canonical name.
pub proof fn law_normalize_idempotent(b: Seq<char>)
    ensures
        canonical_branch(b) matches Some(c) ==> canonical_branch(c) == Some(c),
{
    lemma_branch_names_distinct();
}

/// Every helper treats a name and its canonical form alike, so an old
/// configuration that says `citron` behaves exactly as `citron-stable`.
pub proof fn law_helpers_follow_canonical_name(b: Seq<char>)
    ensures
        canonical_branch(b) matches Some(c) ==> {
            &&& downloadable_branch(c) == downloadable_branch(b)
            &&& user_dir_branch(c) == user_dir_branch(b)
            &&& citron_branch(c) == citron_branch(b)
        },
        canonical_branch(b) is None ==> {
            &&& downloadable_branch(b) is None
            &&& user_dir_branch(b) is None
            &&& !citron_branch(b)
        },
{
    lemma_branch_names_distinct();
}

/// Both Citron channels keep their user data in the legacy `citron` directory,
/// and both can be downloaded.
pub proof fn law_citron_channels_share_user_dir(b: Seq<char>)
    requires
        citron_branch(b),
    ensures
        user_dir_branch(b) == Some(LEGACY_CITRON_BRANCH@),
        downloadable_branch(b) == canonical_branch(b),
{
    lemma_branch_names_distinct();
}

/// A branch is downloadable exactly when its canonical name is listed in
/// `DOWNLOAD_AVAILABLE_BRANCHES`.
pub proof fn law_downloadable_means_listed(b: Seq<char>)
    ensures
        downloadable_branch(b) is Some <==> (canonical_branch(b) matches Some(c) && exists|i: int|
            0 <= i < 3 && #[trigger] DOWNLOAD_AVAILABLE_BRANCHES@[i]@ == c),
        downloadable_branch(b) matches Some(c) ==> canonical_branch(b) == Some(c),
{
    lemma_branch_names_distinct();
    assert(DOWNLOAD_AVAILABLE_BRANCHES@[0] == EDEN_BRANCH);
    assert(DOWNLOAD_AVAILABLE_BRANCHES@[1] == CITRON_STABLE_BRANCH);
    assert(DOWNLOAD_AVAILABLE_BRANCHES@[2] == CITRON_NIGHTLY_BRANCH);
}

} // verus!

verus! {

/// What each helper answers for each branch name, named directly: `eden`
/// stands for itself and keeps its own user data; `citron` and
/// `citron-stable` both mean Citron Stable; `citron-nightly` means Citron
/// Nightly; both Citron channels are downloadable and keep their user data
/// under `citron`; `mainline`, `ea` and `yuzu` stand for themselves, cannot be
/// downloaded and keep their user data under `yuzu`; any other name is unknown
/// to every helper.
pub proof fn law_branch_table(b: Seq<char>)
    ensures
        b == EDEN_BRANCH@ ==> {
            &&& canonical_branch(b) == Some(EDEN_BRANCH@)
            &&& downloadable_branch(b) == Some(EDEN_BRANCH@)
            &&& user_dir_branch(b) == Some(EDEN_BRANCH@)
            &&& !citron_branch(b)
        },
        (b == LEGACY_CITRON_BRANCH@ || b == CITRON_STABLE_BRANCH@) ==> {
            &&& canonical_branch(b) == Some(CITRON_STABLE_BRANCH@)
            &&& downloadable_branch(b) == Some(CITRON_STABLE_BRANCH@)
            &&& user_dir_branch(b) == Some(LEGACY_CITRON_BRANCH@)
            &&& citron_branch(b)
        },
        b == CITRON_NIGHTLY_BRANCH@ ==> {
            &&& canonical_branch(b) == Some(CITRON_NIGHTLY_BRANCH@)
            &&& downloadable_branch(b) == Some(CITRON_NIGHTLY_BRANCH@)
            &&& user_dir_branch(b) == Some(LEGACY_CITRON_BRANCH@)
            &&& citron_branch(b)
        },
        (b == YUZU_MAINLINE_BRANCH@ || b == YUZU_EA_BRANCH@ || b == LEGACY_YUZU_BRANCH@) ==> {
            &&& canonical_branch(b) == Some(b)
            &&& downloadable_branch(b) is None
            &&& user_dir_branch(b) == Some(LEGACY_YUZU_BRANCH@)
            &&& !citron_branch(b)
        },
        !(b == EDEN_BRANCH@ || b == LEGACY_CITRON_BRANCH@ || b == CITRON_STABLE_BRANCH@ || b
            == CITRON_NIGHTLY_BRANCH@ || b == YUZU_MAINLINE_BRANCH@ || b == YUZU_EA_BRANCH@ || b
            == LEGACY_YUZU_BRANCH@) ==> {
            &&& canonical_branch(b) is None
            &&& downloadable_branch(b) is None
            &&& user_dir_branch(b) is None
            &&& !citron_branch(b)
        },
{
    lemma_branch_names_distinct();
}

} // verus!
