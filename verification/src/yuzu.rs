//! Release metadata logic for the Eden and Citron branches: which release API
//! a branch reads, how Citron Nightly builds are named and grouped, and how a
//! release is picked by version.

use vstd::prelude::*;
use vstd::string::*;
use crate::error::AppError;
use crate::release::{
    ReleaseAsset, ReleaseAssetView, ReleaseInfo, ReleaseInfoView, asset_key, assets_view,
    has_asset_key, releases_view,
};
use crate::text::{eq_ignore_ascii_case, lower_seq, same_text};
use crate::upstream_sha::{
    extract_labeled_upstream_sha, extract_short_sha_from_text, is_short_sha,
    labeled_upstream_sha, lemma_labeled_upstream_sha_is_short_sha, lemma_short_sha_fixpoint,
    lemma_short_sha_in_text_is_short_sha, normalize_short_sha, short_sha_in_text, short_sha_of,
};
use crate::yuzu_branch::{
    canonical_branch, citron_branch, downloadable_branch, lemma_branch_names_distinct,
    normalize_yuzu_branch, opt_view, CITRON_NIGHTLY_BRANCH, CITRON_STABLE_BRANCH, EDEN_BRANCH,
    LEGACY_CITRON_BRANCH,
};

verus! {

pub const EDEN_RELEASES_API: &'static str =
    "https://git.eden-emu.dev/api/v1/repos/eden-emu/eden/releases";
pub const CITRON_STABLE_RELEASES_API: &'static str =
    "https://api.github.com/repos/citron-neo/emulator/releases";
pub const CITRON_NIGHTLY_RELEASES_API: &'static str =
    "https://api.github.com/repos/citron-neo/CI/releases";

/// The message of the error for a branch whose releases cannot be listed.
pub open spec fn unsupported_branch_message(branch: Seq<char>) -> Seq<char> {
    "Unsupported Yuzu branch: "@ + branch + "; supported branches: eden, citron-stable, citron-nightly"@
}

/// The error for a branch whose releases cannot be listed.
pub fn unsupported_yuzu_branch_error(branch: &str) -> (res: AppError)
    ensures
        res.message() == unsupported_branch_message(branch@),
{
    let mut message = String::from_str("Unsupported Yuzu branch: ");
    message.append(branch);
    message.append("; supported branches: eden, citron-stable, citron-nightly");
    AppError::InvalidArgument(message)
}

/// Where the releases of a branch are published, if the library knows.
pub open spec fn release_api(branch: Seq<char>) -> Option<Seq<char>> {
    match canonical_branch(branch) {
        Some(c) => if c == EDEN_BRANCH@ {
            Some(EDEN_RELEASES_API@)
        } else if c == CITRON_STABLE_BRANCH@ {
            Some(CITRON_STABLE_RELEASES_API@)
        } else if c == CITRON_NIGHTLY_BRANCH@ {
            Some(CITRON_NIGHTLY_RELEASES_API@)
        } else {
            None
        },
        None => None,
    }
}

/// Where the releases of a Citron branch are published.
pub open spec fn citron_release_api(branch: Seq<char>) -> Option<Seq<char>> {
    if canonical_branch(branch) == Some(CITRON_STABLE_BRANCH@) {
        Some(CITRON_STABLE_RELEASES_API@)
    } else if canonical_branch(branch) == Some(CITRON_NIGHTLY_BRANCH@) {
        Some(CITRON_NIGHTLY_RELEASES_API@)
    } else {
        None
    }
}

/// The release API of a Citron branch, or `None` for any other branch.
pub fn citron_releases_api(branch: &str) -> (res: Option<&'static str>)
    ensures
        opt_view(res) == citron_release_api(branch@),
{
    let canonical = normalize_yuzu_branch(branch)?;
    if same_text(canonical, CITRON_STABLE_BRANCH) {
        Some(CITRON_STABLE_RELEASES_API)
    } else if same_text(canonical, CITRON_NIGHTLY_BRANCH) {
        Some(CITRON_NIGHTLY_RELEASES_API)
    } else {
        None
    }
}

/// The release API of a branch, or `None` for a branch that has none.
pub fn yuzu_release_api_for_branch(branch: &str) -> (res: Option<&'static str>)
    ensures
        opt_view(res) == release_api(branch@),
{
    let canonical = normalize_yuzu_branch(branch)?;
    if same_text(canonical, EDEN_BRANCH) {
        Some(EDEN_RELEASES_API)
    } else if same_text(canonical, CITRON_STABLE_BRANCH) {
        Some(CITRON_STABLE_RELEASES_API)
    } else if same_text(canonical, CITRON_NIGHTLY_BRANCH) {
        Some(CITRON_NIGHTLY_RELEASES_API)
    } else {
        None
    }
}

/// The release source that a branch reads.
#[derive(Debug, Clone, Copy, PartialEq, Eq, Structural)]
pub enum ReleaseSource {
    /// Eden's Forgejo release API.
    Eden,
    /// The GitHub releases of `citron-neo/emulator`.
    CitronStable,
    /// The GitHub releases of `citron-neo/CI`, grouped by upstream commit.
    CitronNightly,
}

/// The source of a branch, if it has one.
pub open spec fn source_of(branch: Seq<char>) -> Option<ReleaseSource> {
    if canonical_branch(branch) == Some(EDEN_BRANCH@) {
        Some(ReleaseSource::Eden)
    } else if canonical_branch(branch) == Some(CITRON_STABLE_BRANCH@) {
        Some(ReleaseSource::CitronStable)
    } else if canonical_branch(branch) == Some(CITRON_NIGHTLY_BRANCH@) {
        Some(ReleaseSource::CitronNightly)
    } else {
        None
    }
}

/// Which release source a branch reads; a branch that has none is refused
/// with the unsupported-branch error.
pub fn yuzu_release_source(branch: &str) -> (res: Result<ReleaseSource, AppError>)
    ensures
        match res {
            Ok(src) => source_of(branch@) == Some(src),
            Err(e) => source_of(branch@) is None && e.message() == unsupported_branch_message(
                branch@,
            ),
        },
{
    match normalize_yuzu_branch(branch) {
        Some(canonical) => {
            if same_text(canonical, EDEN_BRANCH) {
                Ok(ReleaseSource::Eden)
            } else if same_text(canonical, CITRON_STABLE_BRANCH) {
                Ok(ReleaseSource::CitronStable)
            } else if same_text(canonical, CITRON_NIGHTLY_BRANCH) {
                Ok(ReleaseSource::CitronNightly)
            } else {
                Err(unsupported_yuzu_branch_error(branch))
            }
        },
        None => Err(unsupported_yuzu_branch_error(branch)),
    }
}

/// The URL of the release with the given tag under a release API.
pub fn release_tag_url(api: &str, version: &str) -> (res: String)
    ensures
        res@ == api@ + "/tags/"@ + version@,
{
    let mut url = String::from_str(api);
    url.append("/tags/");
    url.append(version);
    url
}

/// The error for a list response of a release API (`Forgejo` or `GitHub`)
/// that is not a list of releases.
pub fn invalid_api_response_error(api_kind: &str) -> (res: AppError)
    ensures
        res.message() == "Invalid "@ + api_kind@ + " API response"@,
{
    let mut message = String::from_str("Invalid ");
    message.append(api_kind);
    message.append(" API response");
    AppError::InvalidArgument(message)
}

/// The message of the error for a release that could not be read.
pub open spec fn unparsable_release_message(emulator: Seq<char>, version: Seq<char>) -> Seq<char> {
    "Unable to parse "@ + emulator + " release "@ + version
}

/// The error for a release of `emulator` (`Eden` or `Citron`) that could not
/// be read or found.
pub fn unparsable_release_error(emulator: &str, version: &str) -> (res: AppError)
    ensures
        res.message() == unparsable_release_message(emulator@, version@),
{
    let mut message = String::from_str("Unable to parse ");
    message.append(emulator);
    message.append(" release ");
    message.append(version);
    AppError::InvalidArgument(message)
}

/// The assets of `existing` followed by each incoming asset whose key (name and
/// download URL) is not there yet; an incoming asset is compared with the
/// ones kept before it as well.
pub open spec fn merged_assets(
    existing: Seq<ReleaseAssetView>,
    incoming: Seq<ReleaseAssetView>,
) -> Seq<ReleaseAssetView>
    decreases incoming.len(),
{
    if incoming.len() == 0 {
        existing
    } else {
        let kept = merged_assets(existing, incoming.drop_last());
        let a = incoming.last();
        if has_asset_key(kept, asset_key(a)) {
            kept
        } else {
            kept.push(a)
        }
    }
}

/// Whether some asset of the list has the given name and download URL.
fn contains_asset_key(assets: &Vec<ReleaseAsset>, name: &String, download_url: &String) -> (res:
    bool)
    ensures
        res == has_asset_key(assets_view(assets@), (name@, download_url@)),
{
    let mut i: usize = 0;
    while i < assets.len()
        invariant
            i <= assets@.len(),
            forall|j: int|
                0 <= j < i ==> asset_key(#[trigger] assets_view(assets@)[j]) != (
                    name@,
                    download_url@,
                ),
        decreases assets.len() - i,
    {
        if assets[i].name == *name && assets[i].download_url == *download_url {
            assert(asset_key(assets_view(assets@)[i as int]) == (name@, download_url@));
            return true;
        }
        i = i + 1;
    }
    false
}

/// Adds to `existing` each asset whose name and download URL it does not hold yet.
pub fn merge_release_assets(existing: &mut ReleaseInfo, assets: Vec<ReleaseAsset>)
    ensures
        final(existing)@ == (ReleaseInfoView {
            assets: merged_assets(old(existing)@.assets, assets_view(assets@)),
            ..old(existing)@
        }),
{
    let ghost incoming = assets_view(assets@);
    let ghost start = existing@;
    let mut pending = assets;
    let mut taken: usize = 0;
    let total = pending.len();
    while pending.len() > 0
        invariant
            taken + pending@.len() == total,
            total == incoming.len(),
            assets_view(pending@) == incoming.skip(taken as int),
            existing@ == (ReleaseInfoView {
                assets: merged_assets(start.assets, incoming.take(taken as int)),
                ..start
            }),
        decreases pending@.len(),
    {
        let ghost before = existing@.assets;
        let ghost old_pending = pending@;
        let asset = pending.remove(0);
        proof {
            assert(assets_view(old_pending)[0] == old_pending[0]@);
            assert(incoming.skip(taken as int)[0] == incoming[taken as int]);
            assert(pending@ =~= old_pending.skip(1));
            assert(assets_view(pending@) =~= assets_view(old_pending).skip(1));
            assert(incoming.skip(taken as int).skip(1) =~= incoming.skip(taken + 1));
            assert(asset@ == incoming[taken as int]);
            assert(assets_view(pending@) =~= incoming.skip(taken + 1));
            assert(incoming.take(taken + 1).drop_last() =~= incoming.take(taken as int));
        }
        if !contains_asset_key(&existing.assets, &asset.name, &asset.download_url) {
            existing.assets.push(asset);
            assert(assets_view(existing.assets@) =~= before.push(asset@));
        }
        taken = taken + 1;
    }
    assert(incoming.take(total as int) =~= incoming);
}

} // verus!

verus! {

/// The short hash of the first asset whose name holds one.
pub open spec fn first_asset_sha(assets: Seq<ReleaseAssetView>) -> Option<Seq<char>>
    decreases assets.len(),
{
    if assets.len() == 0 {
        None
    } else {
        match short_sha_in_text(assets[0].name) {
            Some(sha) => Some(sha),
            None => first_asset_sha(assets.drop_first()),
        }
    }
}

/// The upstream commit that a Citron Nightly release was built from: taken
/// from the labeled line of its notes, else of its name, else from the first
/// hash in its name, else from the first asset name that holds one.
pub open spec fn nightly_upstream_sha(r: ReleaseInfoView) -> Option<Seq<char>> {
    match labeled_upstream_sha(r.description) {
        Some(sha) => Some(sha),
        None => match labeled_upstream_sha(r.name) {
            Some(sha) => Some(sha),
            None => match short_sha_in_text(r.name) {
                Some(sha) => Some(sha),
                None => first_asset_sha(r.assets),
            },
        },
    }
}

/// The short upstream commit hash that names a Citron Nightly release.
pub fn citron_nightly_upstream_sha(release: &ReleaseInfo) -> (res: Option<String>)
    ensures
        match res {
            Some(r) => nightly_upstream_sha(release@) == Some(r@),
            None => nightly_upstream_sha(release@) is None,
        },
{
    if let Some(sha) = extract_labeled_upstream_sha(release.description.as_str()) {
        return Some(sha);
    }
    if let Some(sha) = extract_labeled_upstream_sha(release.name.as_str()) {
        return Some(sha);
    }
    if let Some(sha) = extract_short_sha_from_text(release.name.as_str()) {
        return Some(sha);
    }
    let ghost all = release@.assets;
    proof {
        assert(all.skip(0) =~= all);
    }
    let mut i: usize = 0;
    while i < release.assets.len()
        invariant
            i <= release.assets@.len(),
            all == assets_view(release.assets@),
            all == release@.assets,
            nightly_upstream_sha(release@) == first_asset_sha(all.skip(i as int)),
        decreases release.assets.len() - i,
    {
        let found = extract_short_sha_from_text(release.assets[i].name.as_str());
        proof {
            lemma_first_asset_sha_step(all, i as int);
        }
        if found.is_some() {
            return found;
        }
        i = i + 1;
    }
    None
}

/// One step of the scan for the first asset name that holds a hash.
proof fn lemma_first_asset_sha_step(all: Seq<ReleaseAssetView>, i: int)
    requires
        0 <= i < all.len(),
    ensures
        first_asset_sha(all.skip(i)) == match short_sha_in_text(all[i].name) {
            Some(sha) => Some(sha),
            None => first_asset_sha(all.skip(i + 1)),
        },
{
    assert(all.skip(i)[0] == all[i]);
    assert(all.skip(i).drop_first() =~= all.skip(i + 1));
}

} // verus!

verus! {

/// Some release of the list carries the tag.
pub open spec fn has_tag(list: Seq<ReleaseInfoView>, tag: Seq<char>) -> bool {
    exists|i: int| 0 <= i < list.len() && #[trigger] list[i].tag_name == tag
}

/// The tags of the list are pairwise distinct.
pub open spec fn tags_distinct(list: Seq<ReleaseInfoView>) -> bool {
    forall|i: int, j: int|
        0 <= i < list.len() && 0 <= j < list.len() && i != j ==> #[trigger] list[i].tag_name
            != #[trigger] list[j].tag_name
}

/// Citron Nightly publishes one release per platform for each upstream
/// commit. The grouped list names each release by its upstream short hash,
/// drops the releases without one, and folds the releases of one hash into
/// the first of them, which then also holds the assets of the others (an asset
/// whose name and download URL it already has is not added twice). Order is
/// that of first appearance.
pub open spec fn nightly_grouped(rs: Seq<ReleaseInfoView>) -> Seq<ReleaseInfoView>
    decreases rs.len(),
{
    if rs.len() == 0 {
        Seq::empty()
    } else {
        let acc = nightly_grouped(rs.drop_last());
        let r = rs.last();
        match nightly_upstream_sha(r) {
            None => acc,
            Some(sha) => if has_tag(acc, sha) {
                let i = choose|i: int| 0 <= i < acc.len() && #[trigger] acc[i].tag_name == sha;
                acc.update(i, ReleaseInfoView { assets: merged_assets(acc[i].assets, r.assets), ..acc[i] })
            } else {
                acc.push(ReleaseInfoView { tag_name: sha, ..r })
            },
        }
    }
}

/// The position of the first release of the list that carries the tag.
fn find_tag(list: &Vec<ReleaseInfo>, tag: &String) -> (res: Option<usize>)
    ensures
        match res {
            Some(j) => j < list@.len() && list@[j as int].tag_name@ == tag@,
            None => !has_tag(releases_view(list@), tag@),
        },
{
    let mut i: usize = 0;
    while i < list.len()
        invariant
            i <= list@.len(),
            forall|j: int| 0 <= j < i ==> #[trigger] list@[j].tag_name@ != tag@,
        decreases list.len() - i,
    {
        if list[i].tag_name == *tag {
            return Some(i);
        }
        i = i + 1;
    }
    assert forall|j: int| 0 <= j < list@.len() implies #[trigger] releases_view(list@)[j].tag_name
        != tag@ by {
        assert(releases_view(list@)[j] == list@[j]@);
    }
    None
}

/// The tags of the grouped Citron Nightly list are pairwise distinct.
pub proof fn law_nightly_grouped_tags_distinct(rs: Seq<ReleaseInfoView>)
    ensures
        tags_distinct(nightly_grouped(rs)),
    decreases rs.len(),
{
    if rs.len() > 0 {
        law_nightly_grouped_tags_distinct(rs.drop_last());
    }
}

/// Names each Citron Nightly release by its upstream short hash and groups
/// the per-platform releases of one hash into one.
pub fn normalize_citron_nightly_releases(releases: Vec<ReleaseInfo>) -> (res: Vec<ReleaseInfo>)
    ensures
        releases_view(res@) == nightly_grouped(releases_view(releases@)),
{
    let ghost input = releases_view(releases@);
    let mut normalized_releases: Vec<ReleaseInfo> = Vec::new();
    let mut pending = releases;
    let total = pending.len();
    let mut taken: usize = 0;
    proof {
        assert(input.take(0) =~= Seq::<ReleaseInfoView>::empty());
        assert(releases_view(normalized_releases@) =~= Seq::<ReleaseInfoView>::empty());
    }
    while pending.len() > 0
        invariant
            taken + pending@.len() == total,
            total == input.len(),
            releases_view(pending@) == input.skip(taken as int),
            releases_view(normalized_releases@) == nightly_grouped(input.take(taken as int)),
        decreases pending@.len(),
    {
        let ghost old_pending = pending@;
        let ghost acc = releases_view(normalized_releases@);
        let mut release = pending.remove(0);
        proof {
            assert(releases_view(old_pending)[0] == old_pending[0]@);
            assert(input.skip(taken as int)[0] == input[taken as int]);
            assert(pending@ =~= old_pending.skip(1));
            assert(releases_view(pending@) =~= releases_view(old_pending).skip(1));
            assert(input.skip(taken as int).skip(1) =~= input.skip(taken + 1));
            assert(input.take(taken + 1).drop_last() =~= input.take(taken as int));
            assert(input.take(taken + 1).last() == input[taken as int]);
            law_nightly_grouped_tags_distinct(input.take(taken as int));
        }
        if let Some(upstream_sha) = citron_nightly_upstream_sha(&release) {
            release.tag_name = upstream_sha;
            match find_tag(&normalized_releases, &release.tag_name) {
                Some(j) => {
                    proof {
                        let k = choose|k: int|
                            0 <= k < acc.len() && #[trigger] acc[k].tag_name == release.tag_name@;
                        assert(acc[j as int].tag_name == release.tag_name@);
                        assert(k == j);
                    }
                    merge_release_assets(&mut normalized_releases[j], release.assets);
                    assert(releases_view(normalized_releases@) =~= nightly_grouped(
                        input.take(taken + 1),
                    ));
                },
                None => {
                    normalized_releases.push(release);
                    assert(releases_view(normalized_releases@) =~= nightly_grouped(
                        input.take(taken + 1),
                    ));
                },
            }
        }
        taken = taken + 1;
    }
    proof {
        assert(input.take(total as int) =~= input);
    }
    normalized_releases
}

} // verus!

verus! {

/// The Citron releases as the library lists them: Citron Nightly releases are
/// grouped by upstream commit, Citron Stable releases are kept as published.
pub fn citron_release_list(branch: &str, releases: Vec<ReleaseInfo>) -> (res: Vec<ReleaseInfo>)
    ensures
        releases_view(res@) == (if canonical_branch(branch@) == Some(CITRON_NIGHTLY_BRANCH@) {
            nightly_grouped(releases_view(releases@))
        } else {
            releases_view(releases@)
        }),
{
    let is_nightly = match normalize_yuzu_branch(branch) {
        Some(canonical) => same_text(canonical, CITRON_NIGHTLY_BRANCH),
        None => false,
    };
    if is_nightly {
        normalize_citron_nightly_releases(releases)
    } else {
        releases
    }
}

/// The versions that a list of releases offers: their tags, in order.
pub fn release_versions(releases: &Vec<ReleaseInfo>) -> (res: Vec<String>)
    ensures
        res@.len() == releases@.len(),
        forall|i: int| 0 <= i < res@.len() ==> #[trigger] res@[i]@ == releases@[i].tag_name@,
{
    let mut versions: Vec<String> = Vec::new();
    let mut i: usize = 0;
    while i < releases.len()
        invariant
            i <= releases@.len(),
            versions@.len() == i,
            forall|j: int| 0 <= j < i ==> #[trigger] versions@[j]@ == releases@[j].tag_name@,
        decreases releases.len() - i,
    {
        versions.push(releases[i].tag_name.clone());
        i = i + 1;
    }
    versions
}

/// The key by which a Citron Nightly version is looked up: its short hash
/// when it stands for one, else the version as given.
pub open spec fn nightly_version_key(version: Seq<char>) -> Seq<char> {
    match short_sha_of(version) {
        Some(sha) => sha,
        None => version,
    }
}

/// A release's tag equals the key, without regard to ASCII case.
pub open spec fn tag_matches(r: ReleaseInfoView, key: Seq<char>) -> bool {
    lower_seq(r.tag_name) == lower_seq(key)
}

/// The Citron Nightly release of a version: the first release of the list
/// whose tag matches the version's short hash without regard to ASCII case.
/// When there is none, the error says that the release could not be read.
pub fn citron_nightly_release_by_version(version: &str, releases: Vec<ReleaseInfo>) -> (res:
    Result<ReleaseInfo, AppError>)
    ensures
        match res {
            Ok(r) => exists|i: int|
                0 <= i < releases@.len() && tag_matches(#[trigger] releases@[i]@, nightly_version_key(version@))
                    && (forall|j: int| 0 <= j < i ==> !tag_matches(#[trigger] releases@[j]@, nightly_version_key(version@)))
                    && r@ == releases@[i]@,
            Err(e) => (forall|i: int|
                0 <= i < releases@.len() ==> !tag_matches(#[trigger] releases@[i]@, nightly_version_key(version@)))
                && e.message() == unparsable_release_message("Citron"@, version@),
        },
{
    let normalized_version = match normalize_short_sha(version) {
        Some(sha) => sha,
        None => String::from_str(version),
    };
    let ghost key = normalized_version@;
    assert(key == nightly_version_key(version@));
    let ghost all = releases@;
    let mut list = releases;
    let mut i: usize = 0;
    while i < list.len()
        invariant
            list@ == all,
            all == releases@,
            key == normalized_version@,
            key == nightly_version_key(version@),
            i <= all.len(),
            forall|j: int| 0 <= j < i ==> !tag_matches(#[trigger] all[j]@, key),
        decreases list.len() - i,
    {
        if eq_ignore_ascii_case(list[i].tag_name.as_str(), normalized_version.as_str()) {
            let found = list.remove(i);
            assert(tag_matches(all[i as int]@, key));
            assert(found@ == all[i as int]@);
            assert(0 <= i < all.len() && tag_matches(all[i as int]@, nightly_version_key(version@))
                && (forall|j: int| 0 <= j < i ==> !tag_matches(#[trigger] all[j]@, nightly_version_key(version@)))
                && found@ == all[i as int]@);
            return Ok(found);
        }
        i = i + 1;
    }
    Err(unparsable_release_error("Citron", version))
}

/// The message given in place of a changelog when a branch has no release.
pub open spec fn missing_changelog_message(branch: Seq<char>) -> Seq<char> {
    "Unable to fetch latest changelog information for "@ + branch
}

/// The changelog of the latest release: the notes of the first release of
/// the list, or a message saying that there is none.
pub fn latest_change_log(branch: &str, releases: &Vec<ReleaseInfo>) -> (res: String)
    ensures
        res@ == (if releases@.len() == 0 {
            missing_changelog_message(branch@)
        } else {
            releases@[0].description@
        }),
{
    if releases.len() == 0 {
        let mut message = String::from_str("Unable to fetch latest changelog information for ");
        message.append(branch);
        return message;
    }
    releases[0].description.clone()
}

} // verus!

verus! {

/// The hash found in an asset name is a short hash.
proof fn lemma_first_asset_sha_is_short_sha(assets: Seq<ReleaseAssetView>)
    ensures
        first_asset_sha(assets) matches Some(t) ==> is_short_sha(t),
    decreases assets.len(),
{
    if assets.len() > 0 {
        lemma_short_sha_in_text_is_short_sha(assets[0].name);
        lemma_first_asset_sha_is_short_sha(assets.drop_first());
    }
}

/// The upstream commit of a Citron Nightly release is a short hash.
pub proof fn lemma_nightly_upstream_sha_is_short_sha(r: ReleaseInfoView)
    ensures
        nightly_upstream_sha(r) matches Some(t) ==> is_short_sha(t),
{
    lemma_labeled_upstream_sha_is_short_sha(r.description);
    lemma_labeled_upstream_sha_is_short_sha(r.name);
    lemma_short_sha_in_text_is_short_sha(r.name);
    lemma_first_asset_sha_is_short_sha(r.assets);
}

/// Grouping keeps exactly the commits of the releases: every tag of the
/// grouped list is the upstream commit of some release, every release that has
/// an upstream commit is represented under it, and every tag is a short hash.
pub proof fn law_nightly_grouped_keeps_commits(rs: Seq<ReleaseInfoView>)
    ensures
        forall|i: int| 0 <= i < nightly_grouped(rs).len() ==> {
            &&& is_short_sha(#[trigger] nightly_grouped(rs)[i].tag_name)
            &&& exists|k: int| 0 <= k < rs.len() && #[trigger] nightly_upstream_sha(rs[k]) == Some(
                nightly_grouped(rs)[i].tag_name,
            )
        },
        forall|k: int| 0 <= k < rs.len() ==> (#[trigger] nightly_upstream_sha(rs[k]) matches Some(sha)
            ==> has_tag(nightly_grouped(rs), sha)),
    decreases rs.len(),
{
    if rs.len() > 0 {
        let prev = rs.drop_last();
        law_nightly_grouped_keeps_commits(prev);
        lemma_nightly_upstream_sha_is_short_sha(rs.last());
        let acc = nightly_grouped(prev);
        let g = nightly_grouped(rs);
        assert forall|i: int| 0 <= i < g.len() implies {
            &&& is_short_sha(#[trigger] g[i].tag_name)
            &&& exists|k: int| 0 <= k < rs.len() && #[trigger] nightly_upstream_sha(rs[k]) == Some(
                g[i].tag_name,
            )
        } by {
            if i < acc.len() {
                assert(g[i].tag_name == acc[i].tag_name);
                let k = choose|k: int| 0 <= k < prev.len() && #[trigger] nightly_upstream_sha(prev[k]) == Some(
                    acc[i].tag_name,
                );
                assert(prev[k] == rs[k]);
            } else {
                assert(nightly_upstream_sha(rs[rs.len() - 1]) == Some(g[i].tag_name));
            }
        }
        assert forall|k: int| 0 <= k < rs.len() implies (#[trigger] nightly_upstream_sha(rs[k]) matches Some(sha)
            ==> has_tag(g, sha)) by {
            if let Some(sha) = nightly_upstream_sha(rs[k]) {
                if k < prev.len() {
                    assert(prev[k] == rs[k]);
                    let i = choose|i: int| 0 <= i < acc.len() && #[trigger] acc[i].tag_name == sha;
                    assert(g[i].tag_name == sha);
                } else {
                    if has_tag(acc, sha) {
                        let i = choose|i: int| 0 <= i < acc.len() && #[trigger] acc[i].tag_name == sha;
                        assert(g[i].tag_name == sha);
                    } else {
                        assert(g[acc.len() as int].tag_name == sha);
                    }
                }
            }
        }
    }
}

/// Every version that the grouped Citron Nightly list offers finds its own
/// release again: the version stands for itself as a short hash, and the
/// release it names is the only one whose tag matches it.
pub proof fn law_nightly_version_finds_its_release(rs: Seq<ReleaseInfoView>, i: int)
    requires
        0 <= i < nightly_grouped(rs).len(),
    ensures
        nightly_version_key(nightly_grouped(rs)[i].tag_name) == nightly_grouped(rs)[i].tag_name,
        forall|j: int| 0 <= j < nightly_grouped(rs).len() ==> (tag_matches(
            #[trigger] nightly_grouped(rs)[j],
            nightly_grouped(rs)[i].tag_name,
        ) <==> j == i),
{
    let g = nightly_grouped(rs);
    law_nightly_grouped_keeps_commits(rs);
    law_nightly_grouped_tags_distinct(rs);
    let t = g[i].tag_name;
    assert(is_short_sha(g[i].tag_name));
    lemma_short_sha_fixpoint(t);
    assert forall|j: int| 0 <= j < g.len() implies (tag_matches(#[trigger] g[j], t) <==> j == i) by {
        assert(is_short_sha(g[j].tag_name));
        lemma_short_sha_fixpoint(g[j].tag_name);
    }
}

} // verus!

verus! {

/// No two assets of the list share a name and a download URL.
pub open spec fn asset_keys_distinct(assets: Seq<ReleaseAssetView>) -> bool {
    forall|i: int, j: int|
        0 <= i < assets.len() && 0 <= j < assets.len() && i != j ==> asset_key(#[trigger] assets[i])
            != asset_key(#[trigger] assets[j])
}

/// Merging keeps the existing assets first and in order, holds exactly the
/// keys of both lists, and adds no key twice.
pub proof fn law_merged_assets_union(
    existing: Seq<ReleaseAssetView>,
    incoming: Seq<ReleaseAssetView>,
)
    ensures
        merged_assets(existing, incoming).len() >= existing.len(),
        merged_assets(existing, incoming).subrange(0, existing.len() as int) == existing,
        forall|key: (Seq<char>, Seq<char>)|
            #[trigger] has_asset_key(merged_assets(existing, incoming), key) <==> (has_asset_key(
                existing,
                key,
            ) || has_asset_key(incoming, key)),
        asset_keys_distinct(existing) ==> asset_keys_distinct(merged_assets(existing, incoming)),
    decreases incoming.len(),
{
    if incoming.len() > 0 {
        let prev = incoming.drop_last();
        law_merged_assets_union(existing, prev);
        let kept = merged_assets(existing, prev);
        let a = incoming.last();
        let m = merged_assets(existing, incoming);
        if !has_asset_key(kept, asset_key(a)) {
            assert(m == kept.push(a));
            assert(m.subrange(0, existing.len() as int) =~= kept.subrange(0, existing.len() as int));
        }
        assert forall|key: (Seq<char>, Seq<char>)| #[trigger] has_asset_key(m, key) <==> (
        has_asset_key(existing, key) || has_asset_key(incoming, key)) by {
            assert(has_asset_key(kept, key) <==> (has_asset_key(existing, key) || has_asset_key(prev, key)));
            if has_asset_key(prev, key) {
                let i = choose|i: int| 0 <= i < prev.len() && #[trigger] asset_key(prev[i]) == key;
                assert(incoming[i] == prev[i]);
            }
            if has_asset_key(incoming, key) {
                let i = choose|i: int| 0 <= i < incoming.len() && #[trigger] asset_key(incoming[i]) == key;
                if i < prev.len() {
                    assert(incoming[i] == prev[i]);
                    assert(has_asset_key(prev, key));
                } else {
                    assert(asset_key(a) == key);
                }
            }
            if has_asset_key(kept, asset_key(a)) {
                assert(m == kept);
            } else {
                assert(m == kept.push(a));
                assert(asset_key(m[kept.len() as int]) == asset_key(a));
                if has_asset_key(kept, key) {
                    let i = choose|i: int| 0 <= i < kept.len() && #[trigger] asset_key(kept[i]) == key;
                    assert(m[i] == kept[i]);
                }
                if has_asset_key(m, key) {
                    let i = choose|i: int| 0 <= i < m.len() && #[trigger] asset_key(m[i]) == key;
                    if i < kept.len() {
                        assert(m[i] == kept[i]);
                        assert(has_asset_key(kept, key));
                    } else {
                        assert(asset_key(incoming[incoming.len() - 1]) == key);
                    }
                }
            }
        }
        if asset_keys_distinct(existing) && !has_asset_key(kept, asset_key(a)) {
            assert forall|i: int, j: int|
                0 <= i < m.len() && 0 <= j < m.len() && i != j implies asset_key(#[trigger] m[i])
                    != asset_key(#[trigger] m[j]) by {
                if i == kept.len() {
                    assert(m[j] == kept[j]);
                } else if j == kept.len() {
                    assert(m[i] == kept[i]);
                } else {
                    assert(m[i] == kept[i]);
                    assert(m[j] == kept[j]);
                }
            }
        }
    }
}

/// Merging the same assets a second time adds nothing.
pub proof fn law_merge_assets_twice_adds_nothing(
    existing: Seq<ReleaseAssetView>,
    incoming: Seq<ReleaseAssetView>,
)
    ensures
        merged_assets(merged_assets(existing, incoming), incoming) == merged_assets(
            existing,
            incoming,
        ),
{
    law_merged_assets_union(existing, incoming);
    lemma_merge_known_keys(merged_assets(existing, incoming), incoming);
}

/// Merging assets whose keys are all present already changes nothing.
proof fn lemma_merge_known_keys(existing: Seq<ReleaseAssetView>, incoming: Seq<ReleaseAssetView>)
    requires
        forall|i: int| 0 <= i < incoming.len() ==> has_asset_key(existing, asset_key(#[trigger] incoming[i])),
    ensures
        merged_assets(existing, incoming) == existing,
    decreases incoming.len(),
{
    if incoming.len() > 0 {
        let prev = incoming.drop_last();
        assert forall|i: int| 0 <= i < prev.len() implies has_asset_key(existing, asset_key(#[trigger] prev[i])) by {
            assert(prev[i] == incoming[i]);
        }
        lemma_merge_known_keys(existing, prev);
        assert(has_asset_key(existing, asset_key(incoming[incoming.len() - 1])));
    }
}

/// A branch has a release API exactly when it can be downloaded; the legacy
/// `citron` reads Citron Stable's, and the two Citron channels read different
/// ones. The Citron API of a branch is its release API when it is a Citron
/// channel, and there is none otherwise. A branch has a release source exactly
/// when it has a release API.
pub proof fn law_release_api_follows_branch(b: Seq<char>)
    ensures
        release_api(b) is Some <==> downloadable_branch(b) is Some,
        source_of(b) is Some <==> release_api(b) is Some,
        citron_release_api(b) == (if citron_branch(b) { release_api(b) } else { None::<Seq<char>> }),
        canonical_branch(b) == Some(CITRON_STABLE_BRANCH@) ==> release_api(b) == Some(
            CITRON_STABLE_RELEASES_API@,
        ),
        canonical_branch(b) == Some(CITRON_NIGHTLY_BRANCH@) ==> release_api(b) == Some(
            CITRON_NIGHTLY_RELEASES_API@,
        ),
        CITRON_STABLE_RELEASES_API@ != CITRON_NIGHTLY_RELEASES_API@,
{
    lemma_branch_names_distinct();
    reveal_strlit("https://api.github.com/repos/citron-neo/emulator/releases");
    reveal_strlit("https://api.github.com/repos/citron-neo/CI/releases");
    assert(CITRON_STABLE_RELEASES_API@.len() == 57);
    assert(CITRON_NIGHTLY_RELEASES_API@.len() == 51);
}

} // verus!

verus! {

/// Which release source and which release API each branch name reads, named
/// directly: `eden` reads Eden's API; `citron` and `citron-stable` read
/// Citron Stable's (`citron-neo/emulator`); `citron-nightly` reads Citron
/// Nightly's (`citron-neo/CI`); every other name has no source and no API. The
/// source of a branch and its API always agree.
pub proof fn law_branch_source_table(b: Seq<char>)
    ensures
        b == EDEN_BRANCH@ ==> {
            &&& source_of(b) == Some(ReleaseSource::Eden)
            &&& release_api(b) == Some(EDEN_RELEASES_API@)
            &&& citron_release_api(b) is None
        },
        (b == LEGACY_CITRON_BRANCH@ || b == CITRON_STABLE_BRANCH@) ==> {
            &&& source_of(b) == Some(ReleaseSource::CitronStable)
            &&& release_api(b) == Some(CITRON_STABLE_RELEASES_API@)
            &&& citron_release_api(b) == Some(CITRON_STABLE_RELEASES_API@)
        },
        b == CITRON_NIGHTLY_BRANCH@ ==> {
            &&& source_of(b) == Some(ReleaseSource::CitronNightly)
            &&& release_api(b) == Some(CITRON_NIGHTLY_RELEASES_API@)
            &&& citron_release_api(b) == Some(CITRON_NIGHTLY_RELEASES_API@)
        },
        !(b == EDEN_BRANCH@ || b == LEGACY_CITRON_BRANCH@ || b == CITRON_STABLE_BRANCH@ || b
            == CITRON_NIGHTLY_BRANCH@) ==> {
            &&& source_of(b) is None
            &&& release_api(b) is None
            &&& citron_release_api(b) is None
        },
        source_of(b) == Some(ReleaseSource::Eden) <==> release_api(b) == Some(EDEN_RELEASES_API@),
        source_of(b) == Some(ReleaseSource::CitronStable) <==> release_api(b) == Some(
            CITRON_STABLE_RELEASES_API@,
        ),
        source_of(b) == Some(ReleaseSource::CitronNightly) <==> release_api(b) == Some(
            CITRON_NIGHTLY_RELEASES_API@,
        ),
{
    lemma_branch_names_distinct();
    lemma_release_apis_distinct();
}

/// The three release APIs are pairwise distinct.
proof fn lemma_release_apis_distinct()
    ensures
        EDEN_RELEASES_API@ != CITRON_STABLE_RELEASES_API@,
        EDEN_RELEASES_API@ != CITRON_NIGHTLY_RELEASES_API@,
        CITRON_STABLE_RELEASES_API@ != CITRON_NIGHTLY_RELEASES_API@,
{
    reveal_strlit("https://git.eden-emu.dev/api/v1/repos/eden-emu/eden/releases");
    reveal_strlit("https://api.github.com/repos/citron-neo/emulator/releases");
    reveal_strlit("https://api.github.com/repos/citron-neo/CI/releases");
    assert(EDEN_RELEASES_API@.len() == 60);
    assert(CITRON_STABLE_RELEASES_API@.len() == 57);
    assert(CITRON_NIGHTLY_RELEASES_API@.len() == 51);
}

} // verus!

verus! {

/// The asset whose name gave the hash: the first one whose name holds one.
proof fn lemma_first_asset_index(assets: Seq<ReleaseAssetView>) -> (i: int)
    requires
        first_asset_sha(assets) is Some,
    ensures
        0 <= i < assets.len(),
        short_sha_in_text(assets[i].name) == first_asset_sha(assets),
        forall|j: int| 0 <= j < i ==> (#[trigger] short_sha_in_text(assets[j].name)) is None,
    decreases assets.len(),
{
    if short_sha_in_text(assets[0].name) is Some {
        0
    } else {
        let rest = assets.drop_first();
        let k = lemma_first_asset_index(rest);
        assert(assets[k + 1] == rest[k]);
        assert forall|j: int| 0 <= j < k + 1 implies (#[trigger] short_sha_in_text(assets[j].name)) is None by {
            if j > 0 {
                assert(assets[j] == rest[j - 1]);
            }
        }
        k + 1
    }
}

/// An asset whose name holds a hash, and is the first such, gives the hash.
proof fn lemma_first_asset_at(assets: Seq<ReleaseAssetView>, i: int)
    requires
        0 <= i < assets.len(),
        short_sha_in_text(assets[i].name) is Some,
        forall|j: int| 0 <= j < i ==> (#[trigger] short_sha_in_text(assets[j].name)) is None,
    ensures
        first_asset_sha(assets) == short_sha_in_text(assets[i].name),
    decreases i,
{
    if i > 0 {
        let rest = assets.drop_first();
        assert(short_sha_in_text(assets[0].name) is None);
        assert(rest[i - 1] == assets[i]);
        assert forall|j: int| 0 <= j < i - 1 implies (#[trigger] short_sha_in_text(rest[j].name)) is None by {
            assert(rest[j] == assets[j + 1]);
        }
        lemma_first_asset_at(rest, i - 1);
    }
}

/// No asset name holds a hash exactly when the assets give none.
proof fn lemma_first_asset_none(assets: Seq<ReleaseAssetView>)
    ensures
        first_asset_sha(assets) is None <==> forall|i: int|
            0 <= i < assets.len() ==> (#[trigger] short_sha_in_text(assets[i].name)) is None,
{
    if first_asset_sha(assets) is Some {
        let i = lemma_first_asset_index(assets);
        assert(short_sha_in_text(assets[i].name) is Some);
    } else {
        assert forall|i: int| 0 <= i < assets.len() implies (#[trigger] short_sha_in_text(assets[i].name)) is None by {
            if short_sha_in_text(assets[i].name) is Some {
                if exists|j: int| 0 <= j < assets.len() && (#[trigger] short_sha_in_text(assets[j].name)) is Some {
                    let k = lemma_first_some_asset(assets, i);
                    lemma_first_asset_at(assets, k);
                }
            }
        }
    }
}

/// Where some asset name holds a hash, there is a first one.
proof fn lemma_first_some_asset(assets: Seq<ReleaseAssetView>, i: int) -> (k: int)
    requires
        0 <= i < assets.len(),
        short_sha_in_text(assets[i].name) is Some,
    ensures
        0 <= k <= i,
        short_sha_in_text(assets[k].name) is Some,
        forall|j: int| 0 <= j < k ==> (#[trigger] short_sha_in_text(assets[j].name)) is None,
    decreases i,
{
    if exists|j: int| 0 <= j < i && (#[trigger] short_sha_in_text(assets[j].name)) is Some {
        let j = choose|j: int| 0 <= j < i && (#[trigger] short_sha_in_text(assets[j].name)) is Some;
        lemma_first_some_asset(assets, j)
    } else {
        i
    }
}

/// Where a Citron Nightly release's upstream commit comes from, in order of
/// precedence: the labeled commit in its notes; else the labeled commit in
/// its name; else the first hash in its name; else the hash of the first
/// asset name that holds one. A release that holds none of these has no
/// upstream commit.
pub proof fn law_nightly_upstream_sha_precedence(r: ReleaseInfoView)
    ensures
        labeled_upstream_sha(r.description) matches Some(s) ==> nightly_upstream_sha(r) == Some(s),
        labeled_upstream_sha(r.description) is None ==> (labeled_upstream_sha(r.name) matches Some(s)
            ==> nightly_upstream_sha(r) == Some(s)),
        labeled_upstream_sha(r.description) is None && labeled_upstream_sha(r.name) is None ==> (
        short_sha_in_text(r.name) matches Some(s) ==> nightly_upstream_sha(r) == Some(s)),
        labeled_upstream_sha(r.description) is None && labeled_upstream_sha(r.name) is None
            && short_sha_in_text(r.name) is None ==> forall|i: int|
            0 <= i < r.assets.len() && (#[trigger] short_sha_in_text(r.assets[i].name)) is Some
                && (forall|j: int| 0 <= j < i ==> (#[trigger] short_sha_in_text(r.assets[j].name)) is None)
                ==> nightly_upstream_sha(r) == short_sha_in_text(r.assets[i].name),
        nightly_upstream_sha(r) matches Some(s) ==> {
            ||| labeled_upstream_sha(r.description) == Some(s)
            ||| labeled_upstream_sha(r.name) == Some(s)
            ||| short_sha_in_text(r.name) == Some(s)
            ||| exists|i: int| 0 <= i < r.assets.len() && #[trigger] short_sha_in_text(r.assets[i].name) == Some(s)
        },
        nightly_upstream_sha(r) is None <==> {
            &&& labeled_upstream_sha(r.description) is None
            &&& labeled_upstream_sha(r.name) is None
            &&& short_sha_in_text(r.name) is None
            &&& forall|i: int| 0 <= i < r.assets.len() ==> (#[trigger] short_sha_in_text(r.assets[i].name)) is None
        },
{
    lemma_first_asset_none(r.assets);
    if first_asset_sha(r.assets) is Some {
        let k = lemma_first_asset_index(r.assets);
    }
    assert forall|i: int|
        0 <= i < r.assets.len() && (#[trigger] short_sha_in_text(r.assets[i].name)) is Some
            && (forall|j: int| 0 <= j < i ==> (#[trigger] short_sha_in_text(r.assets[j].name)) is None)
            implies first_asset_sha(r.assets) == short_sha_in_text(r.assets[i].name) by {
        lemma_first_asset_at(r.assets, i);
    }
}

} // verus!

verus! {

/// No asset is lost by grouping: every asset of a Citron Nightly release that
/// has an upstream commit is held, by name and download URL, by the grouped
/// release of that commit.
pub proof fn law_nightly_grouped_keeps_assets(rs: Seq<ReleaseInfoView>, k: int, a: int)
    requires
        0 <= k < rs.len(),
        nightly_upstream_sha(rs[k]) is Some,
        0 <= a < rs[k].assets.len(),
    ensures
        exists|i: int|
            0 <= i < nightly_grouped(rs).len() && #[trigger] nightly_grouped(rs)[i].tag_name
                == nightly_upstream_sha(rs[k])->0 && has_asset_key(
                nightly_grouped(rs)[i].assets,
                asset_key(rs[k].assets[a]),
            ),
    decreases rs.len(),
{
    let prev = rs.drop_last();
    let acc = nightly_grouped(prev);
    let g = nightly_grouped(rs);
    let r = rs.last();
    let s = nightly_upstream_sha(rs[k])->0;
    let key = asset_key(rs[k].assets[a]);
    if k < prev.len() {
        assert(prev[k] == rs[k]);
        law_nightly_grouped_keeps_assets(prev, k, a);
        let i = choose|i: int|
            0 <= i < acc.len() && #[trigger] acc[i].tag_name == s && has_asset_key(acc[i].assets, key);
        match nightly_upstream_sha(r) {
            None => {
                assert(g[i] == acc[i]);
            },
            Some(s2) => {
                if has_tag(acc, s2) {
                    let j = choose|j: int| 0 <= j < acc.len() && #[trigger] acc[j].tag_name == s2;
                    if i == j {
                        law_merged_assets_union(acc[j].assets, r.assets);
                        assert(has_asset_key(g[i].assets, key));
                    } else {
                        assert(g[i] == acc[i]);
                    }
                    assert(g[i].tag_name == s);
                } else {
                    assert(g[i] == acc[i]);
                }
            },
        }
    } else {
        assert(rs[k] == r);
        assert(has_asset_key(r.assets, key));
        if has_tag(acc, s) {
            let j = choose|j: int| 0 <= j < acc.len() && #[trigger] acc[j].tag_name == s;
            law_merged_assets_union(acc[j].assets, r.assets);
            assert(g[j].tag_name == s);
            assert(has_asset_key(g[j].assets, key));
        } else {
            let last = acc.len() as int;
            assert(g[last].tag_name == s);
            assert(g[last].assets == r.assets);
        }
    }
}

/// No asset is invented by grouping: every asset of a grouped release comes,
/// by name and download URL, from a release whose upstream commit is the
/// grouped release's tag.
pub proof fn law_nightly_grouped_assets_come_from_inputs(rs: Seq<ReleaseInfoView>, i: int, b: int)
    requires
        0 <= i < nightly_grouped(rs).len(),
        0 <= b < nightly_grouped(rs)[i].assets.len(),
    ensures
        exists|k: int|
            0 <= k < rs.len() && #[trigger] nightly_upstream_sha(rs[k]) == Some(
                nightly_grouped(rs)[i].tag_name,
            ) && has_asset_key(rs[k].assets, asset_key(nightly_grouped(rs)[i].assets[b])),
    decreases rs.len(),
{
    let prev = rs.drop_last();
    let acc = nightly_grouped(prev);
    let g = nightly_grouped(rs);
    let r = rs.last();
    let t = g[i].tag_name;
    let key = asset_key(g[i].assets[b]);
    let last = rs.len() - 1;
    assert(rs[last] == r);
    match nightly_upstream_sha(r) {
        None => {
            assert(g == acc);
            law_nightly_grouped_assets_come_from_inputs(prev, i, b);
            let k = choose|k: int|
                0 <= k < prev.len() && #[trigger] nightly_upstream_sha(prev[k]) == Some(acc[i].tag_name)
                    && has_asset_key(prev[k].assets, asset_key(acc[i].assets[b]));
            assert(prev[k] == rs[k]);
        },
        Some(s2) => {
            if has_tag(acc, s2) {
                let j = choose|j: int| 0 <= j < acc.len() && #[trigger] acc[j].tag_name == s2;
                if i == j {
                    law_merged_assets_union(acc[j].assets, r.assets);
                    assert(has_asset_key(g[i].assets, key));
                    if has_asset_key(acc[j].assets, key) {
                        let c = choose|c: int| 0 <= c < acc[j].assets.len() && #[trigger] asset_key(acc[j].assets[c]) == key;
                        law_nightly_grouped_assets_come_from_inputs(prev, j, c);
                        let k = choose|k: int|
                            0 <= k < prev.len() && #[trigger] nightly_upstream_sha(prev[k]) == Some(acc[j].tag_name)
                                && has_asset_key(prev[k].assets, asset_key(acc[j].assets[c]));
                        assert(prev[k] == rs[k]);
                    } else {
                        assert(has_asset_key(r.assets, key));
                        assert(nightly_upstream_sha(rs[last]) == Some(t));
                    }
                } else {
                    assert(g[i] == acc[i]);
                    law_nightly_grouped_assets_come_from_inputs(prev, i, b);
                    let k = choose|k: int|
                        0 <= k < prev.len() && #[trigger] nightly_upstream_sha(prev[k]) == Some(acc[i].tag_name)
                            && has_asset_key(prev[k].assets, asset_key(acc[i].assets[b]));
                    assert(prev[k] == rs[k]);
                }
            } else {
                if i < acc.len() {
                    assert(g[i] == acc[i]);
                    law_nightly_grouped_assets_come_from_inputs(prev, i, b);
                    let k = choose|k: int|
                        0 <= k < prev.len() && #[trigger] nightly_upstream_sha(prev[k]) == Some(acc[i].tag_name)
                            && has_asset_key(prev[k].assets, asset_key(acc[i].assets[b]));
                    assert(prev[k] == rs[k]);
                } else {
                    assert(g[i].assets == r.assets);
                    assert(asset_key(r.assets[b]) == key);
                    assert(nightly_upstream_sha(rs[last]) == Some(t));
                }
            }
        },
    }
}

} // verus!

verus! {

/// Merging nothing keeps the assets; merging one asset appends it exactly when
/// no asset with its name and download URL is there yet.
pub proof fn law_merge_single_asset(existing: Seq<ReleaseAssetView>, a: ReleaseAssetView)
    ensures
        merged_assets(existing, Seq::empty()) == existing,
        merged_assets(existing, seq![a]) == (if has_asset_key(existing, asset_key(a)) {
            existing
        } else {
            existing.push(a)
        }),
{
    assert(seq![a].drop_last() =~= Seq::<ReleaseAssetView>::empty());
}

/// Merging two lists of assets at once is merging the first, then the second.
pub proof fn law_merge_in_two_steps(
    existing: Seq<ReleaseAssetView>,
    first: Seq<ReleaseAssetView>,
    second: Seq<ReleaseAssetView>,
)
    ensures
        merged_assets(existing, first + second) == merged_assets(
            merged_assets(existing, first),
            second,
        ),
    decreases second.len(),
{
    if second.len() == 0 {
        assert(first + second =~= first);
    } else {
        assert((first + second).drop_last() =~= first + second.drop_last());
        assert((first + second).last() == second.last());
        law_merge_in_two_steps(existing, first, second.drop_last());
    }
}

} // verus!

verus! {

/// `k` is the first release of the list built from upstream commit `s`.
pub open spec fn first_with_sha(rs: Seq<ReleaseInfoView>, s: Seq<char>, k: int) -> bool {
    &&& 0 <= k < rs.len()
    &&& nightly_upstream_sha(rs[k]) == Some(s)
    &&& forall|j: int| 0 <= j < k ==> nightly_upstream_sha(#[trigger] rs[j]) != Some(s)
}

/// The release a grouped release was made from, with what it kept of it.
proof fn lemma_nightly_grouped_origin(rs: Seq<ReleaseInfoView>, i: int) -> (k: int)
    requires
        0 <= i < nightly_grouped(rs).len(),
    ensures
        first_with_sha(rs, nightly_grouped(rs)[i].tag_name, k),
        nightly_grouped(rs)[i].name == rs[k].name,
        nightly_grouped(rs)[i].description == rs[k].description,
        nightly_grouped(rs)[i].published_at == rs[k].published_at,
        nightly_grouped(rs)[i].prerelease == rs[k].prerelease,
        nightly_grouped(rs)[i].html_url == rs[k].html_url,
        nightly_grouped(rs)[i].assets.len() >= rs[k].assets.len(),
        nightly_grouped(rs)[i].assets.subrange(0, rs[k].assets.len() as int) == rs[k].assets,
    decreases rs.len(),
{
    let prev = rs.drop_last();
    let acc = nightly_grouped(prev);
    let g = nightly_grouped(rs);
    let r = rs.last();
    let last = rs.len() - 1;
    assert(rs[last] == r);
    assert forall|j: int| 0 <= j < prev.len() implies #[trigger] prev[j] == rs[j] by {}
    law_nightly_grouped_keeps_commits(prev);
    match nightly_upstream_sha(r) {
        None => {
            assert(g == acc);
            let k = lemma_nightly_grouped_origin(prev, i);
            assert forall|j: int| 0 <= j < k implies nightly_upstream_sha(#[trigger] rs[j]) != Some(
                g[i].tag_name,
            ) by {
                assert(prev[j] == rs[j]);
            }
            k
        },
        Some(s2) => {
            if i < acc.len() {
                let k = lemma_nightly_grouped_origin(prev, i);
                if has_tag(acc, s2) {
                    let j = choose|j: int| 0 <= j < acc.len() && #[trigger] acc[j].tag_name == s2;
                    if i == j {
                        law_merged_assets_union(acc[j].assets, r.assets);
                        let m = merged_assets(acc[j].assets, r.assets);
                        assert(g[i].assets == m);
                        assert(m.subrange(0, rs[k].assets.len() as int) =~= m.subrange(
                            0,
                            acc[j].assets.len() as int,
                        ).subrange(0, rs[k].assets.len() as int));
                    } else {
                        assert(g[i] == acc[i]);
                    }
                } else {
                    assert(g[i] == acc[i]);
                }
                assert(g[i].tag_name == acc[i].tag_name);
                assert forall|j: int| 0 <= j < k implies nightly_upstream_sha(#[trigger] rs[j]) != Some(
                    g[i].tag_name,
                ) by {
                    assert(prev[j] == rs[j]);
                }
                k
            } else {
                assert(!has_tag(acc, s2));
                assert(g[i].tag_name == s2);
                assert forall|j: int| 0 <= j < last implies nightly_upstream_sha(#[trigger] rs[j]) != Some(s2) by {
                    assert(rs[j] == prev[j]);
                }
                assert(g[i].assets == r.assets);
                assert(r.assets.subrange(0, r.assets.len() as int) =~= r.assets);
                last
            }
        },
    }
}

/// Each grouped Citron Nightly release is the first release built from its
/// upstream commit, renamed to the commit: its name, notes, publication date,
/// pre-release flag and page are that release's, and its assets start with
/// that release's assets (the other releases of the commit add theirs after).
pub proof fn law_nightly_grouped_release_is_first_of_its_commit(rs: Seq<ReleaseInfoView>, i: int)
    requires
        0 <= i < nightly_grouped(rs).len(),
    ensures
        exists|k: int|
            #[trigger] first_with_sha(rs, nightly_grouped(rs)[i].tag_name, k) && {
                let g = nightly_grouped(rs)[i];
                &&& g.name == rs[k].name
                &&& g.description == rs[k].description
                &&& g.published_at == rs[k].published_at
                &&& g.prerelease == rs[k].prerelease
                &&& g.html_url == rs[k].html_url
                &&& g.assets.len() >= rs[k].assets.len()
                &&& g.assets.subrange(0, rs[k].assets.len() as int) == rs[k].assets
            },
{
    let k = lemma_nightly_grouped_origin(rs, i);
}

/// The grouped Citron Nightly list keeps the order in which commits first
/// appear: when grouped release `i` comes before grouped release `i2`, a
/// release of `i`'s commit comes before every release of `i2`'s commit.
pub proof fn law_nightly_grouped_order(rs: Seq<ReleaseInfoView>, i: int, i2: int, k2: int)
    requires
        0 <= i < i2 < nightly_grouped(rs).len(),
        0 <= k2 < rs.len(),
        nightly_upstream_sha(rs[k2]) == Some(nightly_grouped(rs)[i2].tag_name),
    ensures
        exists|k: int|
            0 <= k < k2 && #[trigger] nightly_upstream_sha(rs[k]) == Some(nightly_grouped(rs)[i].tag_name),
    decreases rs.len(),
{
    let prev = rs.drop_last();
    let acc = nightly_grouped(prev);
    let g = nightly_grouped(rs);
    let r = rs.last();
    let last = rs.len() - 1;
    assert(rs[last] == r);
    assert forall|j: int| 0 <= j < prev.len() implies #[trigger] prev[j] == rs[j] by {}
    law_nightly_grouped_keeps_commits(prev);
    match nightly_upstream_sha(r) {
        None => {
            assert(g == acc);
            assert(k2 < last);
            law_nightly_grouped_order(prev, i, i2, k2);
            let k = choose|k: int|
                0 <= k < k2 && #[trigger] nightly_upstream_sha(prev[k]) == Some(acc[i].tag_name);
            assert(prev[k] == rs[k]);
        },
        Some(s2) => {
            assert(g[i].tag_name == acc[i].tag_name);
            let k = choose|k: int| 0 <= k < prev.len() && #[trigger] nightly_upstream_sha(prev[k]) == Some(
                acc[i].tag_name,
            );
            assert(prev[k] == rs[k]);
            if k2 < last {
                if i2 < acc.len() {
                    assert(g[i2].tag_name == acc[i2].tag_name);
                    law_nightly_grouped_order(prev, i, i2, k2);
                    let k3 = choose|k3: int|
                        0 <= k3 < k2 && #[trigger] nightly_upstream_sha(prev[k3]) == Some(acc[i].tag_name);
                    assert(prev[k3] == rs[k3]);
                } else {
                    assert(!has_tag(acc, s2));
                    assert(g[i2].tag_name == s2);
                    assert(nightly_upstream_sha(prev[k2]) == Some(s2));
                    assert(false);
                }
            }
        },
    }
}

} // verus!

verus! {

/// A Citron Nightly version may be spelled with more digits or in upper case:
/// any version that stands for the short hash of a grouped release selects
/// that release, and only it.
pub proof fn law_nightly_version_any_spelling(rs: Seq<ReleaseInfoView>, i: int, v: Seq<char>)
    requires
        0 <= i < nightly_grouped(rs).len(),
        short_sha_of(v) == Some(nightly_grouped(rs)[i].tag_name),
    ensures
        forall|j: int| 0 <= j < nightly_grouped(rs).len() ==> (tag_matches(
            #[trigger] nightly_grouped(rs)[j],
            nightly_version_key(v),
        ) <==> j == i),
{
    law_nightly_version_finds_its_release(rs, i);
}

} // verus!
