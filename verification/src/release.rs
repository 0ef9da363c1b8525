//! Release metadata as the release APIs describe it.

use vstd::prelude::*;

verus! {

/// One downloadable file of a release.
#[derive(Debug, Clone)]
pub struct ReleaseAsset {
    pub name: String,
    pub download_url: String,
    pub size: u64,
    pub content_type: Option<String>,
}

/// A release: its names, notes and downloadable files.
#[derive(Debug, Clone)]
pub struct ReleaseInfo {
    pub name: String,
    pub tag_name: String,
    pub description: String,
    pub assets: Vec<ReleaseAsset>,
    pub published_at: Option<String>,
    pub prerelease: bool,
    pub html_url: Option<String>,
}

/// The mathematical value of a [`ReleaseAsset`].
pub struct ReleaseAssetView {
    pub name: Seq<char>,
    pub download_url: Seq<char>,
    pub size: u64,
    pub content_type: Option<Seq<char>>,
}

/// The mathematical value of a [`ReleaseInfo`].
pub struct ReleaseInfoView {
    pub name: Seq<char>,
    pub tag_name: Seq<char>,
    pub description: Seq<char>,
    pub assets: Seq<ReleaseAssetView>,
    pub published_at: Option<Seq<char>>,
    pub prerelease: bool,
    pub html_url: Option<Seq<char>>,
}

/// The characters of an optional text.
pub open spec fn opt_text(o: Option<String>) -> Option<Seq<char>> {
    match o {
        Some(s) => Some(s@),
        None => None,
    }
}

impl View for ReleaseAsset {
    type V = ReleaseAssetView;

    open spec fn view(&self) -> ReleaseAssetView {
        ReleaseAssetView {
            name: self.name@,
            download_url: self.download_url@,
            size: self.size,
            content_type: opt_text(self.content_type),
        }
    }
}

/// The values of a sequence of assets.
pub open spec fn assets_view(assets: Seq<ReleaseAsset>) -> Seq<ReleaseAssetView> {
    assets.map_values(|a: ReleaseAsset| a@)
}

impl View for ReleaseInfo {
    type V = ReleaseInfoView;

    open spec fn view(&self) -> ReleaseInfoView {
        ReleaseInfoView {
            name: self.name@,
            tag_name: self.tag_name@,
            description: self.description@,
            assets: assets_view(self.assets@),
            published_at: opt_text(self.published_at),
            prerelease: self.prerelease,
            html_url: opt_text(self.html_url),
        }
    }
}

/// The values of a sequence of releases.
pub open spec fn releases_view(releases: Seq<ReleaseInfo>) -> Seq<ReleaseInfoView> {
    releases.map_values(|r: ReleaseInfo| r@)
}

/// What identifies an asset when two lists of assets are merged: its name and
/// its download URL.
pub open spec fn asset_key(a: ReleaseAssetView) -> (Seq<char>, Seq<char>) {
    (a.name, a.download_url)
}

/// Some asset of the list has the key.
pub open spec fn has_asset_key(assets: Seq<ReleaseAssetView>, key: (Seq<char>, Seq<char>)) -> bool {
    exists|i: int| 0 <= i < assets.len() && #[trigger] asset_key(assets[i]) == key
}

} // verus!
