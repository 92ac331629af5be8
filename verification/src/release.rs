//! Releases as the release server describes them.

use vstd::prelude::*;
use vstd::string::*;

verus! {

/// A file that belongs to a release.
#[derive(Debug)]
pub struct Asset {
    pub name: String,
    pub browser_download_url: String,
}

/// A release: its tag and its files.
#[derive(Debug)]
pub struct Release {
    pub tag_name: String,
    pub assets: Vec<Asset>,
}

/// The mathematical counterpart of an `Asset`.
pub struct AssetView {
    pub name: Seq<char>,
    pub browser_download_url: Seq<char>,
}

/// The mathematical counterpart of a `Release`.
pub struct ReleaseView {
    pub tag_name: Seq<char>,
    pub assets: Seq<AssetView>,
}

impl DeepView for Asset {
    type V = AssetView;

    open spec fn deep_view(&self) -> AssetView {
        AssetView { name: self.name@, browser_download_url: self.browser_download_url@ }
    }
}

impl View for Release {
    type V = ReleaseView;

    open spec fn view(&self) -> ReleaseView {
        ReleaseView { tag_name: self.tag_name@, assets: self.assets.deep_view() }
    }
}

/// The address of the first of the files with the given name, if there is one.
pub open spec fn asset_url(assets: Seq<AssetView>, name: Seq<char>) -> Option<Seq<char>>
    decreases assets.len(),
{
    if assets.len() == 0 {
        None
    } else if assets[0].name == name {
        Some(assets[0].browser_download_url)
    } else {
        asset_url(assets.skip(1), name)
    }
}

/// The address of the first of `assets` with the name `name`, if there is one.
pub fn find_asset(assets: &Vec<Asset>, name: &String) -> (r: Option<String>)
    ensures
        r.deep_view() == asset_url(assets.deep_view(), name@),
{
    let ghost all = assets.deep_view();
    let mut i: usize = 0;
    assert(all.skip(0) =~= all);
    while i < assets.len()
        invariant
            i <= assets@.len(),
            all == assets.deep_view(),
            asset_url(all, name@) == asset_url(all.skip(i as int), name@),
        decreases assets@.len() - i,
    {
        assert(all.skip(i as int)[0] == assets@[i as int].deep_view());
        if assets[i].name == *name {
            return Some(assets[i].browser_download_url.clone());
        }
        assert(all.skip(i as int).skip(1) =~= all.skip(i + 1));
        i = i + 1;
    }
    None
}

/// The address that describes the latest release of a repository.
pub open spec fn release_page(repo: Seq<char>) -> Seq<char> {
    "https://api.github.com/repos/"@ + repo + "/releases/latest"@
}

/// The address that describes the latest release of the repository `repo`.
pub fn latest_release_url(repo: &str) -> (url: String)
    ensures
        url@ == release_page(repo@),
        url@ == "https://api.github.com/repos/"@ + repo@ + "/releases/latest"@,
{
    let mut url = "https://api.github.com/repos/".to_owned();
    url.append(repo);
    url.append("/releases/latest");
    url
}

// ---- Laws -------------------------------------------------------------------------

/// An address is found exactly when some file has the name.
pub proof fn asset_is_found_iff_listed(assets: Seq<AssetView>, name: Seq<char>)
    ensures
        asset_url(assets, name) is Some <==> exists|i: int|
            0 <= i < assets.len() && (#[trigger] assets[i]).name == name,
    decreases assets.len(),
{
    if assets.len() > 0 {
        let tail = assets.skip(1);
        asset_is_found_iff_listed(tail, name);
        if exists|i: int| 0 <= i < assets.len() && (#[trigger] assets[i]).name == name {
            let i = choose|i: int| 0 <= i < assets.len() && (#[trigger] assets[i]).name == name;
            if i > 0 {
                assert(tail[i - 1] == assets[i]);
            }
        }
        if exists|i: int| 0 <= i < tail.len() && (#[trigger] tail[i]).name == name {
            let i = choose|i: int| 0 <= i < tail.len() && (#[trigger] tail[i]).name == name;
            assert(assets[i + 1] == tail[i]);
        }
    }
}

/// Of the files with the name, the first one's address is found.
pub proof fn the_first_listed_file_is_found(assets: Seq<AssetView>, name: Seq<char>, i: int)
    requires
        0 <= i < assets.len(),
        assets[i].name == name,
        forall|j: int| 0 <= j < i ==> (#[trigger] assets[j]).name != name,
    ensures
        asset_url(assets, name) == Some(assets[i].browser_download_url),
    decreases i,
{
    if i > 0 {
        assert(assets[0].name != name);
        let tail = assets.skip(1);
        assert forall|j: int| 0 <= j < i - 1 implies (#[trigger] tail[j]).name != name by {
            assert(tail[j] == assets[j + 1]);
        }
        the_first_listed_file_is_found(tail, name, i - 1);
    }
}

/// The address of a release names its repository, between two fixed texts; different
/// repositories have different addresses.
pub proof fn release_pages_name_their_repository(repo: Seq<char>, other: Seq<char>)
    ensures
        release_page(repo) == "https://api.github.com/repos/"@ + repo + "/releases/latest"@,
        release_page(repo) == release_page(other) ==> repo == other,
{
    reveal_strlit("https://api.github.com/repos/");
    reveal_strlit("/releases/latest");
    let n: int = "https://api.github.com/repos/"@.len() as int;
    assert(release_page(repo).subrange(n, n + repo.len()) =~= repo);
    assert(release_page(other).subrange(n, n + other.len()) =~= other);
}

/// The contracts speak of a release by its tag and by its files, in order.
pub proof fn a_release_is_seen_as_it_is(release: Release, i: int)
    ensures
        release@.tag_name == release.tag_name@,
        release@.assets.len() == release.assets@.len(),
        0 <= i < release.assets@.len() ==> release@.assets[i].name == release.assets@[i].name@,
        0 <= i < release.assets@.len() ==> release@.assets[i].browser_download_url
            == release.assets@[i].browser_download_url@,
{
}

} // verus!
