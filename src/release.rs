//! Releases of the feed, the packages and installers they offer, and the
//! decision whether one is newer than what is installed.
use vstd::prelude::*;
use crate::text::{
    changelog_lines, contains, ends_with, has_infix, has_suffix, lex_less, lines_of, lower_of,
    lowercase, non_empty, str_less, strip_leading, trim_start_char, trimmed_of,
};

verus! {

/// A downloadable file attached to a release.
#[derive(Clone, Debug)]
pub struct GitHubAsset {
    pub name: String,
    pub size: u64,
    pub browser_download_url: String,
    pub download_count: u64,
}

/// One release of the feed.
#[derive(Clone, Debug)]
pub struct GitHubRelease {
    pub tag_name: String,
    pub name: String,
    pub published_at: String,
    pub body: String,
    pub assets: Vec<GitHubAsset>,
}

/// An installable version of the content package.
#[derive(Clone, Debug)]
pub struct TranslationVersion {
    pub version: String,
    pub release_date: String,
    pub download_url: String,
    pub file_size: u64,
    pub changelog: Vec<String>,
    pub download_count: u64,
}

/// Every installable version of the package, newest first.
#[derive(Clone, Debug)]
pub struct TranslationPack {
    pub latest_version: String,
    pub versions: Vec<TranslationVersion>,
    pub github_repo: String,
}

/// A newer build of the application itself.
#[derive(Clone, Debug)]
pub struct AppUpdateInfo {
    pub version: String,
    pub current_version: String,
    pub release_date: String,
    pub download_url: String,
    pub file_size: u64,
    pub changelog: Vec<String>,
}

/// Why a release could not be turned into something to install.
#[derive(Clone, Copy, Debug, PartialEq, Eq, Structural)]
pub enum ReleaseError {
    /// No asset of the release passes the filter.
    NoMatchingAsset,
}

/// The asset name of a content package: a zip archive carrying the product marker.
pub open spec fn is_pack_asset(name: Seq<char>) -> bool {
    has_suffix(name, ".zip"@) && has_infix(name, "PriconneTL"@)
}

/// The asset name of an application installer, compared in lower case.
pub open spec fn is_installer_asset(name: Seq<char>) -> bool {
    has_suffix(lower_of(name), ".msi"@) || has_suffix(lower_of(name), ".exe"@)
}

/// Index of the first asset at or after `from` that `keep` accepts, or the length if none.
pub open spec fn first_from(assets: Seq<GitHubAsset>, from: int, keep: spec_fn(Seq<char>) -> bool) -> int
    decreases assets.len() - from,
{
    if from < 0 || from >= assets.len() {
        assets.len() as int
    } else if keep(assets[from].name@) {
        from
    } else {
        first_from(assets, from + 1, keep)
    }
}

/// Index of the first package asset, or the length if there is none.
pub open spec fn pack_asset_index(assets: Seq<GitHubAsset>) -> int {
    first_from(assets, 0, |n: Seq<char>| is_pack_asset(n))
}

/// Index of the first installer asset, or the length if there is none.
pub open spec fn installer_asset_index(assets: Seq<GitHubAsset>) -> int {
    first_from(assets, 0, |n: Seq<char>| is_installer_asset(n))
}

/// The changelog of a release body: its lines trimmed, empty ones left out.
pub open spec fn changelog_of(body: Seq<char>) -> Seq<Seq<char>> {
    non_empty(lines_of(body).map_values(|l: Seq<char>| trimmed_of(l)))
}

/// `v` is the package version that `rel` offers through its asset `a`.
pub open spec fn describes(v: TranslationVersion, rel: GitHubRelease, a: GitHubAsset) -> bool {
    &&& v.version@ == rel.tag_name@
    &&& v.release_date@ == rel.published_at@
    &&& v.download_url@ == a.browser_download_url@
    &&& v.file_size == a.size
    &&& v.changelog.deep_view() == changelog_of(rel.body@)
    &&& v.download_count == a.download_count
}

/// The release offers a package asset.
pub open spec fn offers_pack(rel: GitHubRelease) -> bool {
    pack_asset_index(rel.assets@) < rel.assets@.len()
}

/// `v` is the package version offered by `rel`.
pub open spec fn version_of_release(v: TranslationVersion, rel: GitHubRelease) -> bool {
    offers_pack(rel) && describes(v, rel, rel.assets@[pack_asset_index(rel.assets@)])
}

/// The releases that offer a package, in feed order.
pub open spec fn releases_with_pack(rels: Seq<GitHubRelease>) -> Seq<GitHubRelease>
    decreases rels.len(),
{
    if rels.len() == 0 {
        Seq::empty()
    } else if offers_pack(rels.last()) {
        releases_with_pack(rels.drop_last()).push(rels.last())
    } else {
        releases_with_pack(rels.drop_last())
    }
}

/// Whether `candidate` is newer than `current`, both with leading `v` removed and
/// compared as text.
pub open spec fn newer_than(current: Seq<char>, candidate: Seq<char>) -> bool {
    lex_less(strip_leading(current, 'v'), strip_leading(candidate, 'v'))
}

fn is_pack_name(name: &String) -> (r: bool)
    ensures
        r == is_pack_asset(name@),
{
    ends_with(name.as_str(), ".zip") && contains(name.as_str(), "PriconneTL")
}

fn is_installer_name(name: &String) -> (r: bool)
    ensures
        r == is_installer_asset(name@),
{
    let lower = lowercase(name.as_str());
    ends_with(lower.as_str(), ".msi") || ends_with(lower.as_str(), ".exe")
}

proof fn lemma_first_from_skip(assets: Seq<GitHubAsset>, i: int, keep: spec_fn(Seq<char>) -> bool)
    requires
        0 <= i <= assets.len(),
        forall|j: int| 0 <= j < i ==> !keep(#[trigger] assets[j].name@),
    ensures
        first_from(assets, 0, keep) == first_from(assets, i, keep),
    decreases i,
{
    if i > 0 {
        lemma_first_from_skip(assets, i - 1, keep);
    }
}

/// Index of the first package asset of `assets`, if any.
pub fn find_pack_asset(assets: &Vec<GitHubAsset>) -> (r: Option<usize>)
    ensures
        r is Some <==> pack_asset_index(assets@) < assets@.len(),
        r is Some ==> r->Some_0 == pack_asset_index(assets@),
{
    let mut i: usize = 0;
    while i < assets.len()
        invariant
            i <= assets@.len(),
            forall|j: int| 0 <= j < i ==> !is_pack_asset(#[trigger] assets@[j].name@),
        decreases assets@.len() - i,
    {
        if is_pack_name(&assets[i].name) {
            proof { lemma_first_from_skip(assets@, i as int, |n: Seq<char>| is_pack_asset(n)); }
            return Some(i);
        }
        i += 1;
    }
    proof { lemma_first_from_skip(assets@, i as int, |n: Seq<char>| is_pack_asset(n)); }
    None
}

/// Index of the first installer asset of `assets`, if any.
pub fn find_installer_asset(assets: &Vec<GitHubAsset>) -> (r: Option<usize>)
    ensures
        r is Some <==> installer_asset_index(assets@) < assets@.len(),
        r is Some ==> r->Some_0 == installer_asset_index(assets@),
{
    let mut i: usize = 0;
    while i < assets.len()
        invariant
            i <= assets@.len(),
            forall|j: int| 0 <= j < i ==> !is_installer_asset(#[trigger] assets@[j].name@),
        decreases assets@.len() - i,
    {
        if is_installer_name(&assets[i].name) {
            proof { lemma_first_from_skip(assets@, i as int, |n: Seq<char>| is_installer_asset(n)); }
            return Some(i);
        }
        i += 1;
    }
    proof { lemma_first_from_skip(assets@, i as int, |n: Seq<char>| is_installer_asset(n)); }
    None
}

/// The package version that `rel` offers through `asset`.
fn version_from(rel: &GitHubRelease, asset: &GitHubAsset) -> (r: TranslationVersion)
    ensures
        describes(r, *rel, *asset),
{
    TranslationVersion {
        version: rel.tag_name.clone(),
        release_date: rel.published_at.clone(),
        download_url: asset.browser_download_url.clone(),
        file_size: asset.size,
        changelog: changelog_lines(rel.body.as_str()),
        download_count: asset.download_count,
    }
}

/// The package version offered by a release; `NoMatchingAsset` when it offers none.
pub fn release_version(rel: &GitHubRelease) -> (r: Result<TranslationVersion, ReleaseError>)
    ensures
        r is Ok <==> offers_pack(*rel),
        r is Ok ==> version_of_release(r->Ok_0, *rel),
        r is Err ==> r->Err_0 == ReleaseError::NoMatchingAsset,
{
    match find_pack_asset(&rel.assets) {
        Some(i) => Ok(version_from(rel, &rel.assets[i])),
        None => Err(ReleaseError::NoMatchingAsset),
    }
}

impl TranslationPack {
    /// An empty pack for a repository.
    pub fn new(github_repo: String) -> (r: Self)
        ensures
            r.latest_version@.len() == 0,
            r.versions@.len() == 0,
            r.github_repo@ == github_repo@,
    {
        TranslationPack { latest_version: String::new(), versions: Vec::new(), github_repo }
    }

    /// The newest version, the first of the list.
    pub fn get_latest(&self) -> (r: Option<&TranslationVersion>)
        ensures
            self.versions@.len() == 0 ==> r is None,
            self.versions@.len() > 0 ==> r == Some(&self.versions@[0]),
    {
        if self.versions.len() == 0 {
            None
        } else {
            Some(&self.versions[0])
        }
    }

    /// The first version whose name is `version`.
    pub fn get_version(&self, version: &str) -> (r: Option<&TranslationVersion>)
        ensures
            r is None <==> forall|j: int|
                0 <= j < self.versions@.len() ==> #[trigger] self.versions@[j].version@ != version@,
            r is Some ==> exists|i: int|
                0 <= i < self.versions@.len() && r == Some(&self.versions@[i])
                    && self.versions@[i].version@ == version@
                    && forall|j: int| 0 <= j < i ==> #[trigger] self.versions@[j].version@ != version@,
    {
        let target = version.to_string();
        let mut i: usize = 0;
        while i < self.versions.len()
            invariant
                i <= self.versions@.len(),
                target@ == version@,
                forall|j: int| 0 <= j < i ==> #[trigger] self.versions@[j].version@ != version@,
            decreases self.versions@.len() - i,
        {
            let v = &self.versions[i];
            if v.version == target {
                return Some(v);
            }
            i += 1;
        }
        None
    }
}

/// The source of releases for one repository.
pub struct GitHubService {
    pub repo: String,
}

impl GitHubService {
    /// A service for a repository named `owner/name`.
    pub fn new(repo: String) -> (r: Self)
        ensures
            r.repo@ == repo@,
    {
        GitHubService { repo }
    }

    /// The pack built from the releases of the feed, newest first: the latest
    /// version is the first release's tag, and each release that offers a
    /// package asset contributes one version, in order. The newest release
    /// must offer one: when it does not, the result is `NoMatchingAsset`.
    /// Older releases without one are not installable and are not listed.
    pub fn get_translation_pack(&self, releases: &Vec<GitHubRelease>) -> (r: Result<TranslationPack, ReleaseError>)
        ensures
            r is Err <==> releases@.len() > 0 && !offers_pack(releases@[0]),
            r is Err ==> r->Err_0 == ReleaseError::NoMatchingAsset,
            r is Ok ==> ({
                let pack = r->Ok_0;
                &&& pack.github_repo@ == self.repo@
                &&& releases@.len() == 0 ==> pack.latest_version@.len() == 0
                &&& releases@.len() > 0 ==> pack.latest_version@ == releases@[0].tag_name@
                &&& pack.versions@.len() == releases_with_pack(releases@).len()
                &&& forall|k: int| 0 <= k < pack.versions@.len() ==>
                    version_of_release(#[trigger] pack.versions@[k], releases_with_pack(releases@)[k])
            }),
    {
        if releases.len() > 0 && find_pack_asset(&releases[0].assets).is_none() {
            return Err(ReleaseError::NoMatchingAsset);
        }
        let mut pack = TranslationPack::new(self.repo.clone());
        if releases.len() > 0 {
            pack.latest_version = releases[0].tag_name.clone();
        }
        let mut i: usize = 0;
        while i < releases.len()
            invariant
                i <= releases@.len(),
                pack.github_repo@ == self.repo@,
                releases@.len() == 0 ==> pack.latest_version@.len() == 0,
                releases@.len() > 0 ==> pack.latest_version@ == releases@[0].tag_name@,
                pack.versions@.len() == releases_with_pack(releases@.subrange(0, i as int)).len(),
                forall|k: int| 0 <= k < pack.versions@.len() ==>
                    version_of_release(#[trigger] pack.versions@[k],
                        releases_with_pack(releases@.subrange(0, i as int))[k]),
            decreases releases@.len() - i,
        {
            let ghost pre = releases@.subrange(0, i as int);
            assert(releases@.subrange(0, i + 1).drop_last() =~= pre);
            match release_version(&releases[i]) {
                Ok(v) => {
                    pack.versions.push(v);
                },
                Err(_) => {},
            }
            i += 1;
        }
        assert(releases@.subrange(0, releases@.len() as int) =~= releases@);
        Ok(pack)
    }

    /// What to offer when `latest` is the newest release and `current_version`
    /// is installed: nothing when its tag equals the installed version,
    /// otherwise the package version it offers, or `NoMatchingAsset`.
    pub fn check_for_updates(&self, latest: &GitHubRelease, current_version: &str) -> (r: Result<
        Option<TranslationVersion>,
        ReleaseError,
    >)
        ensures
            latest.tag_name@ == current_version@ ==> r == Ok::<Option<TranslationVersion>, ReleaseError>(None),
            latest.tag_name@ != current_version@ && !offers_pack(*latest) ==> r == Err::<
                Option<TranslationVersion>,
                ReleaseError,
            >(ReleaseError::NoMatchingAsset),
            latest.tag_name@ != current_version@ && offers_pack(*latest) ==> r is Ok && r->Ok_0 is Some
                && version_of_release(r->Ok_0->Some_0, *latest),
    {
        let cur = current_version.to_string();
        if latest.tag_name == cur {
            return Ok(None);
        }
        match release_version(latest) {
            Ok(v) => Ok(Some(v)),
            Err(e) => Err(e),
        }
    }
}

/// The application's own update check.
pub struct UpdaterService {
    pub current_version: String,
}

impl UpdaterService {
    /// An update check for the running version.
    pub fn new(current_version: String) -> (r: Self)
        ensures
            r.current_version@ == current_version@,
    {
        UpdaterService { current_version }
    }

    /// Whether `new_version` is newer than the running one (see `newer_than`).
    pub fn is_newer_version(&self, new_version: &str) -> (r: bool)
        ensures
            r == newer_than(self.current_version@, new_version@),
    {
        let current = trim_start_char(self.current_version.as_str(), 'v');
        let new = trim_start_char(new_version, 'v');
        str_less(current.as_str(), new.as_str())
    }

    /// What to offer when `latest` is the newest release: nothing unless it is
    /// newer; otherwise its first installer asset, or `NoMatchingAsset`.
    pub fn check_for_updates(&self, latest: &GitHubRelease) -> (r: Result<Option<AppUpdateInfo>, ReleaseError>)
        ensures
            !newer_than(self.current_version@, latest.tag_name@) ==> r == Ok::<
                Option<AppUpdateInfo>,
                ReleaseError,
            >(None),
            newer_than(self.current_version@, latest.tag_name@)
                && installer_asset_index(latest.assets@) == latest.assets@.len() ==> r == Err::<
                Option<AppUpdateInfo>,
                ReleaseError,
            >(ReleaseError::NoMatchingAsset),
            newer_than(self.current_version@, latest.tag_name@)
                && installer_asset_index(latest.assets@) < latest.assets@.len() ==> r is Ok
                && r->Ok_0 is Some && ({
                let u = r->Ok_0->Some_0;
                let a = latest.assets@[installer_asset_index(latest.assets@)];
                &&& u.version@ == latest.tag_name@
                &&& u.current_version@ == self.current_version@
                &&& u.release_date@ == latest.published_at@
                &&& u.download_url@ == a.browser_download_url@
                &&& u.file_size == a.size
                &&& u.changelog.deep_view() == changelog_of(latest.body@)
            }),
    {
        if !self.is_newer_version(latest.tag_name.as_str()) {
            return Ok(None);
        }
        match find_installer_asset(&latest.assets) {
            None => Err(ReleaseError::NoMatchingAsset),
            Some(i) => {
                let a = &latest.assets[i];
                Ok(
                    Some(
                        AppUpdateInfo {
                            version: latest.tag_name.clone(),
                            current_version: self.current_version.clone(),
                            release_date: latest.published_at.clone(),
                            download_url: a.browser_download_url.clone(),
                            file_size: a.size,
                            changelog: changelog_lines(latest.body.as_str()),
                        },
                    ),
                )
            },
        }
    }
}

} // verus!
