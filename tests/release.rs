use priconevh::release::{
    release_version, GitHubAsset, GitHubRelease, GitHubService, ReleaseError, TranslationPack,
    TranslationVersion, UpdaterService,
};
use priconevh::text::{changelog_lines, contains, ends_with, starts_with, str_less, trim_start_char};

fn asset(name: &str, url: &str) -> GitHubAsset {
    GitHubAsset { name: name.to_string(), size: 1234, browser_download_url: url.to_string(), download_count: 7 }
}

fn release(tag: &str, body: &str, assets: Vec<GitHubAsset>) -> GitHubRelease {
    GitHubRelease {
        tag_name: tag.to_string(),
        name: format!("Release {}", tag),
        published_at: "2024-05-01T00:00:00Z".to_string(),
        body: body.to_string(),
        assets,
    }
}

fn version(v: &str) -> TranslationVersion {
    TranslationVersion {
        version: v.to_string(),
        release_date: String::new(),
        download_url: String::new(),
        file_size: 0,
        changelog: Vec::new(),
        download_count: 0,
    }
}

#[test]
fn text_helpers_on_concrete_values() {
    assert!(ends_with("PriconneTL_1.zip", ".zip"));
    assert!(!ends_with("zip", ".zip"));
    assert!(contains("PriconneTL_1.zip", "PriconneTL"));
    assert!(!contains("Priconne_1.zip", "PriconneTL"));
    assert!(starts_with("$recycle.bin", "$"));
    assert!(str_less("1.2", "1.3"));
    assert!(!str_less("1.3", "1.3"));
    assert!(str_less("1.3", "1.3.1"));
    assert_eq!(trim_start_char("vv1.0", 'v'), "1.0");
    assert_eq!(trim_start_char("1.0v", 'v'), "1.0v");
}

#[test]
fn changelog_trims_lines_and_drops_empty_ones() {
    let body = "  Fixed menus  \r\n\n   \n- New font\nlast";
    assert_eq!(changelog_lines(body), vec!["Fixed menus", "- New font", "last"]);
    assert!(changelog_lines("").is_empty());
}

#[test]
fn release_version_takes_first_matching_asset() {
    let rel = release(
        "v2",
        "notes",
        vec![
            asset("readme.txt", "u0"),
            asset("PriconneTL_20240501.zip", "u1"),
            asset("PriconneTL_other.zip", "u2"),
        ],
    );
    let v = release_version(&rel).ok().unwrap();
    assert_eq!(v.version, "v2");
    assert_eq!(v.download_url, "u1");
    assert_eq!(v.file_size, 1234);
    assert_eq!(v.download_count, 7);
    assert_eq!(v.release_date, "2024-05-01T00:00:00Z");
    assert_eq!(v.changelog, vec!["notes"]);
}

#[test]
fn check_for_updates_reports_no_matching_asset() {
    let svc = GitHubService::new("owner/repo".to_string());
    let latest = release("v2", "", vec![asset("source.tar.gz", "u0"), asset("other.zip", "u1")]);
    let r = svc.check_for_updates(&latest, "v1");
    assert!(matches!(r, Err(ReleaseError::NoMatchingAsset)));
}

#[test]
fn check_for_updates_same_tag_offers_nothing() {
    let svc = GitHubService::new("owner/repo".to_string());
    let latest = release("v2", "", vec![asset("source.tar.gz", "u0")]);
    assert!(matches!(svc.check_for_updates(&latest, "v2"), Ok(None)));
}

#[test]
fn check_for_updates_offers_the_new_version() {
    let svc = GitHubService::new("owner/repo".to_string());
    let latest = release("v3", "a\nb", vec![asset("PriconneTL_v3.zip", "u3")]);
    let v = svc.check_for_updates(&latest, "v2").ok().unwrap().unwrap();
    assert_eq!(v.version, "v3");
    assert_eq!(v.download_url, "u3");
    assert_eq!(v.changelog, vec!["a", "b"]);
}

#[test]
fn translation_pack_keeps_releases_with_a_package() {
    let svc = GitHubService::new("owner/repo".to_string());
    let rels = vec![
        release("v3", "", vec![asset("PriconneTL_3.zip", "u3")]),
        release("v2", "", vec![asset("notes.md", "n")]),
        release("v1", "", vec![asset("PriconneTL_1.zip", "u1")]),
    ];
    let pack = svc.get_translation_pack(&rels).ok().unwrap();
    assert_eq!(pack.github_repo, "owner/repo");
    assert_eq!(pack.latest_version, "v3");
    let tags: Vec<&str> = pack.versions.iter().map(|v| v.version.as_str()).collect();
    assert_eq!(tags, vec!["v3", "v1"]);
    assert_eq!(pack.get_latest().unwrap().download_url, "u3");
    assert_eq!(pack.get_version("v1").unwrap().download_url, "u1");
    assert!(pack.get_version("v2").is_none());
}

#[test]
fn translation_pack_of_empty_feed() {
    let svc = GitHubService::new("owner/repo".to_string());
    let pack = svc.get_translation_pack(&Vec::new()).ok().unwrap();
    assert_eq!(pack.latest_version, "");
    assert!(pack.versions.is_empty());
}

#[test]
fn translation_pack_lookup() {
    let mut pack = TranslationPack::new("o/r".to_string());
    assert!(pack.get_latest().is_none());
    pack.versions.push(version("v2"));
    pack.versions.push(version("v1"));
    assert_eq!(pack.get_latest().unwrap().version, "v2");
    assert_eq!(pack.get_version("v1").unwrap().version, "v1");
    assert!(pack.get_version("v1.0").is_none());
}

#[test]
fn newer_version_is_plain_text_order_after_leading_v() {
    let up = UpdaterService::new("v1.2.0".to_string());
    assert!(up.is_newer_version("v1.3.0"));
    assert!(up.is_newer_version("1.2.1"));
    assert!(!up.is_newer_version("v1.2.0"));
    assert!(!up.is_newer_version("v1.1.9"));
    // text order, not version order: "10.0" sorts before "9.0"
    let nine = UpdaterService::new("9.0".to_string());
    assert!(!nine.is_newer_version("10.0"));
}

#[test]
fn app_update_uses_first_installer_case_insensitively() {
    let up = UpdaterService::new("v1.0.0".to_string());
    let latest = release(
        "v1.1.0",
        " fixes \n",
        vec![asset("latest.json", "j"), asset("Setup_x64.EXE", "e"), asset("app.msi", "m")],
    );
    let info = up.check_for_updates(&latest).ok().unwrap().unwrap();
    assert_eq!(info.version, "v1.1.0");
    assert_eq!(info.current_version, "v1.0.0");
    assert_eq!(info.download_url, "e");
    assert_eq!(info.changelog, vec!["fixes"]);
}

#[test]
fn app_update_without_installer_is_an_error() {
    let up = UpdaterService::new("v1.0.0".to_string());
    let latest = release("v1.1.0", "", vec![asset("latest.json", "j")]);
    assert!(matches!(up.check_for_updates(&latest), Err(ReleaseError::NoMatchingAsset)));
    let old = release("v0.9.0", "", vec![asset("app.msi", "m")]);
    assert!(matches!(up.check_for_updates(&old), Ok(None)));
}

#[test]
fn translation_pack_without_package_in_latest_release() {
    let svc = GitHubService::new("owner/repo".to_string());
    let rels = vec![
        release("v3", "", vec![asset("notes.md", "n")]),
        release("v2", "", vec![asset("PriconneTL_2.zip", "u2")]),
    ];
    assert!(matches!(svc.get_translation_pack(&rels), Err(ReleaseError::NoMatchingAsset)));
}
