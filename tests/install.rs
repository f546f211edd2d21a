use std::collections::BTreeMap;

use priconevh::config::{AppConfig, FileError, FileService};
use priconevh::discovery::{DirTree, GameInfo};
use priconevh::install::{download_percent, BackupSet, FsOp, Stage, Step, TranslationInfo, TranslationService};
use priconevh::release::TranslationVersion;
use priconevh::scaled_percent;

const BACKUP: &str = "translation_backup";

type Files = BTreeMap<Vec<String>, Vec<u8>>;

/// A target directory in memory: its files and its manifest.
struct Target {
    files: Files,
    manifest: Option<(String, Vec<String>)>,
}

fn p(xs: &[&str]) -> Vec<String> {
    xs.iter().map(|x| x.to_string()).collect()
}

fn service() -> TranslationService {
    TranslationService::new("owner/repo".to_string())
}

fn version(v: &str) -> TranslationVersion {
    TranslationVersion {
        version: v.to_string(),
        release_date: String::new(),
        download_url: format!("https://example.invalid/{}.zip", v),
        file_size: 10,
        changelog: Vec::new(),
        download_count: 0,
    }
}

fn game(has_translation: bool) -> GameInfo {
    let mut g = GameInfo::new("/games/priconner".to_string());
    g.has_translation = has_translation;
    g
}

/// Runs `steps` on `t`; the step at index `fail_at`, if any, fails and stops the run.
fn run(steps: &[Step], t: &mut Target, pkg: &Files, fail_at: Option<usize>) -> bool {
    for (i, step) in steps.iter().enumerate() {
        if Some(i) == fail_at {
            return false;
        }
        match step {
            Step::Report(_) => {},
            Step::Apply(FsOp::ClearBackup) => t.files.retain(|k, _| k[0] != BACKUP),
            Step::Apply(FsOp::BackupEntry { name, .. }) => {
                let copies: Vec<(Vec<String>, Vec<u8>)> = t
                    .files
                    .iter()
                    .filter(|(k, _)| &k[0] == name)
                    .map(|(k, v)| {
                        let mut nk = vec![BACKUP.to_string()];
                        nk.extend(k.iter().cloned());
                        (nk, v.clone())
                    })
                    .collect();
                t.files.extend(copies);
            },
            Step::Apply(FsOp::RemoveEntry { name, .. }) => t.files.retain(|k, _| &k[0] != name),
            Step::Apply(FsOp::CopyIn { name }) => {
                for (k, v) in pkg.iter().filter(|(k, _)| &k[0] == name) {
                    t.files.insert(k.clone(), v.clone());
                }
            },
            Step::Apply(FsOp::WriteManifest { info }) => {
                t.manifest = Some((info.version.clone(), info.files.clone()))
            },
            Step::Apply(FsOp::RemoveManifest) => t.manifest = None,
        }
    }
    true
}

fn game_target() -> Target {
    let mut files = Files::new();
    files.insert(p(&["PrincessConnectReDive.exe"]), b"exe".to_vec());
    files.insert(p(&["PrincessConnectReDive_Data", "level0"]), b"data".to_vec());
    Target { files, manifest: None }
}

fn package(tag: &[u8]) -> Files {
    let mut pkg = Files::new();
    pkg.insert(p(&["BepInEx", "core", "loader.dll"]), tag.to_vec());
    pkg.insert(p(&["BepInEx", "config", "translation.cfg"]), tag.to_vec());
    pkg.insert(p(&["dxgi.dll"]), tag.to_vec());
    pkg.insert(p(&["doorstop_config.ini"]), tag.to_vec());
    pkg
}

fn outside_backup(f: &Files) -> Files {
    f.iter().filter(|(k, _)| k[0] != BACKUP).map(|(k, v)| (k.clone(), v.clone())).collect()
}

fn kinds(steps: &[Step]) -> Vec<String> {
    steps
        .iter()
        .map(|s| match s {
            Step::Report(g) => format!("report {:?}", g),
            Step::Apply(FsOp::ClearBackup) => "clear".to_string(),
            Step::Apply(FsOp::BackupEntry { name, .. }) => format!("backup {}", name),
            Step::Apply(FsOp::RemoveEntry { name, .. }) => format!("remove {}", name),
            Step::Apply(FsOp::CopyIn { name }) => format!("copy {}", name),
            Step::Apply(FsOp::WriteManifest { info }) => format!("manifest {}", info.version),
            Step::Apply(FsOp::RemoveManifest) => "unmanifest".to_string(),
        })
        .collect()
}

#[test]
fn default_footprint() {
    let set = BackupSet::default_set();
    assert_eq!(set.names(), p(&["BepInEx", "dotnet", ".doorstop_version", "doorstop_config.ini", "dxgi.dll"]));
    let dirs: Vec<bool> = set.entries.iter().map(|e| e.is_dir).collect();
    assert_eq!(dirs, vec![true, true, false, false, false]);
}

#[test]
fn stage_percents_rise_to_one_hundred() {
    let order = [
        Stage::Preparing,
        Stage::Downloading,
        Stage::Extracting,
        Stage::BackingUp,
        Stage::Removing,
        Stage::Copying,
        Stage::Finalizing,
        Stage::CleaningUp,
        Stage::Done,
    ];
    let ps: Vec<u64> = order.iter().map(|g| g.percent()).collect();
    assert_eq!(ps, vec![0, 10, 50, 60, 70, 80, 90, 95, 100]);
}

#[test]
fn download_progress_band() {
    assert_eq!(download_percent(5, 0), None);
    assert_eq!(download_percent(0, 100), Some(10));
    assert_eq!(download_percent(50, 100), Some(30));
    assert_eq!(download_percent(100, 100), Some(50));
    assert_eq!(download_percent(300, 100), Some(50));
    assert_eq!(download_percent(u64::MAX - 1, u64::MAX), Some(49));
    assert_eq!(scaled_percent(1, 3, 10, 80), 36);
}

#[test]
fn manifest_records_version_and_footprint() {
    let svc = service();
    let info: TranslationInfo = svc.create_translation_info("v20240501");
    assert_eq!(info.version, "v20240501");
    assert_eq!(info.files, svc.footprint.names());
    assert!(info.installed_date.contains('T'));
}

#[test]
fn fresh_install_plan() {
    let svc = service();
    let steps = svc.install_translation(&game(false), &version("v1"), &p(&["BepInEx", "dxgi.dll"]));
    assert_eq!(
        kinds(&steps),
        vec![
            "report BackingUp",
            "report Removing",
            "remove BepInEx",
            "remove dotnet",
            "remove .doorstop_version",
            "remove doorstop_config.ini",
            "remove dxgi.dll",
            "report Copying",
            "copy BepInEx",
            "copy dxgi.dll",
            "report Finalizing",
            "manifest v1",
        ]
    );
}

#[test]
fn install_over_existing_backs_up_first() {
    let svc = service();
    let steps = svc.update_translation(&game(true), &version("v2"), &p(&["BepInEx"]));
    let k = kinds(&steps);
    assert_eq!(
        k[..8].to_vec(),
        vec![
            "report BackingUp",
            "clear",
            "backup BepInEx",
            "backup dotnet",
            "backup .doorstop_version",
            "backup doorstop_config.ini",
            "backup dxgi.dll",
            "report Removing",
        ]
    );
    assert_eq!(k.last().unwrap(), "manifest v2");
}

#[test]
fn uninstall_plan() {
    let svc = service();
    let k = kinds(&svc.uninstall_translation());
    assert_eq!(k.len(), 14);
    assert_eq!(k[0], "report BackingUp");
    assert_eq!(k[1], "clear");
    assert_eq!(k[7], "report Removing");
    assert_eq!(k[8], "remove BepInEx");
    assert_eq!(k[13], "unmanifest");
}

#[test]
fn install_then_uninstall_restores_file_set() {
    let svc = service();
    let mut t = game_target();
    let before = t.files.clone();
    let pkg = package(b"v1");
    let entries = p(&["BepInEx", "dxgi.dll", "doorstop_config.ini"]);
    assert!(run(&svc.install_translation(&game(false), &version("v1"), &entries), &mut t, &pkg, None));
    assert_eq!(t.files.get(&p(&["dxgi.dll"])), Some(&b"v1".to_vec()));
    assert!(t.manifest.is_some());
    assert!(run(&svc.uninstall_translation(), &mut t, &pkg, None));
    assert_eq!(outside_backup(&t.files), before);
    assert!(t.manifest.is_none());
    assert!(t.files.contains_key(&p(&[BACKUP, "dxgi.dll"])));
}

#[test]
fn update_leaves_only_new_footprint_files() {
    let svc = service();
    let mut t = game_target();
    let entries = p(&["BepInEx", "dxgi.dll", "doorstop_config.ini"]);
    assert!(run(&svc.install_translation(&game(false), &version("v1"), &entries), &mut t, &package(b"v1"), None));
    t.files.insert(p(&["BepInEx", "plugins", "stale.dll"]), b"old".to_vec());
    t.files.insert(p(&["dotnet", "runtime.dll"]), b"old".to_vec());
    let v2 = package(b"v2");
    assert!(run(&svc.update_translation(&game(true), &version("v2"), &entries), &mut t, &v2, None));
    let footprint = svc.footprint.names();
    let inside: Files = t
        .files
        .iter()
        .filter(|(k, _)| footprint.contains(&k[0]))
        .map(|(k, v)| (k.clone(), v.clone()))
        .collect();
    assert_eq!(inside, v2);
    assert_eq!(t.manifest.as_ref().unwrap().0, "v2");
    assert_eq!(t.files.get(&p(&[BACKUP, "BepInEx", "plugins", "stale.dll"])), Some(&b"old".to_vec()));
}

#[test]
fn failed_backup_leaves_target_untouched() {
    let svc = service();
    let mut t = game_target();
    let entries = p(&["BepInEx", "dxgi.dll", "doorstop_config.ini"]);
    assert!(run(&svc.install_translation(&game(false), &version("v1"), &entries), &mut t, &package(b"v1"), None));
    let files_before = outside_backup(&t.files);
    let manifest_before = t.manifest.clone();
    let steps = svc.update_translation(&game(true), &version("v2"), &entries);
    // the copy of the third footprint entry fails
    assert!(!run(&steps, &mut t, &package(b"v2"), Some(4)));
    assert_eq!(outside_backup(&t.files), files_before);
    assert_eq!(t.manifest, manifest_before);
}

fn file(name: &str) -> DirTree {
    DirTree { name: name.to_string(), is_dir: false, children: Vec::new() }
}

fn dir(name: &str, children: Vec<DirTree>) -> DirTree {
    DirTree { name: name.to_string(), is_dir: true, children }
}

#[test]
fn package_root_inside_wrapper_folder() {
    let svc = service();
    let extracted = dir(
        "extracted",
        vec![
            file("README.txt"),
            dir("docs", vec![file("a.md")]),
            dir("PriconneTL_20240501-VH", vec![dir("BepInEx", Vec::new()), file("dxgi.dll")]),
        ],
    );
    assert_eq!(svc.find_package_root(&extracted, 3), Some(p(&["PriconneTL_20240501-VH"])));
}

#[test]
fn package_root_is_the_extraction_root() {
    let svc = service();
    let extracted = dir("extracted", vec![dir("wrap", vec![dir("BepInEx", Vec::new())]), file("dxgi.dll")]);
    assert_eq!(svc.find_package_root(&extracted, 3), Some(Vec::new()));
}

#[test]
fn package_root_breadth_first_and_bounded() {
    let svc = service();
    let extracted = dir(
        "extracted",
        vec![
            dir("a", vec![dir("deep", vec![file("dxgi.dll")])]),
            dir("b", vec![dir("dotnet", Vec::new())]),
        ],
    );
    assert_eq!(svc.find_package_root(&extracted, 3), Some(p(&["b"])));
    assert_eq!(svc.find_package_root(&extracted, 0), None);
    let none = dir("extracted", vec![dir("x", vec![file("y")])]);
    assert_eq!(svc.find_package_root(&none, 5), None);
}

#[test]
fn whole_directory_backup_location() {
    assert_eq!(
        FileService::create_backup(&p(&["/", "games", "priconner"]), "priconner"),
        Ok(p(&["/", "games", "priconner_backup"]))
    );
    assert_eq!(FileService::create_backup(&p(&["/"]), "root"), Err(FileError::NoParent));
}

#[test]
fn default_config() {
    let c = AppConfig::default();
    assert_eq!(c.game_path, None);
    assert!(c.auto_update);
    assert!(!c.auto_start);
    assert_eq!(c.github_repo, "TomiWixoss/priconevh");
    assert!(c.check_update_on_startup);
    assert_eq!(c.language, "vi");
}

#[test]
fn failed_backup_before_uninstall_leaves_target_untouched() {
    let svc = service();
    let mut t = game_target();
    let entries = p(&["BepInEx", "dxgi.dll", "doorstop_config.ini"]);
    assert!(run(&svc.install_translation(&game(false), &version("v1"), &entries), &mut t, &package(b"v1"), None));
    let files_before = outside_backup(&t.files);
    let manifest_before = t.manifest.clone();
    // the copy of the first footprint entry fails
    assert!(!run(&svc.uninstall_translation(), &mut t, &Files::new(), Some(2)));
    assert_eq!(outside_backup(&t.files), files_before);
    assert_eq!(t.manifest, manifest_before);
}

#[test]
fn package_root_search_without_depth_bound() {
    let svc = service();
    let extracted = dir("extracted", vec![dir("a", vec![dir("b", vec![dir("c", vec![file("dxgi.dll")])])])]);
    assert_eq!(svc.find_package_root(&extracted, usize::MAX), Some(p(&["a", "b", "c"])));
    let none = dir("extracted", vec![dir("x", vec![file("y")])]);
    assert_eq!(svc.find_package_root(&none, usize::MAX), None);
}
