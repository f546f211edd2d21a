use priconevh::discovery::{
    collect_priconner_folders, contains_name, find_all_priconner_folders, Candidate, DirTree, DirectorySignature,
    GameInfo, GameService, Probe, ScanDecision, ScanPolicy,
};

fn s(x: &str) -> String {
    x.to_string()
}

fn names(xs: &[&str]) -> Vec<String> {
    xs.iter().map(|x| x.to_string()).collect()
}

fn file(name: &str) -> DirTree {
    DirTree { name: s(name), is_dir: false, children: Vec::new() }
}

fn dir(name: &str, children: Vec<DirTree>) -> DirTree {
    DirTree { name: s(name), is_dir: true, children }
}

fn game_files() -> Vec<DirTree> {
    vec![
        file("PrincessConnectReDive.exe"),
        file("UnityPlayer.dll"),
        file("GameAssembly.dll"),
        dir("PrincessConnectReDive_Data", Vec::new()),
    ]
}

fn full_listing() -> Vec<String> {
    names(&["PrincessConnectReDive.exe", "UnityPlayer.dll", "GameAssembly.dll", "PrincessConnectReDive_Data"])
}

fn policy() -> ScanPolicy {
    ScanPolicy {
        skip_names: names(&["windows", "system volume information", "recovery", "perflogs", "node_modules", ".git"]),
        skip_prefixes: names(&["$"]),
        target: s("priconner"),
    }
}

fn probe(path: &[&str], exists: bool, entries: Vec<String>) -> Probe {
    Probe { path: names(path), exists, entries }
}

#[test]
fn game_signature_names() {
    let sig = DirectorySignature::game();
    assert_eq!(sig.required_files, names(&["PrincessConnectReDive.exe", "UnityPlayer.dll", "GameAssembly.dll"]));
    assert_eq!(sig.required_dirs, names(&["PrincessConnectReDive_Data"]));
}

#[test]
fn complete_directory_validates() {
    let sig = DirectorySignature::game();
    let mut info = GameInfo::new(s("/games/priconner"));
    assert!(!info.is_valid);
    assert!(info.validate(&sig, &full_listing()));
    assert!(info.is_valid);
    assert!(info.get_missing_files(&sig, &full_listing()).is_empty());
}

#[test]
fn missing_one_file_is_reported_exactly() {
    let sig = DirectorySignature::game();
    let listing = names(&["PrincessConnectReDive.exe", "GameAssembly.dll", "PrincessConnectReDive_Data"]);
    let mut info = GameInfo::new(s("/games/priconner"));
    assert!(!info.validate(&sig, &listing));
    assert_eq!(info.get_missing_files(&sig, &listing), vec!["UnityPlayer.dll"]);
    let err = GameService::validate_game_path(&sig, s("/games/priconner"), &listing, None).err().unwrap();
    assert_eq!(err.missing, vec!["UnityPlayer.dll"]);
}

#[test]
fn missing_items_list_files_then_directories() {
    let sig = DirectorySignature::game();
    let listing = names(&["UnityPlayer.dll"]);
    assert_eq!(
        sig.missing_items(&listing),
        vec!["PrincessConnectReDive.exe", "GameAssembly.dll", "PrincessConnectReDive_Data/"]
    );
    assert_eq!(sig.missing_items(&Vec::new()).len(), 4);
}

#[test]
fn validation_repeats_and_ignores_listing_order() {
    let sig = DirectorySignature::game();
    let a = names(&["GameAssembly.dll", "x.txt"]);
    let b = names(&["x.txt", "GameAssembly.dll", "x.txt"]);
    let first = sig.missing_items(&a);
    assert_eq!(first, sig.missing_items(&a));
    assert_eq!(first, sig.missing_items(&b));
    assert_eq!(sig.is_satisfied_by(&a), sig.is_satisfied_by(&b));
}

#[test]
fn contains_name_matches_whole_names() {
    let xs = names(&["abc", "de"]);
    assert!(contains_name(&xs, &s("de")));
    assert!(!contains_name(&xs, &s("d")));
    assert!(!contains_name(&Vec::new(), &s("")));
}

#[test]
fn marker_version_is_read_from_json() {
    let sig = DirectorySignature::game();
    let mut listing = full_listing();
    listing.push(s("translation_info.json"));
    let text = r#"{"version": "v20240501", "installed_date": "2024-05-01T00:00:00Z", "files": []}"#;
    let info = GameService::validate_game_path(&sig, s("/g"), &listing, Some(text)).ok().unwrap();
    assert!(info.is_valid);
    assert!(info.has_translation);
    assert_eq!(info.translation_version.as_deref(), Some("v20240501"));
}

#[test]
fn malformed_marker_means_no_version() {
    let sig = DirectorySignature::game();
    let mut listing = full_listing();
    listing.push(s("translation_info.json"));
    let info = GameService::validate_game_path(&sig, s("/g"), &listing, Some("not json")).ok().unwrap();
    assert!(info.has_translation);
    assert_eq!(info.translation_version, None);
    let no_marker = GameService::validate_game_path(&sig, s("/g"), &full_listing(), Some("{\"version\":\"x\"}"))
        .ok()
        .unwrap();
    assert!(!no_marker.has_translation);
    assert_eq!(no_marker.translation_version, None);
}

#[test]
fn check_translation_keeps_version_on_bad_text() {
    let mut info = GameInfo::new(s("/g"));
    assert!(info.check_translation(true, Some("{\"version\": \"1.0\"}")));
    assert_eq!(info.translation_version.as_deref(), Some("1.0"));
    assert!(info.check_translation(true, Some("{broken")));
    assert_eq!(info.translation_version.as_deref(), Some("1.0"));
    assert!(info.check_translation(true, Some("{\"version\": 3}")));
    assert_eq!(info.translation_version, None);
    assert!(!info.check_translation(false, None));
    assert!(!info.has_translation);
}

#[test]
fn scan_skips_excluded_and_stops_at_matches() {
    let tree = dir(
        "/home/u",
        vec![
            dir("node_modules", vec![dir("priconner", game_files())]),
            dir("$Recycle.Bin", vec![dir("priconner", game_files())]),
            file("priconner"),
            dir("Games", vec![dir("PriConner", vec![dir("priconner", game_files())])]),
            dir(".GIT", vec![dir("priconner", Vec::new())]),
        ],
    );
    let found = find_all_priconner_folders(&policy(), &vec![tree], 3);
    assert_eq!(found.len(), 1);
    assert_eq!(found[0].path, names(&["/home/u", "Games", "PriConner"]));
    assert_eq!(found[0].entries, names(&["priconner"]));
}

#[test]
fn scan_respects_depth_bound() {
    let tree = dir("/r", vec![dir("a", vec![dir("b", vec![dir("priconner", Vec::new())])])]);
    assert!(find_all_priconner_folders(&policy(), &vec![tree], 2).is_empty());
    let tree = dir("/r", vec![dir("a", vec![dir("b", vec![dir("priconner", Vec::new())])])]);
    assert_eq!(find_all_priconner_folders(&policy(), &vec![tree], 3).len(), 1);
}

#[test]
fn locate_prefers_second_candidate_when_only_it_validates() {
    let sig = DirectorySignature::game();
    let decoy = dir("priconner", vec![file("readme.txt")]);
    let real = dir("priconner", game_files());
    let tree = dir("/home/u", vec![dir("old", vec![decoy]), dir("games", vec![real])]);
    let roots = vec![tree];
    let found = GameService::scan_all_drives(&sig, &policy(), &roots, 3).unwrap();
    assert_eq!(found, names(&["/home/u", "games", "priconner"]));
    let by_dir = GameService::search_directory(&sig, &policy(), &roots[0], 3).unwrap();
    assert_eq!(by_dir, found);
    let auto = GameService::auto_detect_game_path(&sig, None, &Vec::new(), &policy(), &roots, 3).unwrap();
    assert_eq!(auto, found);
}

#[test]
fn locate_skips_invalid_location_and_continues() {
    let sig = DirectorySignature::game();
    let partial = names(&["PrincessConnectReDive.exe", "GameAssembly.dll", "PrincessConnectReDive_Data"]);
    let common = vec![
        probe(&["C:\\", "priconner"], true, partial.clone()),
        probe(&["D:\\", "priconner"], false, full_listing()),
        probe(&["E:\\", "Games", "priconner"], true, full_listing()),
    ];
    assert_eq!(
        GameService::search_common_locations(&sig, &common).unwrap(),
        names(&["E:\\", "Games", "priconner"])
    );
    let registry = probe(&["C:\\", "Steam", "PrincessConnectReDive"], true, partial);
    let auto = GameService::auto_detect_game_path(&sig, Some(registry), &common, &policy(), &Vec::new(), 3);
    assert_eq!(auto.unwrap(), names(&["E:\\", "Games", "priconner"]));
}

#[test]
fn locate_takes_valid_registry_location_first() {
    let sig = DirectorySignature::game();
    let registry = probe(&["C:\\", "Steam", "PrincessConnectReDive"], true, full_listing());
    let common = vec![probe(&["C:\\", "priconner"], true, full_listing())];
    let auto = GameService::auto_detect_game_path(&sig, Some(registry), &common, &policy(), &Vec::new(), 3);
    assert_eq!(auto.unwrap(), names(&["C:\\", "Steam", "PrincessConnectReDive"]));
}

#[test]
fn locate_finds_nothing() {
    let sig = DirectorySignature::game();
    let tree = dir("/home/u", vec![dir("priconner", vec![file("a")])]);
    assert!(GameService::auto_detect_game_path(&sig, None, &Vec::new(), &policy(), &vec![tree], 3).is_none());
}

#[test]
fn registry_location_needs_to_exist() {
    assert!(GameService::find_in_registry(None).is_none());
    assert!(GameService::find_in_registry(Some(probe(&["C:\\", "x"], false, Vec::new()))).is_none());
    assert_eq!(
        GameService::find_in_registry(Some(probe(&["C:\\", "x"], true, Vec::new()))).unwrap(),
        names(&["C:\\", "x"])
    );
}

#[test]
fn policy_names_compare_in_lower_case_on_both_sides() {
    let p = ScanPolicy {
        skip_names: names(&["Node_Modules"]),
        skip_prefixes: names(&["$"]),
        target: s("PriConner"),
    };
    assert_eq!(p.decide(&s("node_modules"), true), ScanDecision::Pass);
    assert_eq!(p.decide(&s("NODE_MODULES"), true), ScanDecision::Pass);
    assert_eq!(p.decide(&s("$Recycle.Bin"), true), ScanDecision::Pass);
    assert_eq!(p.decide(&s("priconner"), true), ScanDecision::Candidate);
    assert_eq!(p.decide(&s("priconner"), false), ScanDecision::Pass);
    assert_eq!(p.decide(&s("Games"), true), ScanDecision::Enter);
}

#[test]
fn collect_appends_candidates_below_a_base() {
    let kids = vec![dir("a", vec![dir("PRICONNER", vec![file("x")])]), dir("priconner", Vec::new())];
    let mut out: Vec<Candidate> = Vec::new();
    collect_priconner_folders(&policy(), &kids, &names(&["/r"]), 2, &mut out);
    let paths: Vec<Vec<String>> = out.iter().map(|c| c.path.clone()).collect();
    assert_eq!(paths, vec![names(&["/r", "a", "PRICONNER"]), names(&["/r", "priconner"])]);
    assert_eq!(out[0].entries, names(&["x"]));
}
