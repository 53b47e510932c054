use game_launcher::registry::{InstallRecord, Registry};
use game_launcher::repair::{
    choose_repair_target, is_repair_artifact, not_found, select_artifacts, summarize,
    DirectoryEntry, Removal, RepairTarget,
};

fn dirs(list: &[(&str, u64)]) -> Vec<DirectoryEntry> {
    list.iter().map(|(n, m)| DirectoryEntry { name: n.to_string(), modified: *m }).collect()
}

fn names(list: &[&str]) -> Vec<String> {
    list.iter().map(|s| s.to_string()).collect()
}

#[test]
fn registry_record_names_the_repair_target() {
    let mut r = Registry::new();
    r.upsert(InstallRecord {
        package_id: "p1".to_string(),
        version: "1.0".to_string(),
        install_dir: "/games/p1.v1.0".to_string(),
        executable_rel_path: "p1.exe".to_string(),
    });
    let target = choose_repair_target(&r, &dirs(&[("p1.v0.9", 900), ("p1.v1.0", 100)]), "p1");
    match target {
        RepairTarget::Registered { install_dir } => assert_eq!(install_dir, "/games/p1.v1.0"),
        _ => panic!("the registry decides"),
    }
}

#[test]
fn latest_matching_directory_is_the_fallback() {
    let r = Registry::new();
    let list = dirs(&[("p1.v1.0", 100), ("p2.v9", 999), ("p1.v1.1", 300), ("backups", 500), ("p1.v0.9", 200)]);
    assert!(matches!(choose_repair_target(&r, &list, "p1"), RepairTarget::Listed { index: 2 }));
    assert!(matches!(choose_repair_target(&r, &list, "p2"), RepairTarget::Listed { index: 1 }));
}

#[test]
fn first_of_equally_recent_directories_is_chosen() {
    let r = Registry::new();
    let list = dirs(&[("p1.v1", 5), ("p1.v2", 7), ("p1.v3", 7)]);
    assert!(matches!(choose_repair_target(&r, &list, "p1"), RepairTarget::Listed { index: 1 }));
    let list = dirs(&[("p1.v1", 0), ("p1", 0)]);
    assert!(matches!(choose_repair_target(&r, &list, "p1"), RepairTarget::Listed { index: 0 }));
}

#[test]
fn package_without_directory_is_missing() {
    let r = Registry::new();
    assert!(matches!(choose_repair_target(&r, &dirs(&[("p2.v1", 1)]), "p1"), RepairTarget::Missing));
    assert!(matches!(choose_repair_target(&r, &Vec::new(), "p1"), RepairTarget::Missing));
}

#[test]
fn programs_libraries_and_configuration_are_artifacts() {
    assert!(is_repair_artifact("p1.exe"));
    assert!(is_repair_artifact("engine.dll"));
    assert!(is_repair_artifact("p1.exe.config"));
    assert!(is_repair_artifact(".exe"));
    assert!(!is_repair_artifact("readme.txt"));
    assert!(!is_repair_artifact("p1.exe.bak"));
    assert!(!is_repair_artifact("save.cfg"));
    assert!(!is_repair_artifact("P1.EXE"));
    assert!(!is_repair_artifact(""));
}

#[test]
fn artifacts_are_selected_in_order() {
    let files = names(&["readme.txt", "p1.exe", "data.pak", "engine.dll", "app.config", "notes"]);
    assert_eq!(select_artifacts(&files), vec![1, 3, 4]);
    assert_eq!(select_artifacts(&names(&["a.txt"])), Vec::<usize>::new());
    assert_eq!(select_artifacts(&Vec::new()), Vec::<usize>::new());
}

#[test]
fn clean_repair_succeeds() {
    let result = summarize(&vec![
        Removal { file_name: "p1.exe".to_string(), error: None },
        Removal { file_name: "engine.dll".to_string(), error: None },
    ]);
    assert!(result.success);
    assert_eq!(result.repaired_files, names(&["p1.exe", "engine.dll"]));
    assert!(result.errors.is_empty());
    assert_eq!(result.message, "Game repaired successfully");
}

#[test]
fn partial_failure_is_reported_not_escalated() {
    let result = summarize(&vec![
        Removal { file_name: "p1.exe".to_string(), error: Some("Access is denied.".to_string()) },
        Removal { file_name: "engine.dll".to_string(), error: None },
        Removal { file_name: "app.config".to_string(), error: Some("in use".to_string()) },
    ]);
    assert!(!result.success);
    assert_eq!(result.repaired_files, names(&["engine.dll"]));
    assert_eq!(
        result.errors,
        names(&["Failed to remove p1.exe: Access is denied.", "Failed to remove app.config: in use"])
    );
    assert_eq!(result.message, "Game repaired with errors");
}

#[test]
fn repair_with_nothing_to_remove_succeeds() {
    let result = summarize(&Vec::new());
    assert!(result.success);
    assert!(result.repaired_files.is_empty());
    assert!(result.errors.is_empty());
    assert_eq!(result.message, "Game repaired successfully");
}

#[test]
fn missing_package_is_reported() {
    let result = not_found();
    assert!(!result.success);
    assert!(result.repaired_files.is_empty());
    assert_eq!(result.errors, names(&["Game not found"]));
    assert_eq!(result.message, "Game not found");
}

#[test]
fn repair_leaves_other_packages_alone() {
    let r = Registry::new();
    let list = dirs(&[("p1.v1.0", 1), ("p1.v1.1", 2), ("p10.v3", 3)]);
    let index = match choose_repair_target(&r, &list, "p1") {
        RepairTarget::Listed { index } => index,
        other => panic!("unexpected {:?}", other),
    };
    assert_eq!(index, 1);
    assert_eq!(list[index].name, "p1.v1.1");

    let top_level = names(&["x.exe"]);
    let removals: Vec<Removal> = select_artifacts(&top_level)
        .into_iter()
        .map(|at| Removal { file_name: top_level[at].clone(), error: None })
        .collect();
    let result = summarize(&removals);
    assert!(result.success);
    assert_eq!(result.repaired_files, names(&["x.exe"]));

    assert!(matches!(choose_repair_target(&r, &list, "p10"), RepairTarget::Listed { index: 2 }));
    let list = dirs(&[("p10.v3", 3), ("backups", 9)]);
    assert!(matches!(choose_repair_target(&r, &list, "p1"), RepairTarget::Missing));
    assert!(matches!(choose_repair_target(&r, &list, "backup"), RepairTarget::Missing));
}
