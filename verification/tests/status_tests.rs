use game_launcher::registry::{InstallRecord, Registry};
use game_launcher::locator::MarkerSet;
use game_launcher::status::{
    first_install_with_executable, needs_update, report_status, DirectoryFindings,
    InstalledTree, Listing, PackageStatus,
};

fn tree(name: &str, files: &[&str]) -> InstalledTree {
    InstalledTree { name: name.to_string(), files: files.iter().map(|f| f.to_string()).collect() }
}

fn listing(id: &str, version: &str, status: PackageStatus) -> Listing {
    Listing {
        package_id: id.to_string(),
        version: version.to_string(),
        status,
        executable_path: None,
    }
}

fn nothing_found() -> DirectoryFindings {
    DirectoryFindings {
        listed_version_present: false,
        listed_version_executable: None,
        other_version_executable: None,
    }
}

fn registry_with(id: &str, version: &str) -> Registry {
    let mut r = Registry::new();
    r.upsert(InstallRecord {
        package_id: id.to_string(),
        version: version.to_string(),
        install_dir: format!("/games/{}", id),
        executable_rel_path: "bin/run.exe".to_string(),
    });
    r
}

#[test]
fn update_is_due_when_versions_differ() {
    assert!(needs_update("1.0", "1.1"));
    assert!(!needs_update("1.0", "1.0"));
    assert!(needs_update("1.0", "1.00"));
}

#[test]
fn registered_package_at_listed_version_is_installed() {
    let r = registry_with("p1", "1.0");
    let report = report_status(&r, &listing("p1", "1.0", PackageStatus::Available), &nothing_found());
    assert_eq!(report.status, PackageStatus::Installed);
    assert_eq!(report.executable_path, Some("/games/p1/bin/run.exe".to_string()));
}

#[test]
fn registered_package_at_other_version_can_be_updated() {
    let r = registry_with("p1", "1.0");
    let report = report_status(&r, &listing("p1", "1.1", PackageStatus::Available), &nothing_found());
    assert_eq!(report.status, PackageStatus::UpdateAvailable);
    assert_eq!(report.executable_path, Some("/games/p1/bin/run.exe".to_string()));
}

#[test]
fn registry_outranks_the_directories() {
    let r = registry_with("p1", "1.0");
    let findings = DirectoryFindings {
        listed_version_present: true,
        listed_version_executable: Some("/elsewhere/p1.exe".to_string()),
        other_version_executable: Some("/old/p1.exe".to_string()),
    };
    let report = report_status(&r, &listing("p1", "1.1", PackageStatus::Available), &findings);
    assert_eq!(report.status, PackageStatus::UpdateAvailable);
    assert_eq!(report.executable_path, Some("/games/p1/bin/run.exe".to_string()));
}

#[test]
fn unregistered_package_is_available() {
    let r = registry_with("p2", "1.0");
    let report = report_status(&r, &listing("p1", "1.0", PackageStatus::Installed), &nothing_found());
    assert_eq!(report.status, PackageStatus::Available);
    assert_eq!(report.executable_path, None);
}

#[test]
fn directory_of_listed_version_counts_as_installed() {
    let r = Registry::new();
    let findings = DirectoryFindings {
        listed_version_present: true,
        listed_version_executable: Some("/games/p1.v1.0/p1.exe".to_string()),
        other_version_executable: None,
    };
    let report = report_status(&r, &listing("p1", "1.0", PackageStatus::Available), &findings);
    assert_eq!(report.status, PackageStatus::Installed);
    assert_eq!(report.executable_path, Some("/games/p1.v1.0/p1.exe".to_string()));
}

#[test]
fn directory_without_executable_leaves_the_listing_as_it_is() {
    let r = Registry::new();
    let findings = DirectoryFindings {
        listed_version_present: true,
        listed_version_executable: None,
        other_version_executable: Some("/games/p1.v0.9/p1.exe".to_string()),
    };
    let mut l = listing("p1", "1.0", PackageStatus::Available);
    l.executable_path = Some("listed.exe".to_string());
    let report = report_status(&r, &l, &findings);
    assert_eq!(report.status, PackageStatus::Available);
    assert_eq!(report.executable_path, Some("listed.exe".to_string()));
}

#[test]
fn directory_of_other_version_offers_an_update() {
    let r = Registry::new();
    let findings = DirectoryFindings {
        listed_version_present: false,
        listed_version_executable: None,
        other_version_executable: Some("/games/p1.v0.9/p1.exe".to_string()),
    };
    let report = report_status(&r, &listing("p1", "1.0", PackageStatus::Available), &findings);
    assert_eq!(report.status, PackageStatus::UpdateAvailable);
    assert_eq!(report.executable_path, Some("/games/p1.v0.9/p1.exe".to_string()));
}

#[test]
fn announced_package_is_not_looked_up() {
    let r = registry_with("p1", "1.0");
    let findings = DirectoryFindings {
        listed_version_present: true,
        listed_version_executable: Some("x.exe".to_string()),
        other_version_executable: None,
    };
    let report = report_status(&r, &listing("p1", "1.0", PackageStatus::ComingSoon), &findings);
    assert_eq!(report.status, PackageStatus::ComingSoon);
    assert_eq!(report.executable_path, None);
}

#[test]
fn status_labels_round_trip() {
    for status in [
        PackageStatus::ComingSoon,
        PackageStatus::Available,
        PackageStatus::Installed,
        PackageStatus::UpdateAvailable,
        PackageStatus::Unknown,
    ] {
        assert_eq!(PackageStatus::from_label(status.label()), Some(status));
    }
    assert_eq!(PackageStatus::Unknown.label(), "unknown");
    assert_eq!(PackageStatus::from_label("beta"), None);
    assert_eq!(PackageStatus::ComingSoon.label(), "coming_soon");
    assert_eq!(PackageStatus::Available.label(), "available");
    assert_eq!(PackageStatus::Installed.label(), "installed");
    assert_eq!(PackageStatus::UpdateAvailable.label(), "update_available");
    assert_eq!(PackageStatus::from_label("Installed"), None);
    assert_eq!(PackageStatus::from_label(""), None);
}

#[test]
fn status_of_the_catalogue_is_kept_where_nothing_decides() {
    let r = Registry::new();
    let findings = DirectoryFindings {
        listed_version_present: true,
        listed_version_executable: None,
        other_version_executable: None,
    };
    let report = report_status(&r, &listing("p1", "1.0", PackageStatus::Unknown), &findings);
    assert_eq!(report.status, PackageStatus::Unknown);
    let report = report_status(&r, &listing("p1", "1.0", PackageStatus::Unknown), &nothing_found());
    assert_eq!(report.status, PackageStatus::Available);
}

#[test]
fn first_install_with_a_launch_target_is_found() {
    let m = MarkerSet::windows();
    let trees = vec![
        tree("p10.v3", &["ten.exe"]),
        tree("p1.v0.8", &["readme.txt"]),
        tree("backups", &["p1/backup_1/p1.exe"]),
        tree("p1.v0.9", &["unins000.exe", "bin/game.exe"]),
        tree("p1", &["p1.exe"]),
    ];
    assert_eq!(first_install_with_executable(&trees, "p1", &m), Some((3, 1)));
    assert_eq!(first_install_with_executable(&trees, "p10", &m), Some((0, 0)));
    assert_eq!(first_install_with_executable(&trees, "p2", &m), None);
    assert_eq!(first_install_with_executable(&trees, "backup", &m), None);
}

#[test]
fn installs_without_launch_target_are_passed_over() {
    let m = MarkerSet::windows();
    let trees = vec![tree("p1.v1", &["a.txt"]), tree("p1.v2", &[]), tree("p10.v1", &["x.exe"])];
    assert_eq!(first_install_with_executable(&trees, "p1", &m), None);
    assert_eq!(first_install_with_executable(&Vec::new(), "p1", &m), None);
}
