use game_launcher::registry::{
    write_through, InstallRecord, Registry, RegistryError, RegistrySource,
};

fn record(id: &str, version: &str) -> InstallRecord {
    InstallRecord {
        package_id: id.to_string(),
        version: version.to_string(),
        install_dir: format!("/games/{}", id),
        executable_rel_path: format!("{}.exe", id),
    }
}

#[test]
fn new_registry_is_empty() {
    let r = Registry::new();
    assert_eq!(r.len(), 0);
    assert!(r.is_empty());
    assert!(!r.contains("p1"));
    assert!(r.get("p1").is_none());
    assert_eq!(r.installed_version("p1"), None);
    assert!(r.snapshot().is_empty());
}

#[test]
fn missing_backing_file_is_an_empty_registry() {
    let r = Registry::load(RegistrySource::Missing).unwrap();
    assert!(r.is_empty());
}

#[test]
fn corrupt_backing_file_is_an_error() {
    let result = Registry::load(RegistrySource::Corrupt { reason: "expected value at line 1".to_string() });
    match result {
        Err(RegistryError::Corrupt { reason }) => assert_eq!(reason, "expected value at line 1"),
        Ok(_) => panic!("a corrupt file must not load as an empty registry"),
    }
}

#[test]
fn load_keeps_the_records_of_the_file() {
    let r = Registry::load(RegistrySource::Records {
        records: vec![record("p1", "1.0"), record("p2", "0.3")],
    })
    .unwrap();
    assert_eq!(r.len(), 2);
    assert_eq!(r.installed_version("p1"), Some("1.0".to_string()));
    assert_eq!(r.installed_version("p2"), Some("0.3".to_string()));
    let all = r.snapshot();
    assert_eq!(all[0].package_id, "p1");
    assert_eq!(all[1].package_id, "p2");
}

#[test]
fn load_lets_the_last_record_of_a_package_count() {
    let r = Registry::load(RegistrySource::Records {
        records: vec![record("p1", "1.0"), record("p2", "0.3"), record("p1", "1.1")],
    })
    .unwrap();
    assert_eq!(r.len(), 2);
    assert_eq!(r.installed_version("p1"), Some("1.1".to_string()));
    assert_eq!(r.snapshot()[0].package_id, "p1");
}

#[test]
fn upsert_adds_a_new_package() {
    let mut r = Registry::new();
    r.upsert(record("p1", "1.0"));
    assert_eq!(r.len(), 1);
    assert!(r.contains("p1"));
    let got = r.get("p1").unwrap();
    assert_eq!(got.version, "1.0");
    assert_eq!(got.install_dir, "/games/p1");
    assert_eq!(got.executable_rel_path, "p1.exe");
}

#[test]
fn reinstalling_leaves_one_record() {
    let mut r = Registry::new();
    r.upsert(record("p1", "1.0"));
    r.upsert(record("p1", "1.0"));
    assert_eq!(r.len(), 1);
    assert_eq!(r.snapshot().iter().filter(|x| x.package_id == "p1").count(), 1);
    assert_eq!(r.installed_version("p1"), Some("1.0".to_string()));
}

#[test]
fn upsert_overwrites_in_place() {
    let mut r = Registry::new();
    r.upsert(record("p1", "1.0"));
    r.upsert(record("p2", "2.0"));
    r.upsert(record("p3", "3.0"));
    r.upsert(InstallRecord {
        package_id: "p2".to_string(),
        version: "2.1".to_string(),
        install_dir: "/games/p2.v2.1".to_string(),
        executable_rel_path: "bin/p2.exe".to_string(),
    });
    assert_eq!(r.len(), 3);
    let all = r.snapshot();
    assert_eq!(all[0].package_id, "p1");
    assert_eq!(all[1].package_id, "p2");
    assert_eq!(all[1].version, "2.1");
    assert_eq!(all[1].install_dir, "/games/p2.v2.1");
    assert_eq!(all[1].executable_rel_path, "bin/p2.exe");
    assert_eq!(all[2].package_id, "p3");
    assert_eq!(r.installed_version("p1"), Some("1.0".to_string()));
    assert_eq!(r.installed_version("p3"), Some("3.0".to_string()));
}

#[test]
fn ids_are_compared_whole() {
    let mut r = Registry::new();
    r.upsert(record("p1", "1.0"));
    r.upsert(record("p10", "2.0"));
    assert_eq!(r.len(), 2);
    assert!(!r.contains("p"));
    assert!(!r.contains("P1"));
    assert_eq!(r.installed_version("p10"), Some("2.0".to_string()));
}

#[test]
fn remove_takes_the_record_out() {
    let mut r = Registry::new();
    r.upsert(record("p1", "1.0"));
    r.upsert(record("p2", "2.0"));
    let gone = r.remove("p1").unwrap();
    assert_eq!(gone.package_id, "p1");
    assert_eq!(gone.version, "1.0");
    assert_eq!(r.len(), 1);
    assert!(!r.contains("p1"));
    assert!(r.contains("p2"));
    assert!(r.remove("p1").is_none());
    assert_eq!(r.len(), 1);
}

#[test]
fn record_clone_is_equal_field_by_field() {
    let a = record("p1", "1.0");
    let b = a.clone();
    assert_eq!(a.package_id, b.package_id);
    assert_eq!(a.version, b.version);
    assert_eq!(a.install_dir, b.install_dir);
    assert_eq!(a.executable_rel_path, b.executable_rel_path);
}

#[test]
fn write_through_creates_the_first_record() {
    let all = write_through(RegistrySource::Missing, record("p1", "1.0")).unwrap();
    assert_eq!(all.len(), 1);
    assert_eq!(all[0].package_id, "p1");
    assert_eq!(all[0].version, "1.0");
}

#[test]
fn write_through_rewrites_the_whole_file() {
    let source = RegistrySource::Records { records: vec![record("p1", "1.0"), record("p2", "2.0")] };
    let all = write_through(source, record("p1", "1.1")).unwrap();
    assert_eq!(all.len(), 2);
    assert_eq!(all[0].package_id, "p1");
    assert_eq!(all[0].version, "1.1");
    assert_eq!(all[1].package_id, "p2");
    assert_eq!(all[1].version, "2.0");
    let source = RegistrySource::Records { records: vec![record("p1", "1.0")] };
    let all = write_through(source, record("p3", "0.1")).unwrap();
    assert_eq!(all.iter().map(|r| r.package_id.as_str()).collect::<Vec<_>>(), vec!["p1", "p3"]);
}

#[test]
fn write_through_refuses_a_corrupt_file() {
    let result = write_through(
        RegistrySource::Corrupt { reason: "EOF while parsing".to_string() },
        record("p1", "1.0"),
    );
    match result {
        Err(error) => {
            assert_eq!(error.message(), "Install registry is corrupt: EOF while parsing");
            let RegistryError::Corrupt { reason } = error;
            assert_eq!(reason, "EOF while parsing");
        },
        Ok(_) => panic!("a corrupt registry must not be overwritten"),
    }
}
