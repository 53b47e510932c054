use game_launcher::archive::{
    destination, plan_extraction, resolve_entry, EntryRejection, ExtractError, ExtractStep,
};

fn names(list: &[&str]) -> Vec<String> {
    list.iter().map(|s| s.to_string()).collect()
}

fn path_of(step: &ExtractStep) -> Vec<String> {
    match step {
        ExtractStep::CreateDirectory { path } => path.clone(),
        ExtractStep::WriteFile { path } => path.clone(),
        ExtractStep::RemoveArchive => panic!("no path"),
    }
}

#[test]
fn file_entry_is_written_at_its_path() {
    let step = resolve_entry("data/asset.bin").unwrap();
    assert!(matches!(step, ExtractStep::WriteFile { .. }));
    assert_eq!(path_of(&step), names(&["data", "asset.bin"]));
}

#[test]
fn directory_entry_has_a_trailing_separator() {
    let step = resolve_entry("data/levels/").unwrap();
    assert!(matches!(step, ExtractStep::CreateDirectory { .. }));
    assert_eq!(path_of(&step), names(&["data", "levels"]));
    let step = resolve_entry("data\\").unwrap();
    assert!(matches!(step, ExtractStep::CreateDirectory { .. }));
    assert_eq!(path_of(&step), names(&["data"]));
}

#[test]
fn root_and_drive_prefixes_are_discarded() {
    assert_eq!(path_of(&resolve_entry("/etc/passwd").unwrap()), names(&["etc", "passwd"]));
    assert_eq!(path_of(&resolve_entry("C:\\Windows\\a.dll").unwrap()), names(&["Windows", "a.dll"]));
    assert_eq!(path_of(&resolve_entry("c:game.exe").unwrap()), names(&["game.exe"]));
    assert_eq!(path_of(&resolve_entry("\\\\server\\share\\f").unwrap()), names(&["server", "share", "f"]));
}

#[test]
fn dot_segments_and_doubled_separators_are_discarded() {
    assert_eq!(path_of(&resolve_entry("./a/./b//c.txt").unwrap()), names(&["a", "b", "c.txt"]));
    assert_eq!(path_of(&resolve_entry("a/.").unwrap()), names(&["a"]));
}

#[test]
fn names_with_dots_are_kept() {
    assert_eq!(path_of(&resolve_entry("a/...").unwrap()), names(&["a", "..."]));
    assert_eq!(path_of(&resolve_entry("..a/b..").unwrap()), names(&["..a", "b.."]));
    assert_eq!(path_of(&resolve_entry(".hidden").unwrap()), names(&[".hidden"]));
}

#[test]
fn parent_segment_is_refused_wherever_it_stands() {
    for name in ["../evil.exe", "a/../b", "a/..", "..", "a/b/../../../c", "C:..\\x", "/../x", "a\\..\\b", "dir/../"] {
        assert!(
            matches!(resolve_entry(name), Err(EntryRejection::Traversal)),
            "{name} must be refused"
        );
    }
}

#[test]
fn file_entry_without_a_name_is_refused() {
    for name in ["", ".", "C:", "./."] {
        assert!(
            matches!(resolve_entry(name), Err(EntryRejection::NoFileName)),
            "{name:?} names no file"
        );
    }
}

#[test]
fn directory_entry_for_the_root_is_accepted() {
    let step = resolve_entry("/").unwrap();
    assert!(matches!(step, ExtractStep::CreateDirectory { .. }));
    assert_eq!(path_of(&step), Vec::<String>::new());
    let step = resolve_entry("./").unwrap();
    assert_eq!(path_of(&step), Vec::<String>::new());
}

#[test]
fn plan_holds_one_step_per_entry_then_the_removal() {
    let plan = plan_extraction(&names(&["p1.exe", "data/", "data/asset.bin", "readme.txt"])).unwrap();
    assert_eq!(plan.len(), 5);
    assert!(matches!(plan[0], ExtractStep::WriteFile { .. }));
    assert_eq!(path_of(&plan[0]), names(&["p1.exe"]));
    assert!(matches!(plan[1], ExtractStep::CreateDirectory { .. }));
    assert_eq!(path_of(&plan[1]), names(&["data"]));
    assert!(matches!(plan[2], ExtractStep::WriteFile { .. }));
    assert_eq!(path_of(&plan[2]), names(&["data", "asset.bin"]));
    assert!(matches!(plan[3], ExtractStep::WriteFile { .. }));
    assert_eq!(path_of(&plan[3]), names(&["readme.txt"]));
    assert!(matches!(plan[4], ExtractStep::RemoveArchive));
}

#[test]
fn plan_of_an_empty_archive_only_removes_it() {
    let plan = plan_extraction(&Vec::new()).unwrap();
    assert_eq!(plan.len(), 1);
    assert!(matches!(plan[0], ExtractStep::RemoveArchive));
}

#[test]
fn traversal_entry_fails_the_whole_extraction() {
    let result = plan_extraction(&names(&["ok.txt", "data/../../evil.exe", "later.txt"]));
    assert_eq!(
        result.err(),
        Some(ExtractError { index: 1, reason: EntryRejection::Traversal })
    );
}

#[test]
fn first_refused_entry_is_reported() {
    let result = plan_extraction(&names(&["a", "", "../b"]));
    assert_eq!(
        result.err(),
        Some(ExtractError { index: 1, reason: EntryRejection::NoFileName })
    );
}

#[test]
fn destination_lies_below_the_root() {
    let root = "/launcher/games/p1";
    let step = resolve_entry("C:/data/./asset.bin").unwrap();
    let full = destination(root, &path_of(&step));
    assert_eq!(full, "/launcher/games/p1/data/asset.bin");
    assert!(full.starts_with(root));
    assert!(!full.split('/').any(|s| s == ".."));
    assert_eq!(destination(root, &Vec::new()), root);
}

#[test]
fn every_accepted_name_stays_below_the_root() {
    let root = "/r";
    for name in ["a", "/a", "a/b/c", "./a", "x:\\a\\b", "a//b", "...", "a/.../b", "a/"] {
        let step = resolve_entry(name).unwrap();
        let full = destination(root, &path_of(&step));
        assert!(full.starts_with(root), "{name}");
        let rest: Vec<&str> = full[root.len()..].split('/').skip(1).collect();
        assert!(rest.iter().all(|s| !s.is_empty() && *s != "." && *s != ".."), "{name}: {full}");
    }
}

#[test]
fn extraction_errors_are_put_in_words() {
    let e = ExtractError { index: 12, reason: EntryRejection::Traversal };
    assert_eq!(e.message(), "Archive entry 12 is refused: its path holds a parent-directory segment");
    let e = ExtractError { index: 0, reason: EntryRejection::NoFileName };
    assert_eq!(e.message(), "Archive entry 0 is refused: its path names no file");
}
