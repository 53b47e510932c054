use game_launcher::locks::ActivePackages;

#[test]
fn a_package_is_held_by_one_operation() {
    let mut active = ActivePackages::new();
    assert!(!active.is_busy("p1"));
    assert!(active.try_begin("p1"));
    assert!(active.is_busy("p1"));
    assert!(!active.try_begin("p1"));
    assert!(active.is_busy("p1"));
}

#[test]
fn different_packages_do_not_block_each_other() {
    let mut active = ActivePackages::new();
    assert!(active.try_begin("p1"));
    assert!(active.try_begin("p2"));
    assert!(active.is_busy("p1"));
    assert!(active.is_busy("p2"));
    assert!(!active.is_busy("p3"));
}

#[test]
fn a_finished_operation_gives_the_package_back() {
    let mut active = ActivePackages::new();
    assert!(active.try_begin("p1"));
    assert!(active.try_begin("p2"));
    active.finish("p1");
    assert!(!active.is_busy("p1"));
    assert!(active.is_busy("p2"));
    assert!(active.try_begin("p1"));
    active.finish("p3");
    assert!(active.is_busy("p1"));
    assert!(active.is_busy("p2"));
}
