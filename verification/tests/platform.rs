use task_manager::store::FileSystem;

#[test]
fn app_data_dir_resolves_under_the_platform_root() {
    let mut fs = FileSystem::new();
    let first = fs.get_app_data_dir();
    let path = first.expect("the host supplies a per-user data root");
    assert!(path.ends_with("/task-manager"));
    assert!(fs.has_dir(&path));
    let second = fs.get_app_data_dir();
    assert_eq!(second.unwrap(), path);
}
