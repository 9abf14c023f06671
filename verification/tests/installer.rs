use bpm::err::MyError;
use bpm::filter::Os;
use bpm::install::{
    create_dir_if_not_exist, move_plan, only_one_file_in_dir, plan_uninstall,
    remove_all_allow_missing, single_msi_in_dir, FsErrorKind, FsTree,
};
use bpm::paths::{is_subpath_of, windows_path_to_windows_bash, windows_path_to_wsl};
use bpm::storage::Repo;
use bpm::winpath::{add_to_env_path, remove_from_env_path};

fn new_repo(name: &str) -> Repo {
    Repo::new(name.to_string(), &Os::Linux)
}

#[test]
fn test_is_subpath_of() {
    let base = "/tmp/work";
    let path = format!("{}/{}", base, "test_is_subpath");
    let path2 = format!("{}/{}", path, "test_is_subpath2");
    assert!(is_subpath_of(&path, &path));
    assert!(!is_subpath_of(&path, &path2));
    assert!(is_subpath_of(&path2, &path));
}

#[test]
fn subpath_needs_a_component_boundary() {
    assert!(!is_subpath_of("/r/abc", "/r/ab"));
    assert!(is_subpath_of("/r/ab/c", "/r/ab"));
}

#[test]
fn test_move_files_recursively() {
    // the extracted artifact: file1.txt, file2.txt, subdir/subfile1.txt
    let tree = FsTree::Dir {
        name: "artifact".to_string(),
        entries: vec![
            FsTree::File {
                name: "file1.txt".to_string(),
            },
            FsTree::File {
                name: "file2.txt".to_string(),
            },
            FsTree::Dir {
                name: "subdir".to_string(),
                entries: vec![FsTree::File {
                    name: "subfile1.txt".to_string(),
                }],
            },
        ],
    };
    let plan = move_plan(&tree, "/src", "/dst");
    let record: Vec<String> = plan.iter().map(|m| m.dst.clone()).collect();
    assert!(record.contains(&"/dst/artifact/file1.txt".to_string()));
    assert!(record.contains(&"/dst/artifact/file2.txt".to_string()));
    assert!(record.contains(&"/dst/artifact/subdir".to_string()));
    assert!(record.contains(&"/dst/artifact/subdir/subfile1.txt".to_string()));
    assert_eq!(record.len(), 5);
    let subfile = record
        .iter()
        .position(|x| x == "/dst/artifact/subdir/subfile1.txt")
        .unwrap();
    let subdir = record.iter().position(|x| x == "/dst/artifact/subdir").unwrap();
    assert!(subfile < subdir);
}

#[test]
fn move_plan_orders_leaf_first() {
    // the ordering invariant on the tree dir/sub/file
    let tree = FsTree::Dir {
        name: "dir".to_string(),
        entries: vec![FsTree::Dir {
            name: "sub".to_string(),
            entries: vec![FsTree::File {
                name: "file".to_string(),
            }],
        }],
    };
    let plan = move_plan(&tree, "/s", "/d");
    let dsts: Vec<String> = plan.iter().map(|m| m.dst.clone()).collect();
    let file = dsts.iter().position(|x| x == "/d/dir/sub/file").unwrap();
    let sub = dsts.iter().position(|x| x == "/d/dir/sub").unwrap();
    let dir = dsts.iter().position(|x| x == "/d/dir").unwrap();
    assert!(file < sub);
    assert!(sub < dir);
}

#[test]
fn recorded_plan_lands_in_the_ledger() {
    let tree = FsTree::File {
        name: "tool".to_string(),
    };
    let plan = move_plan(&tree, "/cache/x", "/root/app/tool");
    let mut repo = new_repo("tool");
    repo.record_move_plan(&plan);
    assert_eq!(repo.installed_files, vec!["/root/app/tool/tool".to_string()]);
}

#[test]
fn uninstall_refuses_paths_outside_the_root() {
    let mut repo = new_repo("tool");
    repo.add_file_list("/root/app/tool/bin".to_string());
    repo.add_file_list("/etc/passwd".to_string());
    let err = plan_uninstall(&repo, "/root").unwrap_err();
    assert_eq!(err, MyError::UnsafeRemoval("/etc/passwd".to_string()));
}

#[test]
fn uninstall_plans_tracked_files_in_order() {
    let mut repo = new_repo("tool");
    repo.add_file_list("/root/app/tool/sub/file".to_string());
    repo.add_file_list("/root/app/tool/sub".to_string());
    repo.add_file_list("/root/app/tool".to_string());
    let plan = plan_uninstall(&repo, "/root").unwrap();
    assert_eq!(plan, repo.installed_files);
}

#[test]
fn test_only_one_file_in_dir() {
    let entries = vec!["file1.txt".to_string()];
    assert_eq!(
        only_one_file_in_dir("/tmp/d", &entries),
        Some("/tmp/d/file1.txt".to_string())
    );
    let many = vec!["a".to_string(), "b".to_string()];
    assert_eq!(only_one_file_in_dir("/tmp/d", &many), None);
}

#[test]
fn single_msi_detection() {
    let msi = vec!["setup.msi".to_string()];
    assert_eq!(
        single_msi_in_dir("/tmp/d", &msi),
        Some("/tmp/d/setup.msi".to_string())
    );
    let zip = vec!["setup.zip".to_string()];
    assert_eq!(single_msi_in_dir("/tmp/d", &zip), None);
    let many = vec!["setup.msi".to_string(), "readme".to_string()];
    assert_eq!(single_msi_in_dir("/tmp/d", &many), None);
}

#[test]
fn test_create_dir_if_not_exist() {
    assert!(create_dir_if_not_exist(Ok(())).is_ok());
    assert!(create_dir_if_not_exist(Err(FsErrorKind::AlreadyExists)).is_ok());
    assert_eq!(
        create_dir_if_not_exist(Err(FsErrorKind::Other)),
        Err(FsErrorKind::Other)
    );
}

#[test]
fn test_remove_all_allow_missing() {
    assert!(remove_all_allow_missing(Ok(())).is_ok());
    assert!(remove_all_allow_missing(Err(FsErrorKind::NotFound)).is_ok());
    assert_eq!(
        remove_all_allow_missing(Err(FsErrorKind::Other)),
        Err(FsErrorKind::Other)
    );
}

#[test]
fn windows_path_conversions() {
    assert_eq!(
        windows_path_to_windows_bash("C:\\Users\\lxl\\bpm\\bin"),
        "/c/Users/lxl/bpm/bin"
    );
    assert_eq!(
        windows_path_to_wsl("C:\\Users\\lxl\\bpm\\bin"),
        "/mnt/c/Users/lxl/bpm/bin"
    );
}

#[test]
fn shim_planning_builds_wrappers() {
    let mut repo = Repo::new("tool".to_string(), &Os::Windows);
    let bins = vec!["C:\\bpm\\app\\tool\\tool.exe".to_string()];
    let plans = repo.create_binary_link(&bins, "C:\\bpm\\bin");
    assert_eq!(plans.len(), 1);
    assert_eq!(plans[0].lnk_path, "C:\\bpm\\bin/tool.lnk");
    assert_eq!(plans[0].cmd_path, "C:\\bpm\\bin/tool.cmd");
    assert_eq!(plans[0].sh_path, "C:\\bpm\\bin/tool");
    assert_eq!(
        plans[0].cmd_content,
        "@echo off\n\"C:\\bpm\\app\\tool\\tool.exe\" %*"
    );
    assert!(plans[0]
        .sh_content
        .contains("\"/c/bpm/app/tool/tool.exe\" $*"));
    assert!(plans[0]
        .sh_content
        .contains("\"/mnt/c/bpm/app/tool/tool.exe\" $*"));
    assert_eq!(repo.installed_files.len(), 3);
}

#[test]
fn test_add_and_remove_path() {
    let test_path = "C:\\test\\path";

    // adding to an empty value yields just the path
    assert_eq!(add_to_env_path("", test_path), Some(test_path.to_string()));
    // adding to an existing value appends it
    let current = "C:\\windows;C:\\tools";
    let added = add_to_env_path(current, test_path).unwrap();
    assert_eq!(added, "C:\\windows;C:\\tools;C:\\test\\path");
    assert!(added.contains(test_path));
    // adding again changes nothing
    assert_eq!(add_to_env_path(&added, test_path), None);

    // removing it restores the old value
    let removed = remove_from_env_path(&added, test_path).unwrap();
    assert_eq!(removed, current);
    assert!(!removed.contains(test_path));
    // removing a path that is not present changes nothing
    assert_eq!(remove_from_env_path(&removed, test_path), None);
}
