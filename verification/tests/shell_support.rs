use bpm::config::Config;
use bpm::fetch::download_filename;
use bpm::install::{bin, lib, root, services, share};
use bpm::registry::{Db, DbOperation};
use bpm::storage::RepoList;

#[test]
fn download_filename_uses_the_asset_extension() {
    assert_eq!(
        download_filename(
            "reqwest_test",
            "https://github.com/seanmonstar/reqwest/archive/refs/tags/v0.1.0.zip"
        ),
        "reqwest_test.zip"
    );
    assert_eq!(download_filename("tool", "https://host/path/tool-bin"), "tool.");
}

#[test]
fn unix_layout_follows_privilege() {
    assert_eq!(root(true, "/home/u"), "/usr");
    assert_eq!(root(false, "/home/u"), "/home/u/.local");
    let prefix = root(false, "/home/u");
    assert_eq!(bin(&prefix), "/home/u/.local/bin");
    assert_eq!(lib(&prefix), "/home/u/.local/lib");
    assert_eq!(share(&prefix), "/home/u/.local/share");
    assert_eq!(services(true, "/home/u"), "/etc/systemd/system");
    assert_eq!(services(false, "/home/u"), "/home/u/.config/systemd/user");
}

#[test]
fn config_paths_follow_the_install_position() {
    let db = Db::create_or_open("/home/u/.config/bpm/db".to_string(), RepoList(Vec::new()))
        .unwrap();
    let config = Config::new(
        "/home/u/.bpm".to_string(),
        "/tmp/.bpm".to_string(),
        "/home/u/.config/bpm/db".to_string(),
        false,
        db,
    );
    assert_eq!(config.app_path(), "/home/u/.bpm/app");
    assert_eq!(config.bin_path(), "/home/u/.bpm/bin");
    assert_eq!(config.cache_path(), "/tmp/.bpm");
    assert!(!config.dry_run);
    assert_eq!(config.db().get_repo_list().len(), 0);
}
