use bpm::err::MyError;
use bpm::filter::{Arch, Host, Os};
use bpm::storage::{split_full_name, Repo, Site};
use bpm::urls::{fmt_repo_list, join_all, path_join};

fn new_repo(name: &str) -> Repo {
    Repo::new(name.to_string(), &Os::Linux)
}

#[test]
fn url_test_url_join_all() {
    let base_url = "https://codegeex.cn";
    let paths: Vec<String> = ["foo", "bar", "baz/asdf"]
        .iter()
        .map(|s| s.to_string())
        .collect();
    let url = join_all(base_url, &paths);
    assert_eq!(url.as_str(), "https://codegeex.cn/foo/bar/baz/asdf");
}

#[test]
fn mod_test_url_join_all() {
    let base_url = "https://codegeex.cn";
    let paths: Vec<String> = ["foo", "bar", "baz/asdf"]
        .iter()
        .map(|s| s.to_string())
        .collect();
    let url = join_all(base_url, &paths);
    assert_eq!(url.as_str(), "https://codegeex.cn/foo/bar/baz/asdf");
}

#[test]
fn search_test_set_by_url() {
    let mut repo = new_repo("tool");
    repo.set_by_url("https://github.com/lxl66566/bpm-rs/").unwrap();
    assert_eq!(repo.url().unwrap().as_str(), "https://github.com/lxl66566/bpm-rs");
    assert_eq!(repo.repo_name.unwrap(), "bpm-rs");
    assert_eq!(repo.repo_owner.unwrap(), "lxl66566");
}

#[test]
fn mod_test_set_by_url() {
    let repo = new_repo("abc")
        .by_url("https://github.com/lxl66566/bpm-rs/")
        .unwrap();
    assert_eq!(
        repo.url().unwrap().as_str(),
        "https://github.com/lxl66566/bpm-rs"
    );
    assert_eq!(repo.repo_name.unwrap(), "bpm-rs");
    assert_eq!(repo.repo_owner.unwrap(), "lxl66566");
}

#[test]
fn split_full_name_accepts_two_parts() {
    let (owner, name) = split_full_name(" /me/myrepo/ ").unwrap();
    assert_eq!(owner, "me");
    assert_eq!(name, "myrepo");
}

#[test]
fn split_full_name_rejects_other_shapes() {
    assert!(matches!(
        split_full_name("justaname"),
        Err(MyError::InvalidIdentifier(_))
    ));
    assert!(matches!(
        split_full_name("a/b/c"),
        Err(MyError::InvalidIdentifier(_))
    ));
    assert!(matches!(
        split_full_name(""),
        Err(MyError::InvalidIdentifier(_))
    ));
}

#[test]
fn url_before_resolution_is_invalid_state() {
    let repo = new_repo("tool");
    assert!(matches!(repo.url(), Err(MyError::InvalidIdentifier(_))));
}

#[test]
fn set_by_url_rejects_non_urls() {
    let mut repo = new_repo("tool");
    let err = repo.set_by_url("eza").unwrap_err();
    assert!(matches!(err, MyError::InvalidIdentifier(_)));
    assert!(repo.repo_owner.is_none());
    assert!(repo.repo_name.is_none());
}

#[test]
fn with_bin_name_appends_exe_on_windows() {
    let repo = Repo::new("tool".to_string(), &Os::Windows);
    assert_eq!(repo.bin_name, "*.exe");
    let repo = repo.with_bin_name("mybin".to_string(), &Os::Windows);
    assert_eq!(repo.bin_name, "mybin.exe");
    let repo = repo.with_bin_name("given.EXE".to_string(), &Os::Windows);
    assert_eq!(repo.bin_name, "given.EXE");
    let repo = repo.with_bin_name("plain".to_string(), &Os::Linux);
    assert_eq!(repo.bin_name, "plain");
}

#[test]
fn dedup_file_list_sorts_and_drops_duplicates() {
    let mut repo = new_repo("tool");
    repo.add_file_list("/r/b".to_string());
    repo.add_file_list("/r/a".to_string());
    repo.add_file_list("/r/b".to_string());
    repo.add_file_list("/r/c".to_string());
    repo.dedup_file_list();
    assert_eq!(
        repo.installed_files,
        vec!["/r/a".to_string(), "/r/b".to_string(), "/r/c".to_string()]
    );
}

#[test]
fn site_bases() {
    assert_eq!(Site::Github.base(), "https://github.com");
    assert_eq!(Site::Github.api_base(), "https://api.github.com");
    assert_eq!(Site::default(), Site::Github);
}

#[test]
fn path_join_joins_segments() {
    let parts: Vec<String> = ["a", "b/c", "d"].iter().map(|s| s.to_string()).collect();
    assert_eq!(path_join(&parts), "a/b/c/d");
    let absolute: Vec<String> = ["a", "/etc", "d"].iter().map(|s| s.to_string()).collect();
    assert_eq!(path_join(&absolute), "/etc/d");
}

#[test]
fn fmt_repo_list_pads_columns() {
    let row = fmt_repo_list("bpm-rs", "https://github.com/lxl66566/bpm-rs", "v1.0");
    assert_eq!(
        row,
        format!(
            "{:20}{:50}{:20}",
            "bpm-rs", "https://github.com/lxl66566/bpm-rs", "v1.0"
        )
    );
}

#[test]
fn repo_parse_takes_url_or_name() {
    let from_url = Repo::parse("https://github.com/lxl66566/bpm-rs/", &Os::Linux).unwrap();
    assert_eq!(from_url.name, "bpm-rs");
    assert_eq!(from_url.repo_owner.as_deref(), Some("lxl66566"));
    assert_eq!(from_url.repo_name.as_deref(), Some("bpm-rs"));

    let from_name = Repo::parse("eza", &Os::Linux).unwrap();
    assert!(from_name.repo_owner.is_none());
    assert_eq!(from_name.name, "eza");

    assert!(matches!(
        Repo::parse("bin", &Os::Windows),
        Err(MyError::InvalidIdentifier(_))
    ));
    assert!(Repo::parse("bin", &Os::Linux).is_ok());
}

#[test]
fn get_asset_selects_for_host() {
    let host = Host {
        os: Os::Linux,
        arch: Arch::X86_64,
    };
    let assets: Vec<String> = [
        "tool-darwin-arm64.tar.gz",
        "tool-linux-x86_64.tar.gz",
        "tool-windows-x86_64.zip",
    ]
    .iter()
    .map(|s| s.to_string())
    .collect();
    let mut repo = new_repo("tool");
    repo.get_asset("v1.2.3".to_string(), assets, &host).unwrap();
    assert_eq!(repo.asset.as_deref(), Some("tool-linux-x86_64.tar.gz"));
    assert_eq!(repo.version.as_deref(), Some("v1.2.3"));
}

#[test]
fn get_asset_reports_no_available_asset() {
    let host = Host {
        os: Os::Windows,
        arch: Arch::X86_64,
    };
    let assets: Vec<String> = vec!["tool-linux-x86_64.tar.gz".to_string()];
    let mut repo = new_repo("tool");
    let err = repo
        .get_asset("v1.2.3".to_string(), assets, &host)
        .unwrap_err();
    assert_eq!(err, MyError::NoAvailableAsset);
    assert!(repo.asset.is_none());
    assert!(repo.version.is_none());
}

#[test]
fn update_asset_reports_version_change() {
    let host = Host {
        os: Os::Linux,
        arch: Arch::X86_64,
    };
    let assets = vec!["tool-linux-x86_64.tar.gz".to_string()];
    let mut repo = new_repo("tool");
    repo.get_asset("v1.0.0".to_string(), assets.clone(), &host)
        .unwrap();

    let unchanged = repo
        .update_asset("v1.0.0".to_string(), assets.clone(), &host)
        .unwrap();
    assert!(unchanged.is_none());

    let changed = repo
        .update_asset("v2.0.0".to_string(), assets, &host)
        .unwrap();
    assert_eq!(
        changed,
        Some(("v1.0.0".to_string(), "v2.0.0".to_string()))
    );
    assert_eq!(repo.version.as_deref(), Some("v2.0.0"));
}

#[test]
fn pick_search_result_needs_an_answer() {
    let mut repo = new_repo("tool");
    let err = repo.pick_search_result(&Vec::new(), 0).unwrap_err();
    assert!(matches!(err, MyError::RemoteApiError(_)));

    let items = vec!["https://github.com/lxl66566/bpm-rs/".to_string()];
    repo.pick_search_result(&items, 0).unwrap();
    assert_eq!(repo.repo_owner.as_deref(), Some("lxl66566"));
}

#[test]
fn error_messages_carry_context() {
    assert_eq!(
        MyError::NoAvailableAsset.message(),
        "no available asset found in this repo"
    );
    assert_eq!(
        MyError::NotFound("eza".to_string()).message(),
        "no such package: eza"
    );
    assert!(MyError::UnsafeRemoval("/etc/passwd".to_string()).is_fatal());
    assert!(MyError::RegistryError("open".to_string()).is_fatal());
    assert!(!MyError::NoAvailableAsset.is_fatal());
}
