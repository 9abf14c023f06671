use bpm::err::MyError;
use bpm::filter::Os;
use bpm::registry::{Db, DbOperation, NativeDb};
use bpm::storage::{Repo, RepoList};

fn record(name: &str, url: &str) -> Repo {
    Repo::new(name.to_string(), &Os::Linux).by_url(url).unwrap()
}

#[test]
fn mod_test_db_basic_operation() {
    let mut db = Db::create_or_open("test.ron".to_string(), RepoList(Vec::new())).unwrap();
    db.insert_repo(record("bpm", "https://github.com/lxl66566/bpm-rs/"))
        .unwrap();
    db.insert_repo(record("abd", "https://github.com/lxl6656645/b132/"))
        .unwrap();
    let all = db.get_repo_list();
    assert_eq!(all.len(), 2);
}

#[test]
fn db_test_db_basic_operation() {
    let mut db = NativeDb::create_or_open(RepoList(Vec::new())).unwrap();
    let mut rw = db.rw_transaction();
    rw.insert(record("bpm", "https://github.com/lxl66566/bpm-rs/"));
    rw.insert(record("abd", "https://github.com/lxl6656645/b132/"));
    db.commit(rw);
    let all = db.get_repo_list();
    assert_eq!(all.0.len(), 2);
}

#[test]
fn native_test_db_basic_operation() {
    let mut db = NativeDb::create_or_open(RepoList(Vec::new())).unwrap();
    let mut rw = db.rw_transaction();
    rw.insert(record("bpm", "https://github.com/lxl66566/bpm-rs/"));
    rw.insert(record("abd", "https://github.com/lxl6656645/b132/"));
    db.commit(rw);
    let all = db.get_repo_list();
    assert_eq!(all.0.len(), 2);
}

#[test]
fn registry_round_trip_document_backend() {
    let mut db = Db::create_or_open("reg.json".to_string(), RepoList(Vec::new())).unwrap();
    let a = record("aaa", "https://github.com/o1/aaa/");
    let b = record("bbb", "https://github.com/o2/bbb/");
    db.insert_repo(a).unwrap();
    db.insert_repo(b).unwrap();
    assert_eq!(db.get_repo_list().len(), 2);
    db.remove_repo("aaa").unwrap();
    let left = db.get_repo_list();
    assert_eq!(left.len(), 1);
    assert_eq!(left.0[0].name, "bbb");
}

#[test]
fn registry_round_trip_transactional_backend() {
    let mut db = NativeDb::create_or_open(RepoList(Vec::new())).unwrap();
    let a = record("aaa", "https://github.com/o1/aaa/");
    let b = record("bbb", "https://github.com/o2/bbb/");
    db.insert_repo(a).unwrap();
    db.insert_repo(b).unwrap();
    assert_eq!(db.get_repo_list().0.len(), 2);
    db.remove_repo("aaa").unwrap();
    let left = db.get_repo_list();
    assert_eq!(left.0.len(), 1);
    assert_eq!(left.0[0].name, "bbb");
}

#[test]
fn upsert_replaces_by_name() {
    let mut db = Db::create_or_open("reg.json".to_string(), RepoList(Vec::new())).unwrap();
    let first = record("tool", "https://github.com/owner/tool/");
    let mut second = record("tool", "https://github.com/owner/tool/");
    second.version = Some("v2".to_string());
    db.insert_repo(first).unwrap();
    db.insert_repo(second).unwrap();
    let all = db.get_repo_list();
    assert_eq!(all.len(), 1);
    assert_eq!(all.0[0].version.as_deref(), Some("v2"));
    let found = db.get_repo("tool").unwrap();
    assert_eq!(found.version.as_deref(), Some("v2"));
}

#[test]
fn remove_of_unknown_name_is_not_found() {
    let mut db = Db::create_or_open("reg.json".to_string(), RepoList(Vec::new())).unwrap();
    let err = db.remove_repo("ghost").unwrap_err();
    assert_eq!(err, MyError::NotFound("ghost".to_string()));
    assert!(db.get_repo("ghost").is_none());
}

#[test]
fn uncommitted_transaction_is_not_observable() {
    let db = NativeDb::create_or_open(RepoList(Vec::new())).unwrap();
    let mut rw = db.rw_transaction();
    rw.insert(record("bpm", "https://github.com/lxl66566/bpm-rs/"));
    // the transaction was never committed: readers still see nothing
    assert_eq!(db.get_repo_list().0.len(), 0);
    assert!(db.get_repo("bpm").is_none());
}

#[test]
fn open_rejects_duplicate_names() {
    let a = record("dup", "https://github.com/o1/dup/");
    let b = record("dup", "https://github.com/o2/dup/");
    let loaded = RepoList(vec![a, b]);
    assert!(matches!(
        Db::create_or_open("reg.json".to_string(), loaded),
        Err(MyError::RegistryError(_))
    ));
}
