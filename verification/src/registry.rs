//! The registry: a keyed store of package records, `name` being the primary
//! key. Two backends satisfy the same contract: a whole-document store whose
//! contents live in memory and are written back by the shell on every
//! mutation, and a transactional store where writes go through an explicit
//! transaction and reach the store only at commit.

use vstd::prelude::*;

verus! {

use vstd::pervasive::VecAdditionalExecFns;

use crate::err::MyError;
use crate::storage::{repo_matches, Repo, RepoList};
use crate::text::str_eq;

/// The position of the first record with the given name, or `-1`.
pub open spec fn spec_find(repos: Seq<Repo>, name: Seq<char>) -> int
    decreases repos.len(),
{
    if repos.len() == 0 {
        -1
    } else if repos[0].name@ == name {
        0
    } else {
        let r = spec_find(repos.drop_first(), name);
        if r < 0 {
            -1
        } else {
            r + 1
        }
    }
}

/// Some record carries the given name.
pub open spec fn contains_name(repos: Seq<Repo>, name: Seq<char>) -> bool {
    spec_find(repos, name) >= 0
}

/// What `spec_find` returns: the first position of the name, in bounds, or
/// `-1` where no record carries it.
pub proof fn lemma_spec_find(repos: Seq<Repo>, name: Seq<char>)
    ensures
        ({
            let i = spec_find(repos, name);
            &&& -1 <= i < repos.len()
            &&& i >= 0 ==> repos[i].name@ == name && (forall|j: int|
                0 <= j < i ==> #[trigger] repos[j].name@ != name)
            &&& i < 0 ==> forall|j: int| 0 <= j < repos.len() ==> #[trigger] repos[j].name@ != name
        }),
    decreases repos.len(),
{
    if repos.len() > 0 && repos[0].name@ != name {
        lemma_spec_find(repos.drop_first(), name);
        let rest = repos.drop_first();
        let r = spec_find(rest, name);
        if r >= 0 {
            assert(repos[r + 1].name@ == name) by {
                assert(rest[r] == repos[r + 1]);
            }
            assert forall|j: int| 0 <= j < r + 1 implies #[trigger] repos[j].name@ != name by {
                if j >= 1 {
                    assert(rest[j - 1] == repos[j]);
                    assert(rest[j - 1].name@ != name);
                }
            }
        } else {
            assert forall|j: int| 0 <= j < repos.len() implies #[trigger] repos[j].name@ != name by {
                if j >= 1 {
                    assert(rest[j - 1] == repos[j]);
                    assert(rest[j - 1].name@ != name);
                }
            }
        }
    }
}

/// Insert, or replace the record already carrying the same name.
pub open spec fn spec_upsert(repos: Seq<Repo>, repo: Repo) -> Seq<Repo> {
    let i = spec_find(repos, repo.name@);
    if i < 0 {
        repos.push(repo)
    } else {
        repos.update(i, repo)
    }
}

/// Drop the record carrying the name, where one does.
pub open spec fn spec_remove(repos: Seq<Repo>, name: Seq<char>) -> Seq<Repo> {
    let i = spec_find(repos, name);
    if i < 0 {
        repos
    } else {
        repos.remove(i)
    }
}

/// Every record carries its own name: the primary key is unique.
pub open spec fn names_unique(repos: Seq<Repo>) -> bool {
    forall|i: int, j: int| 0 <= i < j < repos.len()
        ==> #[trigger] repos[i].name@ != #[trigger] repos[j].name@
}

/// The store contract both backends satisfy.
pub trait DbOperation: Sized {
    /// The records the store holds.
    spec fn repos(&self) -> Seq<Repo>;

    /// The store is well formed: names are unique.
    open spec fn db_wf(&self) -> bool {
        names_unique(self.repos())
    }

    /// The record under the name, where one is stored.
    fn get_repo(&self, name: &str) -> (r: Option<Repo>)
        requires
            self.db_wf(),
        ensures
            match r {
                Some(rep) => contains_name(self.repos(), name@) && repo_matches(
                    rep,
                    self.repos()[spec_find(self.repos(), name@)],
                ),
                None => !contains_name(self.repos(), name@),
            },
    ;

    /// All records, in storage order.
    fn get_repo_list(&self) -> (r: RepoList)
        requires
            self.db_wf(),
        ensures
            r.0@.len() == self.repos().len(),
            forall|i: int| 0 <= i < self.repos().len() ==> repo_matches(
                #[trigger] r.0@[i],
                self.repos()[i],
            ),
    ;

    /// Insert the record, or replace the one already carrying its name.
    fn insert_repo(&mut self, repo: Repo) -> (r: Result<(), MyError>)
        requires
            old(self).db_wf(),
        ensures
            final(self).db_wf(),
            ({
                let expected = spec_upsert(old(self).repos(), repo);
                &&& final(self).repos().len() == expected.len()
                &&& forall|i: int| 0 <= i < expected.len() ==> repo_matches(
                    #[trigger] final(self).repos()[i],
                    expected[i],
                )
            }),
            r is Ok,
    ;

    /// Drop the record carrying the name; asking for an unknown name is an
    /// error and changes nothing.
    fn remove_repo(&mut self, name: &str) -> (r: Result<(), MyError>)
        requires
            old(self).db_wf(),
        ensures
            final(self).db_wf(),
            match r {
                Ok(()) => contains_name(old(self).repos(), name@) && ({
                    let expected = spec_remove(old(self).repos(), name@);
                    &&& final(self).repos().len() == expected.len()
                    &&& forall|i: int| 0 <= i < expected.len() ==> repo_matches(
                        #[trigger] final(self).repos()[i],
                        expected[i],
                    )
                }),
                Err(e) => !contains_name(old(self).repos(), name@) && final(self).repos()
                    == old(self).repos() && (e matches MyError::NotFound(m) && m@ == name@),
            },
    ;
}

/// The position of the first record with the name, tied to `spec_find`.
fn find_index(list: &Vec<Repo>, name: &str) -> (r: Option<usize>)
    ensures
        match r {
            Some(i) => i == spec_find(list@, name@) && i < list@.len(),
            None => spec_find(list@, name@) < 0,
        },
{
    #![verifier::loop_isolation(false)]
    proof {
        lemma_spec_find(list@, name@);
    }
    for i in 0..list.len()
        invariant
            forall|j: int| 0 <= j < i ==> #[trigger] list@[j].name@ != name@,
    {
        if str_eq(list[i].name.as_str(), name) {
            proof {
                let f = spec_find(list@, name@);
                if f < 0 {
                    assert(list@[i as int].name@ != name@);
                    assert(false);
                }
                if f < i {
                    assert(list@[f].name@ != name@);
                    assert(false);
                }
                if f > i {
                    assert(list@[i as int].name@ != name@);
                    assert(false);
                }
            }
            return Some(i);
        }
    }
    proof {
        let f = spec_find(list@, name@);
        if f >= 0 {
            assert(list@[f].name@ != name@);
            assert(false);
        }
    }
    None
}

/// Check that no two records share a name.
fn check_names_unique(list: &Vec<Repo>) -> (r: bool)
    ensures
        r == names_unique(list@),
{
    #![verifier::loop_isolation(false)]
    for i in 0..list.len()
        invariant
            forall|a: int, b: int| 0 <= a < b < list@.len() && a < i
                ==> #[trigger] list@[a].name@ != #[trigger] list@[b].name@,
    {
        for j in (i + 1)..list.len()
            invariant
                forall|b: int| i < b < j ==> #[trigger] list@[b].name@ != list@[i as int].name@,
        {
            if str_eq(list[i].name.as_str(), list[j].name.as_str()) {
                return false;
            }
        }
    }
    true
}

fn upsert_vec(list: &mut Vec<Repo>, repo: Repo)
    requires
        names_unique(old(list)@),
    ensures
        final(list)@ == spec_upsert(old(list)@, repo),
        names_unique(final(list)@),
{
    proof {
        lemma_spec_find(list@, repo.name@);
    }
    match find_index(list, repo.name.as_str()) {
        Some(i) => {
            let ghost prev = list@;
            list.set(i, repo);
            proof {
                lemma_spec_find(prev, repo.name@);
                assert forall|a: int, b: int| 0 <= a < b < list@.len() implies
                    #[trigger] list@[a].name@ != #[trigger] list@[b].name@ by {
                    assert(prev[a].name@ != prev[b].name@);
                    if a != i as int {
                        assert(list@[a] == prev[a]);
                    }
                    if b != i as int {
                        assert(list@[b] == prev[b]);
                    }
                    assert(list@[i as int].name@ == prev[i as int].name@);
                }
            }
        },
        None => {
            list.push(repo);
            proof {
                lemma_spec_find(old(list)@, repo.name@);
                assert forall|a: int, b: int| 0 <= a < b < list@.len() implies #[trigger] list@[a].name@
                    != #[trigger] list@[b].name@ by {
                    if b == list@.len() - 1 {
                        assert(list@[a] == old(list)@[a]);
                    }
                }
            }
        },
    }
}

fn remove_vec(list: &mut Vec<Repo>, name: &str) -> (r: Result<(), MyError>)
    requires
        names_unique(old(list)@),
    ensures
        names_unique(final(list)@),
        match r {
            Ok(()) => contains_name(old(list)@, name@) && final(list)@ == spec_remove(
                old(list)@,
                name@,
            ),
            Err(e) => !contains_name(old(list)@, name@) && final(list)@ == old(list)@ && (
            e matches MyError::NotFound(m) && m@ == name@),
        },
{
    match find_index(list, name) {
        Some(i) => {
            let ghost prev = list@;
            list.remove(i);
            proof {
                assert(list@ =~= prev.remove(i as int));
                prev.remove_ensures(i as int);
                assert forall|a: int, b: int| 0 <= a < b < list@.len() implies #[trigger] list@[a].name@
                    != #[trigger] list@[b].name@ by {
                    if b < i {
                        assert(list@[a] == prev[a] && list@[b] == prev[b]);
                    } else if a < i {
                        assert(list@[a] == prev[a] && list@[b] == prev[b + 1]);
                    } else {
                        assert(list@[a] == prev[a + 1] && list@[b] == prev[b + 1]);
                    }
                }
            }
            Ok(())
        },
        None => Err(MyError::NotFound(name.to_owned())),
    }
}

fn get_vec(list: &Vec<Repo>, name: &str) -> (r: Option<Repo>)
    ensures
        match r {
            Some(rep) => contains_name(list@, name@) && repo_matches(
                rep,
                list@[spec_find(list@, name@)],
            ),
            None => !contains_name(list@, name@),
        },
{
    match find_index(list, name) {
        Some(i) => Some(list[i].clone()),
        None => None,
    }
}

/// The whole-document backend: the collection lives in memory and the shell
/// around the library serializes it back to `db_path` after every mutation.
#[derive(Debug)]
pub struct Db {
    pub db_path: String,
    pub repo_list: RepoList,
}

impl Db {
    /// Open the registry over the records loaded from `db_path` (an empty
    /// list where the store is new). A load with duplicate names is a
    /// registry fault, never silently truncated.
    pub fn create_or_open(db_path: String, loaded: RepoList) -> (r: Result<Db, MyError>)
        ensures
            match r {
                Ok(db) => names_unique(loaded.0@) && db.db_wf() && db.db_path@ == db_path@
                    && db.repos() == loaded.0@,
                Err(e) => !names_unique(loaded.0@) && e matches MyError::RegistryError(_),
            },
    {
        if check_names_unique(&loaded.0) {
            Ok(Db { db_path, repo_list: loaded })
        } else {
            Err(MyError::RegistryError(db_path))
        }
    }
}

impl DbOperation for Db {
    open spec fn repos(&self) -> Seq<Repo> {
        self.repo_list.0@
    }

    fn get_repo(&self, name: &str) -> (r: Option<Repo>) {
        get_vec(&self.repo_list.0, name)
    }

    fn get_repo_list(&self) -> (r: RepoList) {
        self.repo_list.clone()
    }

    fn insert_repo(&mut self, repo: Repo) -> (r: Result<(), MyError>) {
        upsert_vec(&mut self.repo_list.0, repo);
        proof {
            lemma_matches_refl(self.repos());
        }
        Ok(())
    }

    fn remove_repo(&mut self, name: &str) -> (r: Result<(), MyError>) {
        let r = remove_vec(&mut self.repo_list.0, name);
        proof {
            lemma_matches_refl(self.repos());
        }
        r
    }
}

/// Observable equality is reflexive across a record list.
proof fn lemma_matches_refl(repos: Seq<Repo>)
    ensures
        forall|i: int| 0 <= i < repos.len() ==> repo_matches(#[trigger] repos[i], repos[i]),
{
}

/// A read-write transaction of the transactional backend: a private copy of
/// the store. Its changes are observable only after `NativeDb::commit`.
pub struct RwTransaction {
    pub pending: RepoList,
}

impl RwTransaction {
    /// The records as this transaction sees them.
    pub open spec fn repos(&self) -> Seq<Repo> {
        self.pending.0@
    }

    /// The transaction's view is well formed.
    pub open spec fn tx_wf(&self) -> bool {
        names_unique(self.repos())
    }

    /// Insert, or replace by name, inside the transaction.
    pub fn insert(&mut self, repo: Repo)
        requires
            old(self).tx_wf(),
        ensures
            final(self).tx_wf(),
            final(self).repos() == spec_upsert(old(self).repos(), repo),
    {
        upsert_vec(&mut self.pending.0, repo);
    }

    /// Drop by name inside the transaction.
    pub fn remove(&mut self, name: &str) -> (r: Result<(), MyError>)
        requires
            old(self).tx_wf(),
        ensures
            final(self).tx_wf(),
            match r {
                Ok(()) => contains_name(old(self).repos(), name@) && final(self).repos()
                    == spec_remove(old(self).repos(), name@),
                Err(e) => !contains_name(old(self).repos(), name@) && final(self).repos()
                    == old(self).repos() && (e matches MyError::NotFound(m) && m@ == name@),
            },
    {
        remove_vec(&mut self.pending.0, name)
    }
}

/// The transactional backend: reads see only committed state, a write
/// transaction works on its own copy, and only `commit` publishes it.
#[derive(Debug)]
pub struct NativeDb {
    pub committed: RepoList,
}

impl NativeDb {
    /// Open the transactional store over the loaded records; duplicate names
    /// are a registry fault.
    pub fn create_or_open(loaded: RepoList) -> (r: Result<NativeDb, MyError>)
        ensures
            match r {
                Ok(db) => names_unique(loaded.0@) && db.db_wf() && db.repos() == loaded.0@,
                Err(e) => !names_unique(loaded.0@) && e matches MyError::RegistryError(_),
            },
    {
        if check_names_unique(&loaded.0) {
            Ok(NativeDb { committed: loaded })
        } else {
            Err(MyError::RegistryError("duplicate names in loaded registry".to_owned()))
        }
    }

    /// Begin a read-write transaction: a snapshot of the committed records.
    /// The store itself is untouched until the transaction is committed.
    pub fn rw_transaction(&self) -> (tx: RwTransaction)
        requires
            self.db_wf(),
        ensures
            tx.tx_wf(),
            tx.repos().len() == self.repos().len(),
            forall|i: int| 0 <= i < self.repos().len() ==> repo_matches(
                #[trigger] tx.repos()[i],
                self.repos()[i],
            ),
    {
        let tx = RwTransaction { pending: self.committed.clone() };
        proof {
            assert forall|i: int, j: int| 0 <= i < j < tx.repos().len() implies
                #[trigger] tx.repos()[i].name@ != #[trigger] tx.repos()[j].name@ by {
                assert(repo_matches(tx.repos()[i], self.repos()[i]));
                assert(repo_matches(tx.repos()[j], self.repos()[j]));
            }
        }
        tx
    }

    /// Publish a transaction's records as the committed state. Until this
    /// call, no reader observes them.
    pub fn commit(&mut self, tx: RwTransaction)
        requires
            old(self).db_wf(),
            tx.tx_wf(),
        ensures
            final(self).db_wf(),
            final(self).repos() == tx.repos(),
    {
        self.committed = tx.pending;
    }
}

impl DbOperation for NativeDb {
    open spec fn repos(&self) -> Seq<Repo> {
        self.committed.0@
    }

    fn get_repo(&self, name: &str) -> (r: Option<Repo>) {
        get_vec(&self.committed.0, name)
    }

    fn get_repo_list(&self) -> (r: RepoList) {
        self.committed.clone()
    }

    fn insert_repo(&mut self, repo: Repo) -> (r: Result<(), MyError>) {
        let mut tx = self.rw_transaction();
        let ghost snapshot = tx.repos();
        let ghost committed = self.repos();
        tx.insert(repo);
        proof {
            lemma_find_of_matching(snapshot, committed, repo.name@);
            lemma_spec_find(snapshot, repo.name@);
            lemma_spec_find(committed, repo.name@);
            lemma_matches_refl(snapshot);
            let expected = spec_upsert(committed, repo);
            assert(tx.repos().len() == expected.len());
            assert forall|i: int| 0 <= i < expected.len() implies repo_matches(
                #[trigger] tx.repos()[i],
                expected[i],
            ) by {
                let f = spec_find(committed, repo.name@);
                if f < 0 {
                    if i < snapshot.len() {
                        assert(tx.repos()[i] == snapshot[i]);
                        assert(expected[i] == committed[i]);
                    } else {
                        assert(tx.repos()[i] == repo && expected[i] == repo);
                    }
                } else {
                    if i == f {
                        assert(tx.repos()[i] == repo && expected[i] == repo);
                    } else {
                        assert(tx.repos()[i] == snapshot[i]);
                        assert(expected[i] == committed[i]);
                    }
                }
                assert(repo_matches(repo, repo));
            }
        }
        self.commit(tx);
        Ok(())
    }

    fn remove_repo(&mut self, name: &str) -> (r: Result<(), MyError>) {
        let mut tx = self.rw_transaction();
        let ghost snapshot = tx.repos();
        let ghost committed = self.repos();
        let res = tx.remove(name);
        proof {
            lemma_find_of_matching(snapshot, committed, name@);
            lemma_spec_find(snapshot, name@);
            lemma_spec_find(committed, name@);
        }
        match res {
            Ok(()) => {
                proof {
                    let f = spec_find(committed, name@);
                    let expected = spec_remove(committed, name@);
                    assert(tx.repos() == snapshot.remove(f));
                    snapshot.remove_ensures(f);
                    committed.remove_ensures(f);
                    assert forall|i: int| 0 <= i < expected.len() implies repo_matches(
                        #[trigger] tx.repos()[i],
                        expected[i],
                    ) by {
                        if i < f {
                            assert(tx.repos()[i] == snapshot[i]);
                            assert(expected[i] == committed[i]);
                        } else {
                            assert(tx.repos()[i] == snapshot[i + 1]);
                            assert(expected[i] == committed[i + 1]);
                        }
                    }
                }
                self.commit(tx);
                Ok(())
            },
            Err(e) => Err(e),
        }
    }
}

/// `spec_find` agrees on pointwise-matching record lists.
proof fn lemma_find_of_matching(snapshot: Seq<Repo>, repos: Seq<Repo>, name: Seq<char>)
    requires
        snapshot.len() == repos.len(),
        forall|i: int| 0 <= i < repos.len() ==> repo_matches(#[trigger] snapshot[i], repos[i]),
    ensures
        spec_find(snapshot, name) == spec_find(repos, name),
    decreases repos.len(),
{
    if repos.len() > 0 {
        assert(repo_matches(snapshot[0], repos[0]));
        if snapshot[0].name@ != name {
            assert forall|i: int| 0 <= i < repos.drop_first().len() implies repo_matches(
                #[trigger] snapshot.drop_first()[i],
                repos.drop_first()[i],
            ) by {
                assert(snapshot.drop_first()[i] == snapshot[i + 1]);
                assert(repos.drop_first()[i] == repos[i + 1]);
                assert(repo_matches(snapshot[i + 1], repos[i + 1]));
            }
            lemma_find_of_matching(snapshot.drop_first(), repos.drop_first(), name);
        }
    }
}

/// Registry round trip: after upserting two records with distinct names into
/// the empty store, both are listed; removing the first by name leaves
/// exactly the second.
pub proof fn lemma_registry_round_trip(a: Repo, b: Repo)
    requires
        a.name@ != b.name@,
    ensures
        spec_upsert(spec_upsert(Seq::empty(), a), b) =~= seq![a, b],
        spec_remove(seq![a, b], a.name@) =~= seq![b],
{
    let s0 = Seq::<Repo>::empty();
    assert(spec_find(s0, a.name@) == -1);
    let s1 = spec_upsert(s0, a);
    assert(s1 =~= seq![a]);
    assert(spec_find(s1, b.name@) == -1) by {
        assert(s1[0].name@ == a.name@);
        assert(s1.drop_first() =~= s0);
        assert(spec_find(s1.drop_first(), b.name@) == -1);
    }
    let s2 = spec_upsert(s1, b);
    assert(s2 =~= seq![a, b]);
    assert(spec_find(seq![a, b], a.name@) == 0);
    assert(seq![a, b].remove(0) =~= seq![b]);
}

} // verus!
