//! Installation planning and safe reversal. The shell around the library
//! reads the extracted artifact into an [`FsTree`], asks the library for a
//! move plan, performs the moves, and records the plan in the package's file
//! ledger; a subtree's contents always precede the subtree itself, so the
//! ledger can be replayed backwards — or walked as-is leaf-first — when the
//! package is removed. Before any removal, every tracked path is checked to
//! lie under the install root.

use vstd::prelude::*;

verus! {

use vstd::string::StrSliceExecFns;
use vstd::string::StringExecFns;

use crate::err::MyError;
use crate::paths::{
    file_name, file_stem, is_subpath_of, spec_file_name, spec_file_stem, spec_is_subpath_of,
    spec_windows_bash_path, spec_wsl_path, strict_subpath, windows_abs_path,
    windows_path_to_windows_bash, windows_path_to_wsl,
};
use crate::storage::{files_view, Repo};
use crate::text::{str_ends_with, spec_ends_with};

/// One node of an extracted artifact, as the shell reports it: a file, or a
/// directory with its entries.
#[derive(Debug)]
pub enum FsTree {
    File { name: String },
    Dir { name: String, entries: Vec<FsTree> },
}

/// The name of a node.
pub open spec fn tree_name(t: FsTree) -> Seq<char> {
    match t {
        FsTree::File { name } => name@,
        FsTree::Dir { name, .. } => name@,
    }
}

/// The entry `name` of the directory `dir`.
pub open spec fn spec_child(dir: Seq<char>, name: Seq<char>) -> Seq<char> {
    dir + seq!['/'] + name
}

/// The planned moves of a subtree rooted at `src`/`dst`: for a file, the
/// move of the file itself; for a directory, the plans of its entries in
/// order, and the directory's own move after all of them.
pub open spec fn spec_move_plan(t: FsTree, src: Seq<char>, dst: Seq<char>) -> Seq<
    (Seq<char>, Seq<char>),
>
    decreases t,
{
    match t {
        FsTree::File { name } => seq![(spec_child(src, name@), spec_child(dst, name@))],
        FsTree::Dir { name, entries } => spec_move_plan_list(
            entries@,
            spec_child(src, name@),
            spec_child(dst, name@),
        ).push((spec_child(src, name@), spec_child(dst, name@))),
    }
}

/// The planned moves of a forest of sibling subtrees, in order.
pub open spec fn spec_move_plan_list(ts: Seq<FsTree>, src: Seq<char>, dst: Seq<char>) -> Seq<
    (Seq<char>, Seq<char>),
>
    decreases ts,
{
    if ts.len() == 0 {
        Seq::empty()
    } else {
        spec_move_plan_list(ts.drop_last(), src, dst) + spec_move_plan(ts.last(), src, dst)
    }
}

/// One planned move.
#[derive(Debug, PartialEq, Eq)]
pub struct MovePair {
    pub src: String,
    pub dst: String,
}

/// The views of a list of planned moves.
pub open spec fn pairs_view(ps: Seq<MovePair>) -> Seq<(Seq<char>, Seq<char>)> {
    ps.map_values(|m: MovePair| (m.src@, m.dst@))
}

/// The entry `name` of the directory `dir`, as a fresh string.
pub fn child_path(dir: &str, name: &str) -> (r: String)
    ensures
        r@ == spec_child(dir@, name@),
{
    let mut out = dir.to_owned();
    out.append("/");
    out.append(name);
    proof {
        reveal_strlit("/");
        assert(out@ =~= spec_child(dir@, name@));
    }
    out
}

/// Compute the move plan of an extracted subtree: a post-order walk, so the
/// contents of every directory are planned — and will be recorded — before
/// the directory itself.
pub fn move_plan(t: &FsTree, src: &str, dst: &str) -> (r: Vec<MovePair>)
    ensures
        pairs_view(r@) == spec_move_plan(*t, src@, dst@),
    decreases *t,
{
    #![verifier::loop_isolation(false)]
    match t {
        FsTree::File { name } => {
            let mut v: Vec<MovePair> = Vec::new();
            v.push(
                MovePair {
                    src: child_path(src, name.as_str()),
                    dst: child_path(dst, name.as_str()),
                },
            );
            proof {
                assert(pairs_view(v@) =~= spec_move_plan(*t, src@, dst@));
            }
            v
        },
        FsTree::Dir { name, entries } => {
            let csrc = child_path(src, name.as_str());
            let cdst = child_path(dst, name.as_str());
            let mut v: Vec<MovePair> = Vec::new();
            proof {
                assert(entries@.subrange(0, 0) =~= Seq::<FsTree>::empty());
                assert(pairs_view(v@) =~= spec_move_plan_list(
                    entries@.subrange(0, 0),
                    csrc@,
                    cdst@,
                ));
            }
            for i in 0..entries.len()
                invariant
                    pairs_view(v@) == spec_move_plan_list(
                        entries@.subrange(0, i as int),
                        csrc@,
                        cdst@,
                    ),
            {
                let mut sub = move_plan(&entries[i], csrc.as_str(), cdst.as_str());
                let ghost prev = v@;
                let ghost subv = sub@;
                v.append(&mut sub);
                proof {
                    assert(entries@.subrange(0, i + 1).drop_last() =~= entries@.subrange(
                        0,
                        i as int,
                    ));
                    assert(entries@.subrange(0, i + 1).last() == entries@[i as int]);
                    assert(pairs_view(prev + subv) =~= pairs_view(prev) + pairs_view(subv));
                    assert(pairs_view(v@) =~= spec_move_plan_list(
                        entries@.subrange(0, i + 1),
                        csrc@,
                        cdst@,
                    ));
                }
            }
            v.push(MovePair { src: csrc, dst: cdst });
            proof {
                assert(entries@.subrange(0, entries@.len() as int) =~= entries@);
                assert(pairs_view(v@) =~= spec_move_plan(*t, src@, dst@));
            }
            v
        },
    }
}

impl Repo {
    /// Record a performed move plan in the file ledger: the destination of
    /// every move, in plan order, is appended.
    pub fn record_move_plan(&mut self, plan: &Vec<MovePair>)
        ensures
            crate::storage::same_except_files(*final(self), *old(self)),
            files_view(final(self).installed_files@) == files_view(old(self).installed_files@)
                + pairs_view(plan@).map_values(|m: (Seq<char>, Seq<char>)| m.1),
    {
        #![verifier::loop_isolation(false)]
        let ghost dsts = pairs_view(plan@).map_values(|m: (Seq<char>, Seq<char>)| m.1);
        proof {
            assert(files_view(self.installed_files@) =~= files_view(self.installed_files@)
                + dsts.subrange(0, 0));
        }
        for i in 0..plan.len()
            invariant
                crate::storage::same_except_files(*self, *old(self)),
                files_view(self.installed_files@) == files_view(old(self).installed_files@)
                    + dsts.subrange(0, i as int),
        {
            let d = plan[i].dst.clone();
            let ghost before_files = self.installed_files@;
            self.installed_files.push(d);
            proof {
                assert(d@ == plan@[i as int].dst@);
                assert(dsts[i as int] == plan@[i as int].dst@);
                assert(self.installed_files@ == before_files.push(d));
                assert(files_view(before_files.push(d)) =~= files_view(before_files).push(d@));
                assert(files_view(before_files) == files_view(old(self).installed_files@)
                    + dsts.subrange(0, i as int));
                assert(dsts.subrange(0, i + 1) =~= dsts.subrange(0, i as int).push(
                    dsts[i as int],
                ));
                assert(files_view(self.installed_files@) =~= files_view(
                    old(self).installed_files@,
                ) + dsts.subrange(0, i + 1));
            }
        }
        proof {
            assert(dsts.subrange(0, dsts.len() as int) =~= dsts);
        }
    }
}

/// The paths to delete for an uninstall, in ledger order, provided every
/// tracked path lies under the install root. A single path outside the root
/// is fatal: no deletion at all is planned, and the offending path is
/// reported.
pub fn plan_uninstall(repo: &Repo, install_root: &str) -> (r: Result<Vec<String>, MyError>)
    ensures
        match r {
            Ok(v) => (forall|i: int| 0 <= i < repo.installed_files@.len()
                ==> spec_is_subpath_of(#[trigger] repo.installed_files@[i]@, install_root@))
                && v@.len() == repo.installed_files@.len() && (forall|i: int|
                0 <= i < v@.len() ==> #[trigger] v@[i]@ == repo.installed_files@[i]@),
            Err(e) => (exists|i: int| 0 <= i < repo.installed_files@.len()
                && !spec_is_subpath_of(#[trigger] repo.installed_files@[i]@, install_root@)) && (
            e matches MyError::UnsafeRemoval(m) && exists|i: int|
                0 <= i < repo.installed_files@.len() && m@ == #[trigger] repo.installed_files@[i]@
                    && !spec_is_subpath_of(m@, install_root@)),
        },
{
    #![verifier::loop_isolation(false)]
    let files = &repo.installed_files;
    let mut out: Vec<String> = Vec::new();
    for i in 0..files.len()
        invariant
            out@.len() == i,
            forall|j: int| 0 <= j < i ==> spec_is_subpath_of(
                #[trigger] files@[j]@,
                install_root@,
            ),
            forall|j: int| 0 <= j < i ==> #[trigger] out@[j]@ == files@[j]@,
    {
        if !is_subpath_of(files[i].as_str(), install_root) {
            return Err(MyError::UnsafeRemoval(files[i].clone()));
        }
        out.push(files[i].clone());
    }
    Ok(out)
}

/// The single entry of a directory listing, as a full path, where the
/// listing holds exactly one entry.
pub fn only_one_file_in_dir(path: &str, entries: &Vec<String>) -> (r: Option<String>)
    ensures
        match r {
            Some(p) => entries@.len() == 1 && p@ == spec_child(path@, entries@[0]@),
            None => entries@.len() != 1,
        },
{
    if entries.len() == 1 {
        Some(child_path(path, entries[0].as_str()))
    } else {
        None
    }
}

/// The native installer package to hand to the platform installer: present
/// exactly when the extracted directory holds a single entry and that entry
/// is an `.msi` file.
pub fn single_msi_in_dir(path: &str, entries: &Vec<String>) -> (r: Option<String>)
    ensures
        match r {
            Some(p) => entries@.len() == 1 && spec_ends_with(entries@[0]@, ".msi"@, true) && p@
                == spec_child(path@, entries@[0]@),
            None => entries@.len() != 1 || !spec_ends_with(entries@[0]@, ".msi"@, true),
        },
{
    if entries.len() == 1 && str_ends_with(entries[0].as_str(), ".msi", true) {
        Some(child_path(path, entries[0].as_str()))
    } else {
        None
    }
}

/// The outcome kinds of the filesystem operations the manager issues, as
/// the shell reports them.
#[derive(Debug, PartialEq, Eq, Structural, Clone, Copy)]
pub enum FsErrorKind {
    AlreadyExists,
    NotFound,
    Other,
}

/// Creating a directory that already exists is success: the outcome of the
/// shell's create call is accepted when it is `AlreadyExists`.
pub fn create_dir_if_not_exist(outcome: Result<(), FsErrorKind>) -> (r: Result<(), FsErrorKind>)
    ensures
        r is Ok <==> (outcome is Ok || outcome == Result::<(), FsErrorKind>::Err(
            FsErrorKind::AlreadyExists,
        )),
        r is Err ==> r == outcome,
{
    match outcome {
        Ok(()) => Ok(()),
        Err(FsErrorKind::AlreadyExists) => Ok(()),
        Err(k) => Err(k),
    }
}

/// Removing something already absent is success: the outcome of the shell's
/// remove call is accepted when it is `NotFound`.
pub fn remove_all_allow_missing(outcome: Result<(), FsErrorKind>) -> (r: Result<(), FsErrorKind>)
    ensures
        r is Ok <==> (outcome is Ok || outcome == Result::<(), FsErrorKind>::Err(
            FsErrorKind::NotFound,
        )),
        r is Err ==> r == outcome,
{
    match outcome {
        Ok(()) => Ok(()),
        Err(FsErrorKind::NotFound) => Ok(()),
        Err(k) => Err(k),
    }
}

/// The install prefix of a Unix-like host: the system prefix when running
/// with elevated privilege, else a per-user prefix under the home directory.
pub fn root(is_root: bool, home: &str) -> (r: String)
    ensures
        r@ == if is_root {
            "/usr"@
        } else {
            home@ + "/.local"@
        },
{
    if is_root {
        "/usr".to_owned()
    } else {
        let mut out = home.to_owned();
        out.append("/.local");
        out
    }
}

/// The binary directory under the install prefix.
pub fn bin(prefix: &str) -> (r: String)
    ensures
        r@ == prefix@ + "/bin"@,
{
    let mut out = prefix.to_owned();
    out.append("/bin");
    out
}

/// The library directory under the install prefix.
pub fn lib(prefix: &str) -> (r: String)
    ensures
        r@ == prefix@ + "/lib"@,
{
    let mut out = prefix.to_owned();
    out.append("/lib");
    out
}

/// The shared-data directory under the install prefix.
pub fn share(prefix: &str) -> (r: String)
    ensures
        r@ == prefix@ + "/share"@,
{
    let mut out = prefix.to_owned();
    out.append("/share");
    out
}

/// The service-unit directory of a Unix-like host.
pub fn services(is_root: bool, home: &str) -> (r: String)
    ensures
        r@ == if is_root {
            "/etc/systemd/system"@
        } else {
            home@ + "/.config/systemd/user"@
        },
{
    if is_root {
        "/etc/systemd/system".to_owned()
    } else {
        let mut out = home.to_owned();
        out.append("/.config/systemd/user");
        out
    }
}

/// A name holds no slash of its own.
pub open spec fn name_ok(name: Seq<char>) -> bool {
    forall|i: int| 0 <= i < name.len() ==> name[i] != '/'
}

/// A reported tree is well formed: names are slash-free and the entries of
/// every directory carry distinct names, as a filesystem guarantees.
pub open spec fn wf_tree(t: FsTree) -> bool
    decreases t,
{
    match t {
        FsTree::File { name } => name_ok(name@),
        FsTree::Dir { name, entries } => name_ok(name@) && wf_forest(entries@),
    }
}

/// Every tree of the forest is well formed and sibling names are distinct.
pub open spec fn wf_forest(ts: Seq<FsTree>) -> bool
    decreases ts,
{
    &&& forall|i: int| 0 <= i < ts.len() ==> wf_tree(#[trigger] ts[i])
    &&& forall|i: int, j: int| 0 <= i < j < ts.len() ==> tree_name(#[trigger] ts[i]) != tree_name(
        #[trigger] ts[j],
    )
}

/// A plan is leaf-first: whenever one destination lies strictly inside
/// another, the deeper one comes earlier. Files and directories deeper in a
/// tree are recorded before their ancestors.
pub open spec fn leaf_first(plan: Seq<(Seq<char>, Seq<char>)>) -> bool {
    forall|i: int, j: int| 0 <= i < plan.len() && 0 <= j < plan.len()
        && strict_subpath(#[trigger] plan[i].1, #[trigger] plan[j].1) ==> j < i
}

/// `a` is an initial segment of `p`.
pub open spec fn is_path_prefix(a: Seq<char>, p: Seq<char>) -> bool {
    a.len() <= p.len() && p.subrange(0, a.len() as int) == a
}

proof fn lemma_prefix_index(a: Seq<char>, p: Seq<char>, q: int)
    requires
        is_path_prefix(a, p),
        0 <= q < a.len(),
    ensures
        p[q] == a[q],
{
    assert(p.subrange(0, a.len() as int)[q] == p[q]);
}

proof fn lemma_prefix_trans(a: Seq<char>, b: Seq<char>, c: Seq<char>)
    requires
        is_path_prefix(a, b),
        is_path_prefix(b, c),
    ensures
        is_path_prefix(a, c),
{
    assert(c.subrange(0, a.len() as int) =~= a) by {
        assert forall|q: int| 0 <= q < a.len() implies c.subrange(0, a.len() as int)[q] == a[q] by {
            lemma_prefix_index(b, c, q);
            lemma_prefix_index(a, b, q);
        }
    }
}

proof fn lemma_subpath_prefix(p: Seq<char>, c: Seq<char>)
    requires
        spec_is_subpath_of(p, c),
    ensures
        is_path_prefix(c, p),
{
    if p == c {
        assert(p.subrange(0, c.len() as int) =~= c);
    }
}

proof fn lemma_child_index(d: Seq<char>, n: Seq<char>)
    ensures
        spec_child(d, n).len() == d.len() + 1 + n.len(),
        spec_child(d, n)[d.len() as int] == '/',
        forall|q: int| 0 <= q < n.len() ==> spec_child(d, n)[d.len() + 1 + q] == n[q],
        forall|q: int| 0 <= q < d.len() ==> spec_child(d, n)[q] == d[q],
{
    let c = spec_child(d, n);
    assert((d + seq!['/'] + n).len() == d.len() + 1 + n.len());
    assert forall|q: int| 0 <= q < n.len() implies c[d.len() + 1 + q] == n[q] by {
        assert((d + seq!['/'] + n)[d.len() + 1 + q] == n[q]);
    }
    assert forall|q: int| 0 <= q < d.len() implies c[q] == d[q] by {
        assert((d + seq!['/'] + n)[q] == d[q]);
    }
    assert((d + seq!['/'] + n)[d.len() as int] == '/');
}

/// Destinations that lie under two differently-named entries of one
/// directory never contain one another.
proof fn lemma_unrelated_subtrees(
    d: Seq<char>,
    n1: Seq<char>,
    n2: Seq<char>,
    p1: Seq<char>,
    p2: Seq<char>,
)
    requires
        n1 != n2,
        name_ok(n1),
        name_ok(n2),
        spec_is_subpath_of(p1, spec_child(d, n1)),
        spec_is_subpath_of(p2, spec_child(d, n2)),
    ensures
        !strict_subpath(p1, p2),
{
    let c1 = spec_child(d, n1);
    let c2 = spec_child(d, n2);
    lemma_child_index(d, n1);
    lemma_child_index(d, n2);
    lemma_subpath_prefix(p1, c1);
    lemma_subpath_prefix(p2, c2);
    if strict_subpath(p1, p2) {
        assert(is_path_prefix(p1, p2));
        lemma_prefix_trans(c1, p1, p2);
        if n1.len() == n2.len() {
            assert(n1 =~= n2) by {
                assert forall|q: int| 0 <= q < n1.len() implies n1[q] == n2[q] by {
                    lemma_prefix_index(c1, p2, d.len() + 1 + q);
                    lemma_prefix_index(c2, p2, d.len() + 1 + q);
                }
            }
            assert(false);
        } else if n1.len() < n2.len() {
            let q: int = d.len() as int + 1 + n1.len() as int;
            assert(p2[q] == c2[q]) by {
                lemma_prefix_index(c2, p2, q);
            }
            assert(c2[q] == n2[n1.len() as int]);
            assert(p2[q] != '/');
            if c1.len() == p1.len() {
                assert(p2[p1.len() as int] == '/');
                assert(false);
            } else {
                assert(strict_subpath(c1, p1));
                assert(p1[c1.len() as int] == '/');
                assert(p2[q] == p1[q]) by {
                    lemma_prefix_index(p1, p2, q);
                }
                assert(false);
            }
        } else {
            let q: int = d.len() as int + 1 + n2.len() as int;
            assert(p1[q] == c1[q]) by {
                lemma_prefix_index(c1, p1, q);
            }
            assert(c1[q] == n1[n2.len() as int]);
            assert(p2[q] == p1[q]) by {
                lemma_prefix_index(p1, p2, q);
            }
            assert(c2.len() < p1.len() < p2.len());
            assert(strict_subpath(c2, p2));
            assert(p2[c2.len() as int] == '/');
            assert(false);
        }
    }
}

/// Every destination of a subtree's plan lies at or under the subtree's own
/// destination, and the plan is never empty.
proof fn lemma_plan_covered(t: FsTree, src: Seq<char>, dst: Seq<char>)
    ensures
        spec_move_plan(t, src, dst).len() >= 1,
        forall|k: int| 0 <= k < spec_move_plan(t, src, dst).len() ==> spec_is_subpath_of(
            #[trigger] spec_move_plan(t, src, dst)[k].1,
            spec_child(dst, tree_name(t)),
        ),
    decreases t,
{
    match t {
        FsTree::File { name } => {},
        FsTree::Dir { name, entries } => {
            let cdst = spec_child(dst, name@);
            let csrc = spec_child(src, name@);
            lemma_plan_list_covered(entries@, csrc, cdst);
            let inner = spec_move_plan_list(entries@, csrc, cdst);
            let plan = spec_move_plan(t, src, dst);
            assert(plan == inner.push((csrc, cdst)));
            assert forall|k: int| 0 <= k < plan.len() implies spec_is_subpath_of(
                #[trigger] plan[k].1,
                cdst,
            ) by {
                if k < inner.len() {
                    assert(plan[k] == inner[k]);
                    let m = choose|m: int| 0 <= m < entries@.len() && spec_is_subpath_of(
                        inner[k].1,
                        spec_child(cdst, tree_name(entries@[m])),
                    );
                    let cm = spec_child(cdst, tree_name(entries@[m]));
                    lemma_child_index(cdst, tree_name(entries@[m]));
                    assert(cm.subrange(0, cdst.len() as int) =~= cdst) by {
                        assert forall|q: int| 0 <= q < cdst.len() implies cm.subrange(
                            0,
                            cdst.len() as int,
                        )[q] == cdst[q] by {
                            assert(cm.subrange(0, cdst.len() as int)[q] == cm[q]);
                        }
                    }
                    assert(strict_subpath(cdst, cm));
                    lemma_subpath_trans(cdst, cm, inner[k].1);
                } else {
                    assert(plan[k].1 == cdst);
                }
            }
        },
    }
}

/// Lying at-or-under is transitive.
proof fn lemma_subpath_trans(a: Seq<char>, b: Seq<char>, c: Seq<char>)
    requires
        spec_is_subpath_of(b, a),
        spec_is_subpath_of(c, b),
    ensures
        spec_is_subpath_of(c, a),
{
    if c != b && b != a {
        lemma_subpath_prefix(b, a);
        lemma_subpath_prefix(c, b);
        assert(strict_subpath(a, b) && strict_subpath(b, c));
        assert(c.subrange(0, a.len() as int) =~= a) by {
            assert forall|q: int| 0 <= q < a.len() implies c.subrange(0, a.len() as int)[q]
                == a[q] by {
                lemma_prefix_index(b, c, q);
                lemma_prefix_index(a, b, q);
                assert(c.subrange(0, a.len() as int)[q] == c[q]);
            }
        }
        assert(c[a.len() as int] == b[a.len() as int]) by {
            lemma_prefix_index(b, c, a.len() as int);
        }
    }
}

/// Every destination of a forest's plan lies at or under the destination of
/// one of the forest's own entries.
proof fn lemma_plan_list_covered(ts: Seq<FsTree>, src: Seq<char>, dst: Seq<char>)
    ensures
        forall|k: int| 0 <= k < spec_move_plan_list(ts, src, dst).len() ==> exists|m: int|
            0 <= m < ts.len() && spec_is_subpath_of(
                #[trigger] spec_move_plan_list(ts, src, dst)[k].1,
                spec_child(dst, tree_name(ts[m])),
            ),
    decreases ts,
{
    if ts.len() > 0 {
        let front = ts.drop_last();
        lemma_plan_list_covered(front, src, dst);
        lemma_plan_covered(ts.last(), src, dst);
        let pf = spec_move_plan_list(front, src, dst);
        let pl = spec_move_plan(ts.last(), src, dst);
        let plan = spec_move_plan_list(ts, src, dst);
        assert(plan == pf + pl);
        assert forall|k: int| 0 <= k < plan.len() implies exists|m: int|
            0 <= m < ts.len() && spec_is_subpath_of(
                #[trigger] plan[k].1,
                spec_child(dst, tree_name(ts[m])),
            ) by {
            if k < pf.len() {
                assert(plan[k] == pf[k]);
                let m = choose|m: int| 0 <= m < front.len() && spec_is_subpath_of(
                    pf[k].1,
                    spec_child(dst, tree_name(front[m])),
                );
                assert(front[m] == ts[m]);
                assert(spec_is_subpath_of(plan[k].1, spec_child(dst, tree_name(ts[m]))));
            } else {
                assert(plan[k] == pl[k - pf.len()]);
                let m = ts.len() - 1;
                assert(spec_is_subpath_of(plan[k].1, spec_child(dst, tree_name(ts[m]))));
            }
        }
    }
}

/// The ordering invariant of installation: in the move plan of a well-formed
/// tree, anything lying inside a directory is planned — and so recorded in
/// the file ledger — before the directory itself, so removal can proceed
/// leaf-first through the ledger.
pub proof fn lemma_move_plan_leaf_first(t: FsTree, src: Seq<char>, dst: Seq<char>)
    requires
        wf_tree(t),
    ensures
        leaf_first(spec_move_plan(t, src, dst)),
    decreases t,
{
    match t {
        FsTree::File { name } => {
            let plan = spec_move_plan(t, src, dst);
            assert forall|i: int, j: int| 0 <= i < plan.len() && 0 <= j < plan.len()
                && strict_subpath(#[trigger] plan[i].1, #[trigger] plan[j].1) implies j < i by {
                assert(i == 0 && j == 0);
                assert(!strict_subpath(plan[0].1, plan[0].1));
            }
        },
        FsTree::Dir { name, entries } => {
            let cdst = spec_child(dst, name@);
            let csrc = spec_child(src, name@);
            lemma_move_plan_list_leaf_first(entries@, csrc, cdst);
            lemma_plan_list_covered(entries@, csrc, cdst);
            let inner = spec_move_plan_list(entries@, csrc, cdst);
            let plan = spec_move_plan(t, src, dst);
            assert(plan == inner.push((csrc, cdst)));
            assert forall|i: int, j: int| 0 <= i < plan.len() && 0 <= j < plan.len()
                && strict_subpath(#[trigger] plan[i].1, #[trigger] plan[j].1) implies j < i by {
                if i < inner.len() && j < inner.len() {
                    assert(plan[i] == inner[i] && plan[j] == inner[j]);
                } else if j == inner.len() && i < inner.len() {
                    // an inner destination is longer than the directory's own
                    assert(plan[j].1 == cdst);
                    assert(plan[i] == inner[i]);
                    let m = choose|m: int| 0 <= m < entries@.len() && spec_is_subpath_of(
                        inner[i].1,
                        spec_child(cdst, tree_name(entries@[m])),
                    );
                    let cm = spec_child(cdst, tree_name(entries@[m]));
                    lemma_child_index(cdst, tree_name(entries@[m]));
                    lemma_subpath_prefix(inner[i].1, cm);
                    assert(inner[i].1.len() >= cm.len() > cdst.len());
                    assert(!strict_subpath(plan[i].1, cdst));
                } else if i == inner.len() {
                    assert(j <= i);
                    if j == i {
                        assert(!strict_subpath(plan[i].1, plan[i].1));
                    }
                }
            }
        },
    }
}

/// The ordering invariant across a forest of sibling subtrees.
pub proof fn lemma_move_plan_list_leaf_first(ts: Seq<FsTree>, src: Seq<char>, dst: Seq<char>)
    requires
        wf_forest(ts),
    ensures
        leaf_first(spec_move_plan_list(ts, src, dst)),
    decreases ts,
{
    if ts.len() > 0 {
        let front = ts.drop_last();
        let last = ts.last();
        assert(wf_forest(front)) by {
            assert forall|i: int| 0 <= i < front.len() implies wf_tree(#[trigger] front[i]) by {
                assert(front[i] == ts[i]);
            }
            assert forall|i: int, j: int| 0 <= i < j < front.len() implies tree_name(
                #[trigger] front[i],
            ) != tree_name(#[trigger] front[j]) by {
                assert(front[i] == ts[i] && front[j] == ts[j]);
            }
        }
        assert(wf_tree(last));
        lemma_move_plan_list_leaf_first(front, src, dst);
        lemma_move_plan_leaf_first(last, src, dst);
        lemma_plan_list_covered(front, src, dst);
        lemma_plan_covered(last, src, dst);
        let pf = spec_move_plan_list(front, src, dst);
        let pl = spec_move_plan(last, src, dst);
        let plan = spec_move_plan_list(ts, src, dst);
        assert(plan == pf + pl);
        assert forall|i: int, j: int| 0 <= i < plan.len() && 0 <= j < plan.len()
            && strict_subpath(#[trigger] plan[i].1, #[trigger] plan[j].1) implies j < i by {
            if i < pf.len() && j < pf.len() {
                assert(plan[i] == pf[i] && plan[j] == pf[j]);
            } else if i >= pf.len() && j >= pf.len() {
                assert(plan[i] == pl[i - pf.len()] && plan[j] == pl[j - pf.len()]);
            } else if i < pf.len() && j >= pf.len() {
                // a front destination inside a last-subtree destination:
                // impossible, the sibling names differ
                assert(plan[i] == pf[i] && plan[j] == pl[j - pf.len()]);
                let m = choose|m: int| 0 <= m < front.len() && spec_is_subpath_of(
                    pf[i].1,
                    spec_child(dst, tree_name(front[m])),
                );
                assert(front[m] == ts[m]);
                assert(tree_name(ts[m]) != tree_name(last));
                assert(wf_tree(ts[m]) && name_ok(tree_name(ts[m])));
                assert(name_ok(tree_name(last)));
                lemma_unrelated_subtrees(
                    dst,
                    tree_name(ts[m]),
                    tree_name(last),
                    plan[i].1,
                    plan[j].1,
                );
                assert(false);
            } else {
                // a last-subtree destination inside a front destination:
                // impossible for the same reason
                assert(plan[i] == pl[i - pf.len()] && plan[j] == pf[j]);
                let m = choose|m: int| 0 <= m < front.len() && spec_is_subpath_of(
                    pf[j].1,
                    spec_child(dst, tree_name(front[m])),
                );
                assert(front[m] == ts[m]);
                assert(tree_name(ts[m]) != tree_name(last));
                assert(wf_tree(ts[m]) && name_ok(tree_name(ts[m])));
                assert(name_ok(tree_name(last)));
                lemma_unrelated_subtrees(
                    dst,
                    tree_name(last),
                    tree_name(ts[m]),
                    plan[i].1,
                    plan[j].1,
                );
                assert(false);
            }
        }
    }
}

/// One planned invocation shim set for a discovered binary: a native
/// shortcut, a thin command wrapper forwarding its arguments, and a POSIX
/// shell wrapper that dispatches by runtime environment.
#[derive(Debug)]
pub struct ShimPlan {
    pub bin_path: String,
    pub lnk_path: String,
    pub cmd_path: String,
    pub sh_path: String,
    pub cmd_content: String,
    pub sh_content: String,
}

/// The stem a binary's shims are named after.
pub open spec fn spec_shim_stem(bin: Seq<char>) -> Seq<char> {
    spec_file_stem(spec_file_name(bin))
}

/// The command wrapper: quote the binary path and forward all arguments.
pub open spec fn spec_cmd_content(bin: Seq<char>) -> Seq<char> {
    "@echo off\n\""@ + bin + "\" %*"@
}

/// The shell wrapper: outside Linux call the shell-on-Windows spelling of
/// the path, inside Linux the mounted one.
pub open spec fn spec_sh_content(bin: Seq<char>) -> Seq<char> {
    "#!/bin/sh\nif [ \"$(uname)\" != \"Linux\" ]; then\n    \""@ + spec_windows_bash_path(bin)
        + "\" $*\nelse\n    \""@ + spec_wsl_path(bin) + "\" $*\nfi"@
}

/// The ledger entries one binary's shims add, in creation order.
pub open spec fn spec_shim_entries(bin_dir: Seq<char>, bin: Seq<char>) -> Seq<Seq<char>> {
    let stem = spec_shim_stem(bin);
    seq![
        spec_child(bin_dir, stem) + ".lnk"@,
        spec_child(bin_dir, stem) + ".cmd"@,
        spec_child(bin_dir, stem),
    ]
}

/// The ledger entries of all binaries' shims.
pub open spec fn spec_all_shim_entries(bin_dir: Seq<char>, bins: Seq<String>) -> Seq<Seq<char>>
    decreases bins.len(),
{
    if bins.len() == 0 {
        Seq::empty()
    } else {
        spec_all_shim_entries(bin_dir, bins.drop_last()) + spec_shim_entries(
            bin_dir,
            bins.last()@,
        )
    }
}

impl Repo {
    /// Plan the invocation shims for the discovered binaries: for each, the
    /// shortcut, command wrapper and shell wrapper paths under the shim
    /// directory, their contents, and the ledger entries, appended in
    /// creation order. The shell removes any artifact already present at a
    /// shim path, writes the planned ones, and creates the shortcut.
    pub fn create_binary_link(&mut self, bin_paths: &Vec<String>, bin_dir: &str) -> (r: Vec<
        ShimPlan,
    >)
        requires
            forall|i: int| 0 <= i < bin_paths@.len() ==> windows_abs_path(
                #[trigger] bin_paths@[i]@,
            ),
        ensures
            crate::storage::same_except_files(*final(self), *old(self)),
            files_view(final(self).installed_files@) == files_view(old(self).installed_files@)
                + spec_all_shim_entries(bin_dir@, bin_paths@),
            r@.len() == bin_paths@.len(),
            forall|i: int| 0 <= i < r@.len() ==> {
                let bin = #[trigger] bin_paths@[i]@;
                let stem = spec_shim_stem(bin);
                &&& r@[i].bin_path@ == bin
                &&& r@[i].lnk_path@ == spec_child(bin_dir@, stem) + ".lnk"@
                &&& r@[i].cmd_path@ == spec_child(bin_dir@, stem) + ".cmd"@
                &&& r@[i].sh_path@ == spec_child(bin_dir@, stem)
                &&& r@[i].cmd_content@ == spec_cmd_content(bin)
                &&& r@[i].sh_content@ == spec_sh_content(bin)
            },
    {
        #![verifier::loop_isolation(false)]
        let mut plans: Vec<ShimPlan> = Vec::new();
        proof {
            assert(bin_paths@.subrange(0, 0) =~= Seq::<String>::empty());
            assert(files_view(self.installed_files@) =~= files_view(self.installed_files@)
                + spec_all_shim_entries(bin_dir@, bin_paths@.subrange(0, 0)));
        }
        for i in 0..bin_paths.len()
            invariant
                crate::storage::same_except_files(*self, *old(self)),
                plans@.len() == i,
                files_view(self.installed_files@) == files_view(old(self).installed_files@)
                    + spec_all_shim_entries(bin_dir@, bin_paths@.subrange(0, i as int)),
                forall|k: int| 0 <= k < i ==> {
                    let bin = #[trigger] bin_paths@[k]@;
                    let stem = spec_shim_stem(bin);
                    &&& plans@[k].bin_path@ == bin
                    &&& plans@[k].lnk_path@ == spec_child(bin_dir@, stem) + ".lnk"@
                    &&& plans@[k].cmd_path@ == spec_child(bin_dir@, stem) + ".cmd"@
                    &&& plans@[k].sh_path@ == spec_child(bin_dir@, stem)
                    &&& plans@[k].cmd_content@ == spec_cmd_content(bin)
                    &&& plans@[k].sh_content@ == spec_sh_content(bin)
                },
        {
            let bin = &bin_paths[i];
            let stem = file_stem(file_name(bin.as_str()));
            let base = child_path(bin_dir, stem);
            let mut lnk_path = base.clone();
            lnk_path.append(".lnk");
            let mut cmd_path = base.clone();
            cmd_path.append(".cmd");
            let sh_path = base;

            let mut cmd_content = "@echo off\n\"".to_owned();
            cmd_content.append(bin.as_str());
            cmd_content.append("\" %*");
            proof {
                assert(cmd_content@ =~= spec_cmd_content(bin_paths@[i as int]@));
            }

            let bash_path = windows_path_to_windows_bash(bin.as_str());
            let wsl_path = windows_path_to_wsl(bin.as_str());
            let mut sh_content = "#!/bin/sh\nif [ \"$(uname)\" != \"Linux\" ]; then\n    \"".to_owned();
            sh_content.append(bash_path.as_str());
            sh_content.append("\" $*\nelse\n    \"");
            sh_content.append(wsl_path.as_str());
            sh_content.append("\" $*\nfi");
            proof {
                assert(sh_content@ =~= spec_sh_content(bin_paths@[i as int]@));
            }

            let ghost before_files = files_view(self.installed_files@);
            self.add_file_list(lnk_path.clone());
            self.add_file_list(cmd_path.clone());
            self.add_file_list(sh_path.clone());
            plans.push(
                ShimPlan {
                    bin_path: bin.clone(),
                    lnk_path,
                    cmd_path,
                    sh_path,
                    cmd_content,
                    sh_content,
                },
            );
            proof {
                assert(bin_paths@.subrange(0, i + 1).drop_last() =~= bin_paths@.subrange(
                    0,
                    i as int,
                ));
                assert(bin_paths@.subrange(0, i + 1).last() == bin_paths@[i as int]);
                assert(files_view(self.installed_files@) =~= before_files + spec_shim_entries(
                    bin_dir@,
                    bin_paths@[i as int]@,
                ));
                assert(files_view(self.installed_files@) =~= files_view(
                    old(self).installed_files@,
                ) + spec_all_shim_entries(bin_dir@, bin_paths@.subrange(0, i + 1)));
            }
        }
        proof {
            assert(bin_paths@.subrange(0, bin_paths@.len() as int) =~= bin_paths@);
        }
        plans
    }
}

} // verus!
