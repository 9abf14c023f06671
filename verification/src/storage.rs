//! The package record: its remote identity (site, owner, repository), the
//! resolved asset and version, and the ledger of installed files that drives
//! safe removal.

use vstd::prelude::*;

verus! {

use vstd::string::StrSliceExecFns;
use vstd::string::StringExecFns;

use crate::err::MyError;
use crate::filter::Os;
use crate::text::{
    lemma_seq_le_antisym, lemma_seq_le_total, lemma_seq_le_trans, seq_le, spec_ends_with,
    spec_trim_name, str_ends_with, str_eq, str_le, strip_trailing_slashes, trim_name_range,
};
use crate::urls::{join_all, parse_url_path, spec_join_all, url_path_of};

/// The remote forge a package lives on.
#[derive(Debug, PartialEq, Eq, Clone, Copy)]
#[non_exhaustive]
pub enum Site {
    Github,
}

impl Site {
    /// The web base of the forge.
    pub fn base(&self) -> (r: String)
        ensures
            r@ == "https://github.com"@,
    {
        "https://github.com".to_owned()
    }

    /// The API base of the forge.
    pub fn api_base(&self) -> (r: String)
        ensures
            r@ == "https://api.github.com"@,
    {
        "https://api.github.com".to_owned()
    }
}

impl Default for Site {
    /// The default forge.
    fn default() -> (r: Self)
        ensures
            r == Site::Github,
    {
        Site::Github
    }
}

/// `owner` and `name` decompose the trimmed full name `t` at its single
/// slash, and neither part holds a slash of its own.
pub open spec fn is_fullname_split(t: Seq<char>, owner: Seq<char>, name: Seq<char>) -> bool {
    &&& t == owner + seq!['/'] + name
    &&& forall|i: int| 0 <= i < owner.len() ==> owner[i] != '/'
    &&& forall|i: int| 0 <= i < name.len() ==> name[i] != '/'
}

/// After trimming, the full name consists of exactly two parts.
pub open spec fn fullname_ok(s: Seq<char>) -> bool {
    exists|o: Seq<char>, n: Seq<char>| is_fullname_split(spec_trim_name(s), o, n)
}

/// A trimmed full name decomposes in at most one way.
pub proof fn lemma_fullname_split_unique(
    t: Seq<char>,
    o1: Seq<char>,
    n1: Seq<char>,
    o2: Seq<char>,
    n2: Seq<char>,
)
    requires
        is_fullname_split(t, o1, n1),
        is_fullname_split(t, o2, n2),
    ensures
        o1 == o2,
        n1 == n2,
{
    assert(t[o1.len() as int] == '/');
    assert(t[o2.len() as int] == '/');
    if o1.len() < o2.len() {
        assert(o2[o1.len() as int] == '/');
        assert(false);
    }
    if o2.len() < o1.len() {
        assert(o1[o2.len() as int] == '/');
        assert(false);
    }
    assert((o1 + seq!['/'] + n1).len() == o1.len() + 1 + n1.len());
    assert((o2 + seq!['/'] + n2).len() == o2.len() + 1 + n2.len());
    assert(n1.len() == n2.len());
    assert forall|i: int| 0 <= i < o1.len() implies o1[i] == o2[i] by {
        assert((o1 + seq!['/'] + n1)[i] == o1[i]);
        assert((o2 + seq!['/'] + n2)[i] == o2[i]);
    }
    assert(o1 =~= o2);
    assert forall|i: int| 0 <= i < n1.len() implies n1[i] == n2[i] by {
        assert((o1 + seq!['/'] + n1)[o1.len() + 1 + i] == n1[i]);
        assert((o2 + seq!['/'] + n2)[o2.len() + 1 + i] == n2[i]);
    }
    assert(n1 =~= n2);
}

/// The owner and repository parts of a full name, where it has exactly two.
pub open spec fn spec_fullname_parts(s: Seq<char>) -> Option<(Seq<char>, Seq<char>)> {
    if fullname_ok(s) {
        Some(choose|o: Seq<char>, n: Seq<char>| is_fullname_split(spec_trim_name(s), o, n))
    } else {
        None
    }
}

/// Split a full name such as `me/myrepo` into its owner and repository
/// parts, after trimming slashes and whitespace from both ends. A full name
/// with more or fewer than two parts is rejected.
pub fn split_full_name(full_name: &str) -> (r: Result<(String, String), MyError>)
    ensures
        r is Ok <==> fullname_ok(full_name@),
        r matches Ok(p) ==> spec_fullname_parts(full_name@) == Some((p.0@, p.1@)),
        r matches Err(e) ==> e matches MyError::InvalidIdentifier(m) && m@ == full_name@,
{
    #![verifier::loop_isolation(false)]
    let (start, end) = trim_name_range(full_name);
    let ghost t = spec_trim_name(full_name@);
    let mut slash_count: usize = 0;
    let mut slash_pos: usize = 0;
    for i in start..end
        invariant
            start <= i <= end,
            slash_count <= i - start,
            (slash_count == 0) <==> (forall|j: int| start <= j < i ==> full_name@[j] != '/'),
            slash_count == 1 ==> start <= slash_pos < i && full_name@[slash_pos as int] == '/'
                && (forall|j: int| start <= j < i && j != slash_pos ==> full_name@[j] != '/'),
            slash_count >= 2 ==> exists|j1: int, j2: int|
                start <= j1 < j2 < i && #[trigger] full_name@[j1] == '/' && #[trigger] full_name@[j2] == '/',
    {
        let c = full_name.get_char(i);
        if c == '/' {
            if slash_count == 0 {
                slash_pos = i;
            }
            slash_count = slash_count + 1;
        }
    }
    if slash_count == 1 {
        let owner = full_name.substring_char(start, slash_pos).to_owned();
        let name = full_name.substring_char(slash_pos + 1, end).to_owned();
        proof {
            assert(t =~= owner@ + seq!['/'] + name@);
            assert(is_fullname_split(t, owner@, name@));
            let (co, cn) = choose|o: Seq<char>, n: Seq<char>| is_fullname_split(t, o, n);
            lemma_fullname_split_unique(t, co, cn, owner@, name@);
        }
        Ok((owner, name))
    } else {
        proof {
            if fullname_ok(full_name@) {
                let (o, n) = choose|o: Seq<char>, n: Seq<char>| is_fullname_split(t, o, n);
                assert(t[o.len() as int] == '/');
                assert(t == full_name@.subrange(start as int, end as int));
                assert(t.len() == end - start);
                assert(full_name@.subrange(start as int, end as int)[o.len() as int] == '/');
                assert(full_name@[start + o.len()] == '/');
                if slash_count == 0 {
                    assert(false);
                } else {
                    let (j1, j2) = choose|j1: int, j2: int|
                        start <= j1 < j2 < end && #[trigger] full_name@[j1] == '/' && #[trigger] full_name@[j2] == '/';
                    assert(full_name@.subrange(start as int, end as int)[j1 - start] == '/');
                    assert(full_name@.subrange(start as int, end as int)[j2 - start] == '/');
                    assert(t[j1 - start] == '/');
                    assert(t[j2 - start] == '/');
                    if j1 - start < o.len() {
                        assert(o[j1 - start] == '/');
                    } else if j1 - start > o.len() {
                        assert(n[j1 - start - o.len() - 1] == '/');
                    }
                    if j2 - start < o.len() {
                        assert(o[j2 - start] == '/');
                    } else if j2 - start > o.len() {
                        assert(n[j2 - start - o.len() - 1] == '/');
                    }
                    assert(false);
                }
            }
        }
        Err(MyError::InvalidIdentifier(full_name.to_owned()))
    }
}

/// The views of a file ledger's entries.
pub open spec fn files_view(files: Seq<String>) -> Seq<Seq<char>> {
    files.map_values(|s: String| s@)
}

/// The view of an optional string.
pub open spec fn opt_view(o: Option<String>) -> Option<Seq<char>> {
    match o {
        Some(s) => Some(s@),
        None => None,
    }
}

/// A managed package: its unique name, the pattern that locates its
/// executables, its remote identity once resolved, the chosen asset and
/// version, the ledger of installed files, and its option flags.
#[derive(Debug, PartialEq, Eq)]
pub struct Repo {
    pub name: String,
    pub bin_name: String,
    pub site: Site,
    pub repo_name: Option<String>,
    pub repo_owner: Option<String>,
    pub asset: Option<String>,
    pub version: Option<String>,
    pub installed_files: Vec<String>,
    pub prefer_gnu: bool,
    pub no_pre: bool,
    pub one_bin: bool,
    pub is_msi: bool,
}

/// Observable equality of two records: every stored value agrees.
pub open spec fn repo_matches(a: Repo, b: Repo) -> bool {
    &&& a.name@ == b.name@
    &&& a.bin_name@ == b.bin_name@
    &&& a.site == b.site
    &&& opt_view(a.repo_name) == opt_view(b.repo_name)
    &&& opt_view(a.repo_owner) == opt_view(b.repo_owner)
    &&& opt_view(a.asset) == opt_view(b.asset)
    &&& opt_view(a.version) == opt_view(b.version)
    &&& files_view(a.installed_files@) == files_view(b.installed_files@)
    &&& a.prefer_gnu == b.prefer_gnu
    &&& a.no_pre == b.no_pre
    &&& a.one_bin == b.one_bin
    &&& a.is_msi == b.is_msi
}

/// All fields but the remote identity (owner and repository name) agree.
pub open spec fn same_except_identity(a: Repo, b: Repo) -> bool {
    &&& a.name == b.name
    &&& a.bin_name == b.bin_name
    &&& a.site == b.site
    &&& a.asset == b.asset
    &&& a.version == b.version
    &&& a.installed_files == b.installed_files
    &&& a.prefer_gnu == b.prefer_gnu
    &&& a.no_pre == b.no_pre
    &&& a.one_bin == b.one_bin
    &&& a.is_msi == b.is_msi
}

/// All fields but the chosen asset and version agree.
pub open spec fn same_except_resolution(a: Repo, b: Repo) -> bool {
    &&& a.name == b.name
    &&& a.bin_name == b.bin_name
    &&& a.site == b.site
    &&& a.repo_name == b.repo_name
    &&& a.repo_owner == b.repo_owner
    &&& a.installed_files == b.installed_files
    &&& a.prefer_gnu == b.prefer_gnu
    &&& a.no_pre == b.no_pre
    &&& a.one_bin == b.one_bin
    &&& a.is_msi == b.is_msi
}

/// All fields but the file ledger agree.
pub open spec fn same_except_files(a: Repo, b: Repo) -> bool {
    &&& a.name == b.name
    &&& a.bin_name == b.bin_name
    &&& a.site == b.site
    &&& a.repo_name == b.repo_name
    &&& a.repo_owner == b.repo_owner
    &&& a.asset == b.asset
    &&& a.version == b.version
    &&& a.prefer_gnu == b.prefer_gnu
    &&& a.no_pre == b.no_pre
    &&& a.one_bin == b.one_bin
    &&& a.is_msi == b.is_msi
}

fn clone_opt_string(o: &Option<String>) -> (r: Option<String>)
    ensures
        r == *o,
{
    match o {
        Some(s) => Some(s.clone()),
        None => None,
    }
}

impl Clone for Repo {
    /// A clone is observably equal to its original.
    fn clone(&self) -> (r: Self)
        ensures
            repo_matches(r, *self),
    {
        let r = Repo {
            name: self.name.clone(),
            bin_name: self.bin_name.clone(),
            site: self.site,
            repo_name: clone_opt_string(&self.repo_name),
            repo_owner: clone_opt_string(&self.repo_owner),
            asset: clone_opt_string(&self.asset),
            version: clone_opt_string(&self.version),
            installed_files: self.installed_files.clone(),
            prefer_gnu: self.prefer_gnu,
            no_pre: self.no_pre,
            one_bin: self.one_bin,
            is_msi: self.is_msi,
        };
        proof {
            assert(r.installed_files@ =~= self.installed_files@);
        }
        r
    }
}

/// The canonical URL of the record's remote repository, where its identity
/// is resolved: the forge base, the owner and the repository name, joined
/// with single slashes and without a trailing slash.
pub open spec fn spec_url(r: Repo) -> Option<Seq<char>> {
    match (r.repo_owner, r.repo_name) {
        (Some(o), Some(n)) => Some(
            "https://github.com"@ + seq!['/'] + strip_trailing_slashes(o@) + seq!['/']
                + strip_trailing_slashes(n@),
        ),
        _ => None,
    }
}

impl Repo {
    /// A fresh, unresolved record. On Windows the default binary pattern is
    /// any executable; elsewhere it is the package name itself. The names
    /// `app` and `bin` collide with the install layout on Windows and are
    /// refused there.
    pub fn new(name: String, os: &Os) -> (r: Repo)
        requires
            !(*os is Windows && (name@ == "app"@ || name@ == "bin"@)),
        ensures
            r.name@ == name@,
            r.bin_name@ == if *os is Windows {
                "*.exe"@
            } else {
                name@
            },
            r.site == Site::Github,
            r.repo_name is None,
            r.repo_owner is None,
            r.asset is None,
            r.version is None,
            r.installed_files@.len() == 0,
            !r.prefer_gnu,
            !r.no_pre,
            !r.one_bin,
            !r.is_msi,
    {
        let bin_name = match os {
            Os::Windows => "*.exe".to_owned(),
            _ => name.clone(),
        };
        Repo {
            name,
            bin_name,
            site: Site::Github,
            repo_name: None,
            repo_owner: None,
            asset: None,
            version: None,
            installed_files: Vec::new(),
            prefer_gnu: false,
            no_pre: false,
            one_bin: false,
            is_msi: false,
        }
    }

    /// Set the binary pattern. On Windows a name that does not already end
    /// in `.exe` (in any case) gets the suffix appended.
    pub fn with_bin_name(self, bin_name: String, os: &Os) -> (r: Repo)
        ensures
            r.bin_name@ == if *os is Windows {
                if spec_ends_with(bin_name@, ".exe"@, false) {
                    bin_name@
                } else {
                    bin_name@ + ".exe"@
                }
            } else {
                bin_name@
            },
            r.name == self.name,
            r.site == self.site,
            r.repo_name == self.repo_name,
            r.repo_owner == self.repo_owner,
            r.asset == self.asset,
            r.version == self.version,
            r.installed_files == self.installed_files,
            r.prefer_gnu == self.prefer_gnu,
            r.no_pre == self.no_pre,
            r.one_bin == self.one_bin,
            r.is_msi == self.is_msi,
    {
        let new_bin = match os {
            Os::Windows => {
                if str_ends_with(bin_name.as_str(), ".exe", false) {
                    bin_name
                } else {
                    bin_name.concat(".exe")
                }
            },
            _ => bin_name,
        };
        Repo { bin_name: new_bin, ..self }
    }

    /// The canonical URL of the remote repository. Asking before both owner
    /// and repository name are set is an invalid-state error, never a crash.
    pub fn url(&self) -> (r: Result<String, MyError>)
        ensures
            match r {
                Ok(u) => spec_url(*self) == Some(u@),
                Err(e) => spec_url(*self) is None && e matches MyError::InvalidIdentifier(_),
            },
    {
        match (&self.repo_owner, &self.repo_name) {
            (Some(o), Some(n)) => {
                let base = self.site.base();
                let mut segs: Vec<String> = Vec::new();
                segs.push(o.clone());
                segs.push(n.clone());
                let u = join_all(base.as_str(), &segs);
                proof {
                    let b = "https://github.com"@;
                    let s2 = segs@;
                    let s1 = s2.drop_last();
                    let s0 = s1.drop_last();
                    assert(s0 =~= Seq::<String>::empty());
                    assert(spec_join_all(b, s0) == strip_trailing_slashes(b));
                    assert(strip_trailing_slashes(b) == b) by {
                        reveal_strlit("https://github.com");
                    }
                    assert(s1.last()@ == o@);
                    assert(s2.last()@ == n@);
                    assert(s1.len() == 1 && s2.len() == 2);
                    assert(spec_join_all(b, s1) == spec_join_all(b, s0) + seq!['/']
                        + strip_trailing_slashes(s1.last()@));
                    assert(spec_join_all(b, s2) == spec_join_all(b, s1) + seq!['/']
                        + strip_trailing_slashes(s2.last()@));
                    assert(u@ =~= b + seq!['/'] + strip_trailing_slashes(o@) + seq!['/']
                        + strip_trailing_slashes(n@));
                }
                Ok(u)
            },
            _ => Err(MyError::InvalidIdentifier(self.name.clone())),
        }
    }

    /// Append one path to the ledger of installed files.
    pub fn add_file_list(&mut self, file: String)
        ensures
            final(self).installed_files@ == old(self).installed_files@.push(file),
            same_except_files(*final(self), *old(self)),
    {
        self.installed_files.push(file);
    }

    /// Set the remote identity from a full name such as `me/myrepo`; see
    /// [`split_full_name`] for what is accepted.
    pub fn set_by_fullname(&mut self, full_name: &str) -> (r: Result<(), MyError>)
        ensures
            same_except_identity(*final(self), *old(self)),
            r is Ok <==> fullname_ok(full_name@),
            r is Ok ==> (spec_fullname_parts(full_name@) matches Some(parts)
                && opt_view(final(self).repo_owner) == Some(parts.0)
                && opt_view(final(self).repo_name) == Some(parts.1)),
            r matches Err(e) ==> *final(self) == *old(self) && (e matches MyError::InvalidIdentifier(m)
                && m@ == full_name@),
    {
        match split_full_name(full_name) {
            Ok((owner, name)) => {
                self.repo_owner = Some(owner);
                self.repo_name = Some(name);
                Ok(())
            },
            Err(e) => Err(e),
        }
    }

    /// Set the remote identity from a repository URL such as
    /// `https://github.com/me/myrepo/`: the URL's path is split as a full
    /// name. A string that is no absolute URL, or whose path has more or
    /// fewer than two parts, is rejected.
    pub fn set_by_url(&mut self, url: &str) -> (r: Result<(), MyError>)
        ensures
            same_except_identity(*final(self), *old(self)),
            r is Ok <==> url_identity_ok(url@),
            r is Ok ==> (spec_url_parts(url@) matches Some(parts)
                && opt_view(final(self).repo_owner) == Some(parts.0)
                && opt_view(final(self).repo_name) == Some(parts.1)),
            r matches Err(e) ==> *final(self) == *old(self) && e matches MyError::InvalidIdentifier(_),
    {
        match parse_url_path(url) {
            Some(path) => self.set_by_fullname(path.as_str()),
            None => Err(MyError::InvalidIdentifier(url.to_owned())),
        }
    }

    /// `set_by_url`, consuming and returning the record.
    pub fn by_url(self, url: &str) -> (r: Result<Repo, MyError>)
        ensures
            match r {
                Ok(rep) => url_identity_ok(url@) && same_except_identity(rep, self)
                    && (spec_url_parts(url@) matches Some(parts)
                    && opt_view(rep.repo_owner) == Some(parts.0)
                    && opt_view(rep.repo_name) == Some(parts.1)),
                Err(e) => !url_identity_ok(url@) && e matches MyError::InvalidIdentifier(_),
            },
    {
        let mut s = self;
        match s.set_by_url(url) {
            Ok(()) => Ok(s),
            Err(e) => Err(e),
        }
    }

    /// `set_by_fullname`, consuming and returning the record.
    pub fn by_fullname(self, full_name: &str) -> (r: Result<Repo, MyError>)
        ensures
            match r {
                Ok(rep) => fullname_ok(full_name@) && same_except_identity(rep, self)
                    && (spec_fullname_parts(full_name@) matches Some(parts)
                    && opt_view(rep.repo_owner) == Some(parts.0)
                    && opt_view(rep.repo_name) == Some(parts.1)),
                Err(e) => !fullname_ok(full_name@) && (e matches MyError::InvalidIdentifier(m)
                    && m@ == full_name@),
            },
    {
        let mut s = self;
        match s.set_by_fullname(full_name) {
            Ok(()) => Ok(s),
            Err(e) => Err(e),
        }
    }
}

/// Whether a string is an absolute URL whose path splits as a full name.
pub open spec fn url_identity_ok(u: Seq<char>) -> bool {
    match url_path_of(u) {
        Some(p) => fullname_ok(p),
        None => false,
    }
}

/// The owner and repository parts carried by a repository URL.
pub open spec fn spec_url_parts(u: Seq<char>) -> Option<(Seq<char>, Seq<char>)> {
    match url_path_of(u) {
        Some(p) => spec_fullname_parts(p),
        None => None,
    }
}

/// The collection of managed records.
#[derive(Debug, PartialEq, Eq)]
pub struct RepoList(pub Vec<Repo>);

impl Clone for RepoList {
    /// A clone is pointwise observably equal to its original.
    fn clone(&self) -> (r: Self)
        ensures
            r.0@.len() == self.0@.len(),
            forall|i: int| 0 <= i < self.0@.len() ==> repo_matches(#[trigger] r.0@[i], self.0@[i]),
    {
        let mut out: Vec<Repo> = Vec::new();
        for i in 0..self.0.len()
            invariant
                out@.len() == i,
                forall|j: int| 0 <= j < i ==> repo_matches(#[trigger] out@[j], self.0@[j]),
        {
            out.push(self.0[i].clone());
        }
        RepoList(out)
    }
}

impl RepoList {
    /// The number of records.
    pub fn len(&self) -> (r: usize)
        ensures
            r == self.0@.len(),
    {
        self.0.len()
    }
}

/// The ledger views are sorted.
pub open spec fn sorted_le(vs: Seq<Seq<char>>) -> bool {
    forall|i: int, j: int| 0 <= i <= j < vs.len() ==> seq_le(#[trigger] vs[i], #[trigger] vs[j])
}

/// The ledger views are sorted and pairwise distinct.
pub open spec fn sorted_strict(vs: Seq<Seq<char>>) -> bool {
    &&& sorted_le(vs)
    &&& forall|i: int, j: int| 0 <= i < j < vs.len() ==> #[trigger] vs[i] != #[trigger] vs[j]
}

proof fn lemma_contains_push<A>(s: Seq<A>, x: A, p: A)
    ensures
        s.push(x).contains(p) <==> (s.contains(p) || p == x),
{
    if s.push(x).contains(p) {
        let k = choose|k: int| 0 <= k < s.push(x).len() && s.push(x)[k] == p;
        if k < s.len() {
            assert(s[k] == p);
        }
    }
    if s.contains(p) {
        let k = choose|k: int| 0 <= k < s.len() && s[k] == p;
        assert(s.push(x)[k] == p);
    }
    if p == x {
        assert(s.push(x)[s.len() as int] == p);
    }
}

/// Copy the ledger into sorted order; the entries, counted with
/// multiplicity, stay the same.
fn sort_files(files: &Vec<String>) -> (r: Vec<String>)
    ensures
        sorted_le(files_view(r@)),
        files_view(r@).to_multiset() == files_view(files@).to_multiset(),
{
    #![verifier::loop_isolation(false)]
    broadcast use vstd::seq_lib::group_to_multiset_ensures;
    broadcast use vstd::multiset::group_multiset_axioms;

    let mut out: Vec<String> = Vec::new();
    proof {
        assert(files_view(out@) =~= Seq::<Seq<char>>::empty());
        assert(files_view(files@.subrange(0, 0)) =~= Seq::<Seq<char>>::empty());
    }
    for i in 0..files.len()
        invariant
            sorted_le(files_view(out@)),
            files_view(out@).to_multiset() == files_view(files@.subrange(0, i as int)).to_multiset(),
    {
        let x = files[i].clone();
        let mut pos: usize = 0;
        loop
            invariant
                0 <= pos <= out.len(),
                forall|k: int| 0 <= k < pos ==> seq_le(files_view(out@)[k], x@),
            decreases out.len() - pos,
        {
            if pos == out.len() {
                break;
            }
            if !str_le(out[pos].as_str(), x.as_str()) {
                break;
            }
            pos = pos + 1;
        }
        let ghost prev = out@;
        let ghost prev_views = files_view(out@);
        out.insert(pos, x);
        proof {
            prev.insert_ensures(pos as int, x);
            let cur = files_view(out@);
            assert(cur =~= prev_views.insert(pos as int, x@));
            prev_views.insert_ensures(pos as int, x@);
            if pos < prev.len() {
                lemma_seq_le_total(prev_views[pos as int], x@);
            }
            assert forall|a: int, b: int| 0 <= a <= b < cur.len() implies seq_le(
                #[trigger] cur[a],
                #[trigger] cur[b],
            ) by {
                let p = pos as int;
                if a == b {
                    lemma_seq_le_total(cur[a], cur[a]);
                } else if b < p {
                    assert(cur[a] == prev_views[a] && cur[b] == prev_views[b]);
                } else if a < p && b == p {
                    assert(cur[a] == prev_views[a] && cur[b] == x@);
                } else if a < p && b > p {
                    assert(cur[a] == prev_views[a] && cur[b] == prev_views[b - 1]);
                } else if a == p && b > p {
                    assert(cur[a] == x@ && cur[b] == prev_views[b - 1]);
                    lemma_seq_le_trans(x@, prev_views[p], prev_views[b - 1]);
                } else {
                    assert(cur[a] == prev_views[a - 1] && cur[b] == prev_views[b - 1]);
                }
            }
            // the entries, with multiplicity, gained exactly `x`
            let pre = prev_views.subrange(0, pos as int);
            let post = prev_views.subrange(pos as int, prev_views.len() as int);
            assert(cur =~= pre.push(x@) + post);
            vstd::seq_lib::lemma_multiset_commutative(pre.push(x@), post);
            vstd::seq_lib::lemma_multiset_commutative(pre, post);
            assert(pre + post =~= prev_views);
            assert(cur.to_multiset() =~= prev_views.to_multiset().insert(x@));
            assert(files_view(files@.subrange(0, i + 1)) =~= files_view(
                files@.subrange(0, i as int),
            ).push(files@[i as int]@));
        }
    }
    proof {
        assert(files@.subrange(0, files@.len() as int) =~= files@);
    }
    out
}

/// Drop adjacent duplicates of a sorted ledger; the set of entries stays the
/// same and the result is strictly increasing.
fn dedup_sorted(files: Vec<String>) -> (r: Vec<String>)
    requires
        sorted_le(files_view(files@)),
    ensures
        sorted_strict(files_view(r@)),
        forall|p: Seq<char>| files_view(r@).contains(p) <==> files_view(files@).contains(p),
{
    #![verifier::loop_isolation(false)]
    let mut out: Vec<String> = Vec::new();
    proof {
        assert(files_view(out@) =~= Seq::<Seq<char>>::empty());
        assert(files_view(files@.subrange(0, 0)) =~= Seq::<Seq<char>>::empty());
    }
    for i in 0..files.len()
        invariant
            sorted_strict(files_view(out@)),
            forall|p: Seq<char>| files_view(out@).contains(p) <==> files_view(
                files@.subrange(0, i as int),
            ).contains(p),
            i > 0 ==> out@.len() > 0 && files_view(out@).last() == files@[i - 1]@,
    {
        let x = files[i].clone();
        let push_it = if out.len() == 0 {
            true
        } else {
            !str_eq(out[out.len() - 1].as_str(), x.as_str())
        };
        let ghost prev_views = files_view(out@);
        let ghost processed = files_view(files@.subrange(0, i as int));
        proof {
            assert(files_view(files@.subrange(0, i + 1)) =~= processed.push(files@[i as int]@));
        }
        if push_it {
            out.push(x);
            proof {
                let cur = files_view(out@);
                let xv = files@[i as int]@;
                assert(cur =~= prev_views.push(xv));
                if i == 0 && prev_views.len() > 0 {
                    assert(prev_views.contains(prev_views[0]));
                    assert(false);
                }
                if prev_views.len() > 0 {
                    let lastv = prev_views.last();
                    assert(files_view(files@)[i - 1] == files@[i - 1]@);
                    assert(files_view(files@)[i as int] == files@[i as int]@);
                    assert(seq_le(files_view(files@)[i - 1], files_view(files@)[i as int]));
                    assert(seq_le(lastv, xv));
                    assert(lastv != xv);
                }
                assert forall|a: int, b: int| 0 <= a <= b < cur.len() implies seq_le(
                    #[trigger] cur[a],
                    #[trigger] cur[b],
                ) by {
                    if a == b {
                        lemma_seq_le_total(cur[a], cur[a]);
                    } else if b == cur.len() - 1 {
                        let lastv = prev_views.last();
                        assert(seq_le(cur[a], lastv));
                        lemma_seq_le_trans(cur[a], lastv, xv);
                    }
                }
                assert forall|a: int, b: int| 0 <= a < b < cur.len() implies #[trigger] cur[a]
                    != #[trigger] cur[b] by {
                    if b == cur.len() - 1 {
                        if cur[a] == xv {
                            let lastv = prev_views.last();
                            assert(seq_le(cur[a], lastv));
                            lemma_seq_le_antisym(lastv, xv);
                        }
                    }
                }
                assert forall|p: Seq<char>| cur.contains(p) <==> processed.push(xv).contains(p) by {
                    lemma_contains_push(prev_views, xv, p);
                    lemma_contains_push(processed, xv, p);
                }
            }
        } else {
            proof {
                let xv = files@[i as int]@;
                assert(prev_views.last() == xv);
                assert(prev_views.contains(xv)) by {
                    assert(prev_views[prev_views.len() - 1] == xv);
                }
                assert forall|p: Seq<char>| prev_views.contains(p) <==> processed.push(
                    xv,
                ).contains(p) by {
                    lemma_contains_push(processed, xv, p);
                }
            }
        }
    }
    proof {
        assert(files@.subrange(0, files@.len() as int) =~= files@);
    }
    out
}

impl Repo {
    /// Sort the file ledger and drop duplicate entries: afterwards it is
    /// strictly increasing and holds exactly the paths it held before.
    pub fn dedup_file_list(&mut self)
        ensures
            same_except_files(*final(self), *old(self)),
            sorted_strict(files_view(final(self).installed_files@)),
            forall|p: Seq<char>| files_view(final(self).installed_files@).contains(p)
                <==> files_view(old(self).installed_files@).contains(p),
    {
        broadcast use vstd::seq_lib::group_to_multiset_ensures;

        let sorted = sort_files(&self.installed_files);
        let ghost sorted_views = files_view(sorted@);
        let ghost old_views = files_view(self.installed_files@);
        proof {
            assert forall|p: Seq<char>| sorted_views.contains(p) <==> old_views.contains(p) by {
                assert(sorted_views.contains(p) <==> sorted_views.to_multiset().count(p) > 0);
                assert(old_views.contains(p) <==> old_views.to_multiset().count(p) > 0);
            }
        }
        let deduped = dedup_sorted(sorted);
        self.installed_files = deduped;
    }
}

} // verus!
