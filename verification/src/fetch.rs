//! The lifecycle decisions around remote data. The shell talks to the remote
//! search and release endpoints and hands the answers in as plain values;
//! the functions here decide what the answers mean: which repository is
//! picked, which asset fits the host, whether an update is due, and under
//! what file name a chosen asset is saved.

use vstd::prelude::*;

verus! {

use vstd::string::StrSliceExecFns;
use vstd::string::StringExecFns;

use crate::err::MyError;
use crate::filter::{select, spec_select, Host, Os};
use crate::paths::{file_name, last_index_of, spec_file_name};
use crate::storage::{
    opt_view, same_except_identity, same_except_resolution, spec_url_parts,
    url_identity_ok, Repo,
};

impl Repo {
    /// Resolve the fetched release against the host: run the selector over
    /// the candidate asset URLs and store the first kept candidate and the
    /// fetched version tag. An empty selection means no available asset; the
    /// record is then left unchanged.
    pub fn get_asset(&mut self, version: String, assets: Vec<String>, host: &Host) -> (r: Result<
        (),
        MyError,
    >)
        ensures
            same_except_resolution(*final(self), *old(self)),
            match r {
                Ok(()) => spec_select(assets@, *host).len() > 0 && opt_view(final(self).asset)
                    == Some(spec_select(assets@, *host)[0]@) && opt_view(final(self).version)
                    == Some(version@),
                Err(e) => spec_select(assets@, *host).len() == 0 && e is NoAvailableAsset
                    && *final(self) == *old(self),
            },
    {
        let selected = select(assets, host);
        if selected.len() == 0 {
            Err(MyError::NoAvailableAsset)
        } else {
            let chosen = selected[0].clone();
            self.asset = Some(chosen);
            self.version = Some(version);
            Ok(())
        }
    }

    /// Re-resolve against freshly fetched release data. Where the fetched
    /// version differs from the stored one, the record is updated and the
    /// pair of versions is reported; where it is the same, the record is
    /// still refreshed and no update is reported. An empty selection leaves
    /// the record unchanged.
    pub fn update_asset(&mut self, version: String, assets: Vec<String>, host: &Host) -> (r:
        Result<Option<(String, String)>, MyError>)
        requires
            old(self).version is Some,
        ensures
            same_except_resolution(*final(self), *old(self)),
            match r {
                Ok(change) => spec_select(assets@, *host).len() > 0 && opt_view(final(self).asset)
                    == Some(spec_select(assets@, *host)[0]@) && opt_view(final(self).version)
                    == Some(version@) && (match change {
                    Some(pair) => opt_view(old(self).version) == Some(pair.0@) && pair.1@
                        == version@ && pair.0@ != version@,
                    None => opt_view(old(self).version) == Some(version@),
                }),
                Err(e) => spec_select(assets@, *host).len() == 0 && e is NoAvailableAsset
                    && *final(self) == *old(self),
            },
    {
        let old_version = match &self.version {
            Some(v) => v.clone(),
            None => {
                proof {
                    assert(false);
                }
                String::new()
            },
        };
        let changed = !crate::text::str_eq(old_version.as_str(), version.as_str());
        match self.get_asset(version, assets, host) {
            Ok(()) => {
                if changed {
                    let new_version = match &self.version {
                        Some(v) => v.clone(),
                        None => {
                            proof {
                                assert(false);
                            }
                            String::new()
                        },
                    };
                    Ok(Some((old_version, new_version)))
                } else {
                    Ok(None)
                }
            },
            Err(e) => Err(e),
        }
    }

    /// Resolve the remote identity from the search answer: the repository
    /// URL at `choice` (the first in quiet mode, the user's pick otherwise).
    /// An empty answer means the search found nothing.
    pub fn pick_search_result(&mut self, items: &Vec<String>, choice: usize) -> (r: Result<
        (),
        MyError,
    >)
        requires
            items@.len() > 0 ==> choice < items@.len(),
        ensures
            same_except_identity(*final(self), *old(self)),
            match r {
                Ok(()) => items@.len() > 0 && url_identity_ok(items@[choice as int]@) && (
                spec_url_parts(items@[choice as int]@) matches Some(parts)
                    && opt_view(final(self).repo_owner) == Some(parts.0)
                    && opt_view(final(self).repo_name) == Some(parts.1)),
                Err(e) => (items@.len() == 0 && e is RemoteApiError && *final(self) == *old(self))
                    || (items@.len() > 0 && !url_identity_ok(items@[choice as int]@)
                    && e is InvalidIdentifier && *final(self) == *old(self)),
            },
    {
        if items.len() == 0 {
            return Err(MyError::RemoteApiError("the search returned no repositories".to_owned()));
        }
        self.set_by_url(items[choice].as_str())
    }

    /// Build a record from a package request: a repository URL resolves the
    /// remote identity at once and names the record after the repository;
    /// anything else is taken as a bare package name. The names `app` and
    /// `bin` are refused on Windows, where they collide with the install
    /// layout.
    pub fn parse(value: &str, os: &Os) -> (r: Result<Repo, MyError>)
        ensures
            match r {
                Ok(rep) => {
                    &&& rep.site == crate::storage::Site::Github
                    &&& !(*os is Windows && (rep.name@ == "app"@ || rep.name@ == "bin"@))
                    &&& (if url_identity_ok(value@) {
                        spec_url_parts(value@) matches Some(parts) && rep.name@ == parts.1
                            && opt_view(rep.repo_owner) == Some(parts.0) && opt_view(rep.repo_name)
                            == Some(parts.1)
                    } else {
                        rep.name@ == value@ && rep.repo_owner is None && rep.repo_name is None
                    })
                },
                Err(e) => *os is Windows && (e matches MyError::InvalidIdentifier(m) && (m@
                    == "app"@ || m@ == "bin"@)),
            },
    {
        let windows = match os {
            Os::Windows => true,
            _ => false,
        };
        let identity: Option<(String, String)> = match crate::urls::parse_url_path(value) {
            Some(path) => match crate::storage::split_full_name(path.as_str()) {
                Ok(parts) => Some(parts),
                Err(_) => None,
            },
            None => None,
        };
        match identity {
            Some((owner, repo_name)) => {
                let name = repo_name.clone();
                if windows && (crate::text::str_eq(name.as_str(), "app") || crate::text::str_eq(
                    name.as_str(),
                    "bin",
                )) {
                    return Err(MyError::InvalidIdentifier(name));
                }
                let mut rep = Repo::new(name, os);
                rep.repo_owner = Some(owner);
                rep.repo_name = Some(repo_name);
                Ok(rep)
            },
            None => {
                if windows && (crate::text::str_eq(value, "app") || crate::text::str_eq(
                    value,
                    "bin",
                )) {
                    return Err(MyError::InvalidIdentifier(value.to_owned()));
                }
                Ok(Repo::new(value.to_owned(), os))
            },
        }
    }
}

/// The file name a chosen asset is saved under: the package name, a dot,
/// and the extension of the asset URL's last path segment (empty where the
/// segment has none).
pub open spec fn spec_download_filename(name: Seq<char>, asset_url: Seq<char>) -> Seq<char> {
    let seg = spec_file_name(asset_url);
    let d = last_index_of(seg, '.');
    if d > 0 {
        name + seq!['.'] + seg.skip(d + 1)
    } else {
        name + seq!['.']
    }
}

/// The local file name for a download of `asset_url` on behalf of `name`.
pub fn download_filename(name: &str, asset_url: &str) -> (r: String)
    ensures
        r@ == spec_download_filename(name@, asset_url@),
{
    let seg = file_name(asset_url);
    let mut out = name.to_owned();
    out.append(".");
    proof {
        reveal_strlit(".");
    }
    match crate::paths::find_last_dot(seg) {
        Some(i) => {
            if i > 0 {
                let n = seg.unicode_len();
                let ext = seg.substring_char(i + 1, n);
                out.append(ext);
                proof {
                    assert(seg@.subrange(i + 1, n as int) =~= seg@.skip(i + 1));
                    assert(out@ =~= spec_download_filename(name@, asset_url@));
                }
                out
            } else {
                proof {
                    assert(out@ =~= spec_download_filename(name@, asset_url@));
                }
                out
            }
        },
        None => {
            proof {
                assert(out@ =~= spec_download_filename(name@, asset_url@));
            }
            out
        },
    }
}

} // verus!
