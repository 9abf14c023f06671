//! URL and path-string helpers: joining segments onto a base URL, joining
//! path segments, extracting the path component of a remote URL, and the
//! fixed-width row used to list repositories.

use vstd::prelude::*;

verus! {

use vstd::string::StrSliceExecFns;
use vstd::string::StringExecFns;

use crate::text::{spec_pad, pad, strip_trailing_slashes, strip_trail_slash};

/// `base` and every segment, each stripped of trailing slashes, joined with
/// single slashes; the result carries no trailing slash.
pub open spec fn spec_join_all(base: Seq<char>, segs: Seq<String>) -> Seq<char>
    decreases segs.len(),
{
    if segs.len() == 0 {
        strip_trailing_slashes(base)
    } else {
        spec_join_all(base, segs.drop_last()) + seq!['/'] + strip_trailing_slashes(segs.last()@)
    }
}

/// Join all segments onto a base URL; the result has no trailing slash.
pub fn join_all(base: &str, paths: &Vec<String>) -> (r: String)
    ensures
        r@ == spec_join_all(base@, paths@),
{
    #![verifier::loop_isolation(false)]
    let mut out: String = strip_trail_slash(base).to_owned();
    proof {
        assert(paths@.subrange(0, 0) =~= Seq::<String>::empty());
    }
    for i in 0..paths.len()
        invariant
            out@ == spec_join_all(base@, paths@.subrange(0, i as int)),
    {
        out.append("/");
        let seg = strip_trail_slash(paths[i].as_str());
        out.append(seg);
        proof {
            reveal_strlit("/");
            assert(paths@.subrange(0, i + 1).drop_last() =~= paths@.subrange(0, i as int));
            assert(paths@.subrange(0, i + 1).last() == paths@[i as int]);
            assert(out@ =~= spec_join_all(base@, paths@.subrange(0, i + 1)));
        }
    }
    proof {
        assert(paths@.subrange(0, paths@.len() as int) =~= paths@);
    }
    out
}

/// Path segments joined with single slashes; an empty accumulated path is
/// replaced by the segment, and an absolute segment replaces what came
/// before it.
pub open spec fn spec_path_join(paths: Seq<String>) -> Seq<char>
    decreases paths.len(),
{
    if paths.len() == 0 {
        Seq::empty()
    } else {
        let rest = spec_path_join(paths.drop_last());
        let seg = paths.last()@;
        if rest.len() == 0 || (seg.len() > 0 && seg[0] == '/') {
            seg
        } else {
            rest + seq!['/'] + seg
        }
    }
}

/// Join the given path segments with slashes.
pub fn path_join(paths: &Vec<String>) -> (r: String)
    ensures
        r@ == spec_path_join(paths@),
{
    #![verifier::loop_isolation(false)]
    let mut out = String::new();
    proof {
        assert(paths@.subrange(0, 0) =~= Seq::<String>::empty());
    }
    for i in 0..paths.len()
        invariant
            out@ == spec_path_join(paths@.subrange(0, i as int)),
    {
        let seg = paths[i].as_str();
        let seg_len = seg.unicode_len();
        let absolute = seg_len > 0 && seg.get_char(0) == '/';
        if out.unicode_len() == 0 || absolute {
            out = seg.to_owned();
        } else {
            out.append("/");
            out.append(seg);
        }
        proof {
            reveal_strlit("/");
            assert(paths@.subrange(0, i + 1).drop_last() =~= paths@.subrange(0, i as int));
            assert(paths@.subrange(0, i + 1).last() == paths@[i as int]);
            assert(out@ =~= spec_path_join(paths@.subrange(0, i + 1)));
        }
    }
    proof {
        assert(paths@.subrange(0, paths@.len() as int) =~= paths@);
    }
    out
}

/// One row of the repository listing: name, URL and version, each padded to
/// a fixed column width.
pub fn fmt_repo_list(name: &str, url: &str, version: &str) -> (r: String)
    ensures
        r@ == spec_pad(name@, 20) + spec_pad(url@, 50) + spec_pad(version@, 20),
{
    let mut out = pad(name, 20);
    let col2 = pad(url, 50);
    let col3 = pad(version, 20);
    out.append(col2.as_str());
    out.append(col3.as_str());
    out
}

/// The path component of `s` read as an absolute URL, or `None` where `s` is
/// no absolute URL. `url::Url::parse` and `url::Url::path` compute on their
/// input alone, so the value is a function of `s`.
pub uninterp spec fn url_path_of(s: Seq<char>) -> Option<Seq<char>>;

/// Relies on `url::Url::parse` (absolute-URL parsing, deterministic in its
/// input) and `url::Url::path` (the percent-encoded path component of the
/// parsed URL).
#[verifier::external_body]
pub fn parse_url_path(s: &str) -> (r: Option<String>)
    ensures
        match r {
            Some(p) => url_path_of(s@) == Some(p@),
            None => url_path_of(s@) is None,
        },
{
    match url::Url::parse(s) {
        Ok(u) => Some(u.path().to_string()),
        Err(_) => None,
    }
}

} // verus!
