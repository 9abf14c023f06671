//! The asset selector: a deterministic filter/rank pipeline that picks, out
//! of a list of opaque candidate strings, the ones that fit the host
//! platform and architecture, and demotes low-value companions (debug
//! symbols, checksums) to the end without excluding them.

use vstd::prelude::*;

verus! {

use crate::text::{
    chars_eq, lower_val, matches_at, spec_contains, spec_ends_with, spec_starts_with, str_contains,
    str_ends_with, str_starts_with,
};

/// How many markers of a set must match a candidate.
#[derive(Debug, PartialEq, Eq, Clone, Copy, Default)]
pub enum Combination {
    All,
    #[default]
    Any,
}

/// Where in the candidate a marker must occur.
#[derive(Debug, PartialEq, Eq, Clone, Copy, Default)]
pub enum MatchPos {
    #[default]
    All,
    Begin,
    End,
}

/// Host operating system, detected once at startup by the caller.
#[derive(Debug, PartialEq, Eq, Clone)]
pub enum Os {
    Linux,
    Windows,
    Macos,
    Freebsd,
    Other(String),
}

/// Host instruction-set architecture, detected once at startup by the caller.
#[derive(Debug, PartialEq, Eq, Clone)]
pub enum Arch {
    X86_64,
    Aarch64,
    X86,
    Other(String),
}

/// The fixed marker catalog of the running host.
#[derive(Debug, PartialEq, Eq, Clone)]
pub struct Host {
    pub os: Os,
    pub arch: Arch,
}

/// A marker as a contract-level value: its text and its match position.
pub open spec fn marker_views(markers: Seq<(String, MatchPos)>) -> Seq<(Seq<char>, MatchPos)> {
    markers.map_values(|m: (String, MatchPos)| (m.0@, m.1))
}

/// One marker matches the candidate at its required position.
pub open spec fn pos_matches(pos: MatchPos, target: Seq<char>, pattern: Seq<char>, case_sensitive: bool) -> bool {
    match pos {
        MatchPos::All => spec_contains(target, pattern, case_sensitive),
        MatchPos::Begin => spec_starts_with(target, pattern, case_sensitive),
        MatchPos::End => spec_ends_with(target, pattern, case_sensitive),
    }
}

/// A marker set matches the candidate under the given combination.
pub open spec fn set_matches(
    markers: Seq<(Seq<char>, MatchPos)>,
    target: Seq<char>,
    comb: Combination,
    case_sensitive: bool,
) -> bool {
    match comb {
        Combination::Any => exists|i: int|
            0 <= i < markers.len() && pos_matches(#[trigger] markers[i].1, target, markers[i].0, case_sensitive),
        Combination::All => forall|i: int|
            0 <= i < markers.len() ==> pos_matches(#[trigger] markers[i].1, target, markers[i].0, case_sensitive),
    }
}

pub open spec fn comb_or_default(comb: Option<Combination>) -> Combination {
    match comb {
        Some(c) => c,
        None => Combination::Any,
    }
}

pub open spec fn cs_or_default(case_sensitive: Option<bool>) -> bool {
    match case_sensitive {
        Some(b) => b,
        None => false,
    }
}

pub open spec fn rev_or_default(reverse: Option<bool>) -> bool {
    match reverse {
        Some(b) => b,
        None => false,
    }
}

/// Whether any (or every) flag of a list is set.
pub open spec fn spec_any_or_all(items: Seq<bool>, comb: Combination) -> bool {
    match comb {
        Combination::Any => exists|i: int| 0 <= i < items.len() && items[i],
        Combination::All => forall|i: int| 0 <= i < items.len() ==> items[i],
    }
}

/// Combine a list of individual match outcomes under `Any` or `All`.
pub fn any_or_all(items: &Vec<bool>, comb: Combination) -> (r: bool)
    ensures
        r == spec_any_or_all(items@, comb),
{
    #![verifier::loop_isolation(false)]
    match comb {
        Combination::Any => {
            for i in 0..items.len()
                invariant
                    forall|ii: int| 0 <= ii < i ==> !items@[ii],
            {
                if items[i] {
                    return true;
                }
            }
            false
        },
        Combination::All => {
            for i in 0..items.len()
                invariant
                    forall|ii: int| 0 <= ii < i ==> items@[ii],
            {
                if !items[i] {
                    return false;
                }
            }
            true
        },
    }
}

fn marker_match(marker: &(String, MatchPos), item: &str, case_sensitive: bool) -> (r: bool)
    ensures
        r == pos_matches(marker.1, item@, marker.0@, case_sensitive),
{
    match marker.1 {
        MatchPos::All => str_contains(item, marker.0.as_str(), case_sensitive),
        MatchPos::Begin => str_starts_with(item, marker.0.as_str(), case_sensitive),
        MatchPos::End => str_ends_with(item, marker.0.as_str(), case_sensitive),
    }
}

/// Whether a candidate matches the marker set. The combination defaults to
/// `Any` and the comparison defaults to case-insensitive.
pub fn match_inner(
    item: &str,
    markers: &Vec<(String, MatchPos)>,
    combination: Option<Combination>,
    case_sensitive: Option<bool>,
) -> (r: bool)
    ensures
        r == set_matches(
            marker_views(markers@),
            item@,
            comb_or_default(combination),
            cs_or_default(case_sensitive),
        ),
{
    #![verifier::loop_isolation(false)]
    let comb = match combination {
        Some(c) => c,
        None => Combination::Any,
    };
    let cs = match case_sensitive {
        Some(b) => b,
        None => false,
    };
    match comb {
        Combination::Any => {
            for i in 0..markers.len()
                invariant
                    forall|ii: int| 0 <= ii < i
                        ==> !pos_matches(#[trigger] marker_views(markers@)[ii].1, item@, marker_views(markers@)[ii].0, cs),
            {
                if marker_match(&markers[i], item, cs) {
                    assert(pos_matches(marker_views(markers@)[i as int].1, item@, marker_views(markers@)[i as int].0, cs));
                    return true;
                }
            }
            false
        },
        Combination::All => {
            for i in 0..markers.len()
                invariant
                    forall|ii: int| 0 <= ii < i
                        ==> pos_matches(#[trigger] marker_views(markers@)[ii].1, item@, marker_views(markers@)[ii].0, cs),
            {
                if !marker_match(&markers[i], item, cs) {
                    assert(!pos_matches(marker_views(markers@)[i as int].1, item@, marker_views(markers@)[i as int].0, cs));
                    return false;
                }
            }
            true
        },
    }
}

/// The per-candidate test of one pipeline stage, as a function value.
pub open spec fn candidate_matches(
    markers: Seq<(Seq<char>, MatchPos)>,
    comb: Combination,
    case_sensitive: bool,
) -> spec_fn(String) -> bool {
    |s: String| set_matches(markers, s@, comb, case_sensitive)
}

/// The kept candidates, in input order.
pub open spec fn spec_select_list(
    list: Seq<String>,
    markers: Seq<(Seq<char>, MatchPos)>,
    comb: Combination,
    case_sensitive: bool,
) -> Seq<String> {
    list.filter(candidate_matches(markers, comb, case_sensitive))
}

/// Keep only the candidates that match the marker set; a strict filter with
/// no fallback, so the result may be empty.
pub fn select_list(
    list: Vec<String>,
    markers: &Vec<(String, MatchPos)>,
    combination: Option<Combination>,
    case_sensitive: Option<bool>,
) -> (r: Vec<String>)
    ensures
        r@ == spec_select_list(
            list@,
            marker_views(markers@),
            comb_or_default(combination),
            cs_or_default(case_sensitive),
        ),
{
    #![verifier::loop_isolation(false)]
    let ghost comb = comb_or_default(combination);
    let ghost cs = cs_or_default(case_sensitive);
    let ghost pred = candidate_matches(marker_views(markers@), comb, cs);
    let mut out: Vec<String> = Vec::new();
    proof {
        assert(list@.subrange(0, 0).filter(pred) =~= Seq::<String>::empty()) by {
            reveal(Seq::filter);
        }
    }
    for i in 0..list.len()
        invariant
            out@ == list@.subrange(0, i as int).filter(pred),
            pred == candidate_matches(marker_views(markers@), comb, cs),
    {
        let keep = match_inner(list[i].as_str(), markers, combination, case_sensitive);
        if keep {
            out.push(list[i].clone());
        }
        proof {
            reveal(Seq::filter);
            let prev = list@.subrange(0, i as int);
            let cur = list@.subrange(0, i + 1);
            assert(cur.drop_last() =~= prev);
            assert(cur.last() == list@[i as int]);
        }
    }
    proof {
        assert(list@.subrange(0, list@.len() as int) =~= list@);
    }
    out
}

/// The complement of `candidate_matches`, as a function value.
pub open spec fn candidate_misses(
    markers: Seq<(Seq<char>, MatchPos)>,
    comb: Combination,
    case_sensitive: bool,
) -> spec_fn(String) -> bool {
    |s: String| !set_matches(markers, s@, comb, case_sensitive)
}

/// The stable partition of the list: matching candidates first, the rest
/// after, each side in input order; `reverse` swaps the two sides whole.
pub open spec fn spec_sort_list(
    list: Seq<String>,
    markers: Seq<(Seq<char>, MatchPos)>,
    comb: Combination,
    case_sensitive: bool,
    reverse: bool,
) -> Seq<String> {
    let hit = list.filter(candidate_matches(markers, comb, case_sensitive));
    let miss = list.filter(candidate_misses(markers, comb, case_sensitive));
    if reverse {
        miss + hit
    } else {
        hit + miss
    }
}

/// Stably partition the list by the marker set: matching candidates keep
/// their relative order and precede the rest; with `reverse` the two
/// partitions swap as wholes, so relative order inside each is preserved.
pub fn sort_list(
    list: Vec<String>,
    markers: &Vec<(String, MatchPos)>,
    combination: Option<Combination>,
    case_sensitive: Option<bool>,
    reverse: Option<bool>,
) -> (r: Vec<String>)
    ensures
        r@ == spec_sort_list(
            list@,
            marker_views(markers@),
            comb_or_default(combination),
            cs_or_default(case_sensitive),
            rev_or_default(reverse),
        ),
{
    #![verifier::loop_isolation(false)]
    let ghost comb = comb_or_default(combination);
    let ghost cs = cs_or_default(case_sensitive);
    let ghost hitp = candidate_matches(marker_views(markers@), comb, cs);
    let ghost missp = candidate_misses(marker_views(markers@), comb, cs);
    let mut hits: Vec<String> = Vec::new();
    let mut misses: Vec<String> = Vec::new();
    proof {
        reveal(Seq::filter);
        assert(list@.subrange(0, 0).filter(hitp) =~= Seq::<String>::empty());
        assert(list@.subrange(0, 0).filter(missp) =~= Seq::<String>::empty());
    }
    for i in 0..list.len()
        invariant
            hits@ == list@.subrange(0, i as int).filter(hitp),
            misses@ == list@.subrange(0, i as int).filter(missp),
            hitp == candidate_matches(marker_views(markers@), comb, cs),
            missp == candidate_misses(marker_views(markers@), comb, cs),
    {
        let keep = match_inner(list[i].as_str(), markers, combination, case_sensitive);
        if keep {
            hits.push(list[i].clone());
        } else {
            misses.push(list[i].clone());
        }
        proof {
            reveal(Seq::filter);
            let prev = list@.subrange(0, i as int);
            let cur = list@.subrange(0, i + 1);
            assert(cur.drop_last() =~= prev);
            assert(cur.last() == list@[i as int]);
        }
    }
    proof {
        assert(list@.subrange(0, list@.len() as int) =~= list@);
    }
    let rev = match reverse {
        Some(b) => b,
        None => false,
    };
    let (mut first, mut second) = if rev { (misses, hits) } else { (hits, misses) };
    let ghost expected = first@ + second@;
    first.append(&mut second);
    assert(first@ =~= expected);
    first
}

/// Platform marker set of an operating system. On Windows the set also
/// matches the native executable and installer suffixes.
pub open spec fn spec_platform_markers(os: Os) -> Seq<(Seq<char>, MatchPos)> {
    match os {
        Os::Linux => seq![("linux"@, MatchPos::All), ("unix"@, MatchPos::All)],
        Os::Windows => seq![
            ("windows"@, MatchPos::All),
            ("win32"@, MatchPos::All),
            (".exe"@, MatchPos::End),
            (".msi"@, MatchPos::End),
        ],
        Os::Macos => seq![
            ("osx"@, MatchPos::All),
            ("macos"@, MatchPos::All),
            ("darwin"@, MatchPos::All),
        ],
        Os::Freebsd => seq![
            ("freebsd"@, MatchPos::All),
            ("netbsd"@, MatchPos::All),
            ("openbsd"@, MatchPos::All),
        ],
        Os::Other(name) => seq![(name@, MatchPos::All)],
    }
}

/// Architecture marker set of an instruction-set architecture.
pub open spec fn spec_architecture_markers(arch: Arch) -> Seq<(Seq<char>, MatchPos)> {
    match arch {
        Arch::X86_64 => seq![
            ("x64"@, MatchPos::All),
            ("x86_64"@, MatchPos::All),
            ("amd64"@, MatchPos::All),
        ],
        Arch::Aarch64 => seq![("aarch64"@, MatchPos::All), ("armv8"@, MatchPos::All)],
        Arch::X86 => seq![
            ("x86"@, MatchPos::All),
            ("i386"@, MatchPos::All),
            ("i686"@, MatchPos::All),
        ],
        Arch::Other(name) => seq![(name@, MatchPos::All)],
    }
}

/// Suffixes of low-value companion assets, demoted to the end of the result.
pub open spec fn spec_demote_markers() -> Seq<(Seq<char>, MatchPos)> {
    seq![
        (".pdb"@, MatchPos::End),
        (".dll"@, MatchPos::End),
        (".txt"@, MatchPos::End),
        (".checksum"@, MatchPos::End),
        (".sha"@, MatchPos::End),
        (".sha256"@, MatchPos::End),
    ]
}

/// The platform markers of the host, each with its match position.
pub fn platform_markers_with_pos(os: &Os) -> (r: Vec<(String, MatchPos)>)
    ensures
        marker_views(r@) == spec_platform_markers(*os),
{
    let mut v: Vec<(String, MatchPos)> = Vec::new();
    match os {
        Os::Linux => {
            v.push(("linux".to_owned(), MatchPos::All));
            v.push(("unix".to_owned(), MatchPos::All));
        },
        Os::Windows => {
            v.push(("windows".to_owned(), MatchPos::All));
            v.push(("win32".to_owned(), MatchPos::All));
            v.push((".exe".to_owned(), MatchPos::End));
            v.push((".msi".to_owned(), MatchPos::End));
        },
        Os::Macos => {
            v.push(("osx".to_owned(), MatchPos::All));
            v.push(("macos".to_owned(), MatchPos::All));
            v.push(("darwin".to_owned(), MatchPos::All));
        },
        Os::Freebsd => {
            v.push(("freebsd".to_owned(), MatchPos::All));
            v.push(("netbsd".to_owned(), MatchPos::All));
            v.push(("openbsd".to_owned(), MatchPos::All));
        },
        Os::Other(name) => {
            v.push((name.clone(), MatchPos::All));
        },
    }
    assert(marker_views(v@) =~= spec_platform_markers(*os));
    v
}

/// The architecture markers of the host, each with its match position.
pub fn architecture_markers_with_pos(arch: &Arch) -> (r: Vec<(String, MatchPos)>)
    ensures
        marker_views(r@) == spec_architecture_markers(*arch),
{
    let mut v: Vec<(String, MatchPos)> = Vec::new();
    match arch {
        Arch::X86_64 => {
            v.push(("x64".to_owned(), MatchPos::All));
            v.push(("x86_64".to_owned(), MatchPos::All));
            v.push(("amd64".to_owned(), MatchPos::All));
        },
        Arch::Aarch64 => {
            v.push(("aarch64".to_owned(), MatchPos::All));
            v.push(("armv8".to_owned(), MatchPos::All));
        },
        Arch::X86 => {
            v.push(("x86".to_owned(), MatchPos::All));
            v.push(("i386".to_owned(), MatchPos::All));
            v.push(("i686".to_owned(), MatchPos::All));
        },
        Arch::Other(name) => {
            v.push((name.clone(), MatchPos::All));
        },
    }
    assert(marker_views(v@) =~= spec_architecture_markers(*arch));
    v
}

/// The demotion markers: suffixes of debug symbols, libraries and checksums.
pub fn demote_markers() -> (r: Vec<(String, MatchPos)>)
    ensures
        marker_views(r@) == spec_demote_markers(),
{
    let mut v: Vec<(String, MatchPos)> = Vec::new();
    v.push((".pdb".to_owned(), MatchPos::End));
    v.push((".dll".to_owned(), MatchPos::End));
    v.push((".txt".to_owned(), MatchPos::End));
    v.push((".checksum".to_owned(), MatchPos::End));
    v.push((".sha".to_owned(), MatchPos::End));
    v.push((".sha256".to_owned(), MatchPos::End));
    assert(marker_views(v@) =~= spec_demote_markers());
    v
}

/// The whole pipeline: platform filter, then architecture filter, then the
/// demotion pass, each stage with the default combination (`Any`) and
/// case-insensitive comparison.
pub open spec fn spec_select(assets: Seq<String>, host: Host) -> Seq<String> {
    let by_platform = spec_select_list(assets, spec_platform_markers(host.os), Combination::Any, false);
    let by_arch = spec_select_list(by_platform, spec_architecture_markers(host.arch), Combination::Any, false);
    spec_sort_list(by_arch, spec_demote_markers(), Combination::Any, false, true)
}

/// Pick the assets that fit the host: filter by platform, filter by
/// architecture, then stably demote low-value suffixes to the end. Each stage
/// is strict, so the result may legitimately be empty; an empty result means
/// no matching asset, and no stage falls back to its unfiltered input.
pub fn select(assets: Vec<String>, host: &Host) -> (r: Vec<String>)
    ensures
        r@ == spec_select(assets@, *host),
{
    let platform = platform_markers_with_pos(&host.os);
    let assets = select_list(assets, &platform, None, None);

    let architecture = architecture_markers_with_pos(&host.arch);
    let assets = select_list(assets, &architecture, None, None);

    let demote = demote_markers();
    sort_list(assets, &demote, None, None, Some(true))
}

/// An embedding that witnesses `out` as a subsequence of `inn`: every element
/// of `out` is taken from `inn`, at strictly increasing positions.
pub open spec fn subsequence_embedding<A>(out: Seq<A>, inn: Seq<A>, idx: Seq<int>) -> bool {
    &&& idx.len() == out.len()
    &&& forall|k: int| 0 <= k < idx.len() ==> 0 <= #[trigger] idx[k] < inn.len() && out[k] == inn[idx[k]]
    &&& forall|k1: int, k2: int| 0 <= k1 < k2 < idx.len() ==> idx[k1] < idx[k2]
}

/// A filtered sequence is a subsequence of its input: no element is
/// introduced and relative order is preserved.
pub proof fn lemma_filter_is_subsequence<A>(list: Seq<A>, pred: spec_fn(A) -> bool)
    ensures
        exists|idx: Seq<int>| subsequence_embedding(list.filter(pred), list, idx),
    decreases list.len(),
{
    reveal(Seq::filter);
    if list.len() == 0 {
        let idx = Seq::<int>::empty();
        assert(subsequence_embedding(list.filter(pred), list, idx));
    } else {
        let prev = list.drop_last();
        lemma_filter_is_subsequence(prev, pred);
        let pidx = choose|pidx: Seq<int>| subsequence_embedding(prev.filter(pred), prev, pidx);
        if pred(list.last()) {
            let idx = pidx.push(list.len() - 1);
            assert(subsequence_embedding(list.filter(pred), list, idx));
        } else {
            assert(subsequence_embedding(list.filter(pred), list, pidx));
        }
    }
}

/// The output of `select_list` is a subsequence of its input, in the input's
/// relative order: filtering never introduces a candidate.
pub proof fn lemma_select_list_subsequence(
    list: Seq<String>,
    markers: Seq<(Seq<char>, MatchPos)>,
    comb: Combination,
    case_sensitive: bool,
)
    ensures
        exists|idx: Seq<int>|
            subsequence_embedding(spec_select_list(list, markers, comb, case_sensitive), list, idx),
{
    let pred = candidate_matches(markers, comb, case_sensitive);
    lemma_filter_is_subsequence(list, pred);
    let idx = choose|idx: Seq<int>| subsequence_embedding(list.filter(pred), list, idx);
    assert(subsequence_embedding(spec_select_list(list, markers, comb, case_sensitive), list, idx));
}

/// Case-insensitive matching sees only folded characters: two candidates that
/// agree up to ASCII case match exactly the same marker sets by default.
pub proof fn lemma_match_case_insensitive(
    s1: Seq<char>,
    s2: Seq<char>,
    markers: Seq<(Seq<char>, MatchPos)>,
    comb: Combination,
)
    requires
        s1.len() == s2.len(),
        forall|i: int| 0 <= i < s1.len() ==> lower_val(s1[i]) == lower_val(#[trigger] s2[i]),
    ensures
        set_matches(markers, s1, comb, false) == set_matches(markers, s2, comb, false),
{
    assert forall|p: Seq<char>, k: int| matches_at(s1, p, k, false) == matches_at(s2, p, k, false) by {
        if matches_at(s1, p, k, false) {
            assert forall|j: int| 0 <= j < p.len() implies chars_eq(s2[k + j], p[j], false) by {
                assert(chars_eq(s1[k + j], p[j], false));
            }
        }
        if matches_at(s2, p, k, false) {
            assert forall|j: int| 0 <= j < p.len() implies chars_eq(s1[k + j], p[j], false) by {
                assert(chars_eq(s2[k + j], p[j], false));
            }
        }
    }
    assert forall|i: int| 0 <= i < markers.len() implies
        pos_matches(#[trigger] markers[i].1, s1, markers[i].0, false)
            == pos_matches(markers[i].1, s2, markers[i].0, false) by {
        let p = markers[i].0;
        match markers[i].1 {
            MatchPos::All => {
                if spec_contains(s1, p, false) {
                    let k = choose|k: int| matches_at(s1, p, k, false);
                    assert(matches_at(s2, p, k, false));
                }
                if spec_contains(s2, p, false) {
                    let k = choose|k: int| matches_at(s2, p, k, false);
                    assert(matches_at(s1, p, k, false));
                }
            },
            MatchPos::Begin => {},
            MatchPos::End => {},
        }
    }
}

} // verus!
