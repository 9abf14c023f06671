//! Editing a `PATH`-style environment value: adding a directory unless it is
//! already listed, and removing every listing of one. The shell reads the
//! current value from the system, hands it in, and writes back whatever new
//! value is returned.

use vstd::prelude::*;

verus! {

use vstd::string::StrSliceExecFns;
use vstd::string::StringExecFns;

use crate::text::str_eq;

/// The first position of `c` in `s`, or `-1`.
pub open spec fn first_index_of(s: Seq<char>, c: char) -> int
    decreases s.len(),
{
    if s.len() == 0 {
        -1
    } else if s[0] == c {
        0
    } else {
        let r = first_index_of(s.drop_first(), c);
        if r < 0 {
            -1
        } else {
            r + 1
        }
    }
}

/// Where the first occurrence of `c` lies, where one does.
proof fn lemma_first_index_of(s: Seq<char>, c: char, k: int)
    requires
        0 <= k < s.len(),
        s[k] == c,
        forall|j: int| 0 <= j < k ==> s[j] != c,
    ensures
        first_index_of(s, c) == k,
    decreases k,
{
    if k > 0 {
        assert forall|j: int| 0 <= j < k - 1 implies s.drop_first()[j] != c by {
            assert(s.drop_first()[j] == s[j + 1]);
        }
        assert(s.drop_first()[k - 1] == s[k]);
        lemma_first_index_of(s.drop_first(), c, k - 1);
    }
}

/// `c` does not occur at all exactly when no position holds it.
proof fn lemma_first_index_of_none(s: Seq<char>, c: char)
    requires
        forall|j: int| 0 <= j < s.len() ==> s[j] != c,
    ensures
        first_index_of(s, c) == -1,
    decreases s.len(),
{
    if s.len() > 0 {
        assert forall|j: int| 0 <= j < s.drop_first().len() implies s.drop_first()[j] != c by {
            assert(s.drop_first()[j] == s[j + 1]);
        }
        lemma_first_index_of_none(s.drop_first(), c);
    }
}

/// The components of `s` split at every `sep`; empty components are kept.
pub open spec fn spec_split(s: Seq<char>, sep: char) -> Seq<Seq<char>>
    decreases s.len(),
{
    let i = first_index_of(s, sep);
    if i < 0 || i >= s.len() {
        seq![s]
    } else {
        seq![s.take(i)] + spec_split(s.skip(i + 1), sep)
    }
}

/// The components joined with `sep` between each two.
pub open spec fn spec_join_sep(parts: Seq<Seq<char>>, sep: char) -> Seq<char>
    decreases parts.len(),
{
    if parts.len() == 0 {
        Seq::empty()
    } else if parts.len() == 1 {
        parts[0]
    } else {
        spec_join_sep(parts.drop_last(), sep) + seq![sep] + parts.last()
    }
}

/// Split a `PATH`-style value at semicolons.
pub fn split_path_list(s: &str) -> (r: Vec<String>)
    ensures
        r@.map_values(|x: String| x@) == spec_split(s@, ';'),
{
    #![verifier::loop_isolation(false)]
    let n = s.unicode_len();
    let mut out: Vec<String> = Vec::new();
    let mut seg_start: usize = 0;
    let mut i: usize = 0;
    proof {
        assert(s@.skip(0) =~= s@);
        assert(out@.map_values(|x: String| x@) =~= Seq::<Seq<char>>::empty());
    }
    loop
        invariant
            0 <= seg_start <= i <= n,
            n == s@.len(),
            forall|j: int| seg_start <= j < i ==> s@[j] != ';',
            spec_split(s@, ';') =~= out@.map_values(|x: String| x@) + spec_split(
                s@.skip(seg_start as int),
                ';',
            ),
        decreases n - i,
    {
        if i == n {
            break;
        }
        let c = s.get_char(i);
        if c == ';' {
            let seg = s.substring_char(seg_start, i).to_owned();
            let ghost prev = out@;
            out.push(seg);
            proof {
                let rest = s@.skip(seg_start as int);
                assert forall|j: int| 0 <= j < i - seg_start implies rest[j] != ';' by {
                    assert(rest[j] == s@[seg_start + j]);
                }
                assert(rest[i - seg_start] == s@[i as int]);
                lemma_first_index_of(rest, ';', i - seg_start);
                assert(rest.take(i - seg_start) =~= s@.subrange(seg_start as int, i as int));
                assert(rest.skip(i - seg_start + 1) =~= s@.skip(i + 1));
                assert(out@.map_values(|x: String| x@) =~= prev.map_values(|x: String| x@).push(
                    s@.subrange(seg_start as int, i as int),
                ));
                assert(spec_split(s@, ';') =~= out@.map_values(|x: String| x@) + spec_split(
                    s@.skip(i + 1),
                    ';',
                ));
            }
            seg_start = i + 1;
        }
        i = i + 1;
    }
    let seg = s.substring_char(seg_start, n).to_owned();
    let ghost prev = out@;
    out.push(seg);
    proof {
        let rest = s@.skip(seg_start as int);
        assert forall|j: int| 0 <= j < rest.len() implies rest[j] != ';' by {
            assert(rest[j] == s@[seg_start + j]);
        }
        lemma_first_index_of_none(rest, ';');
        assert(spec_split(rest, ';') =~= seq![rest]);
        assert(rest =~= s@.subrange(seg_start as int, n as int));
        assert(out@.map_values(|x: String| x@) =~= prev.map_values(|x: String| x@).push(rest));
        assert(out@.map_values(|x: String| x@) =~= spec_split(s@, ';'));
    }
    out
}

/// The new `PATH` value with `target` appended, or `None` where `target` is
/// already one of its components and nothing need change.
pub fn add_to_env_path(current: &str, target: &str) -> (r: Option<String>)
    ensures
        match r {
            None => spec_split(current@, ';').contains(target@),
            Some(p) => !spec_split(current@, ';').contains(target@) && p@ == if current@.len()
                == 0 {
                target@
            } else {
                current@ + seq![';'] + target@
            },
        },
{
    #![verifier::loop_isolation(false)]
    let parts = split_path_list(current);
    let ghost comps = spec_split(current@, ';');
    for i in 0..parts.len()
        invariant
            comps == parts@.map_values(|x: String| x@),
            forall|j: int| 0 <= j < i ==> comps[j] != target@,
    {
        if str_eq(parts[i].as_str(), target) {
            assert(comps[i as int] == target@);
            return None;
        }
    }
    proof {
        if comps.contains(target@) {
            let k = choose|k: int| 0 <= k < comps.len() && comps[k] == target@;
            assert(false);
        }
    }
    if current.unicode_len() == 0 {
        Some(target.to_owned())
    } else {
        let mut out = current.to_owned();
        out.append(";");
        out.append(target);
        proof {
            reveal_strlit(";");
            assert(out@ =~= current@ + seq![';'] + target@);
        }
        Some(out)
    }
}

/// The new `PATH` value with every component equal to `target` removed, or
/// `None` where no component equals it and nothing need change.
pub fn remove_from_env_path(current: &str, target: &str) -> (r: Option<String>)
    ensures
        match r {
            None => !spec_split(current@, ';').contains(target@),
            Some(p) => spec_split(current@, ';').contains(target@) && p@ == spec_join_sep(
                spec_split(current@, ';').filter(|c: Seq<char>| c != target@),
                ';',
            ),
        },
{
    #![verifier::loop_isolation(false)]
    let parts = split_path_list(current);
    let ghost comps = spec_split(current@, ';');
    let ghost keep = |c: Seq<char>| c != target@;
    let mut found = false;
    let mut out = String::new();
    let mut kept: usize = 0;
    proof {
        reveal(Seq::filter);
        assert(comps.subrange(0, 0).filter(keep) =~= Seq::<Seq<char>>::empty());
    }
    for i in 0..parts.len()
        invariant
            comps == parts@.map_values(|x: String| x@),
            found <==> (exists|j: int| 0 <= j < i && comps[j] == target@),
            kept == comps.subrange(0, i as int).filter(keep).len(),
            out@ == spec_join_sep(comps.subrange(0, i as int).filter(keep), ';'),
    {
        let ghost prev_filtered = comps.subrange(0, i as int).filter(keep);
        if str_eq(parts[i].as_str(), target) {
            found = true;
            assert(comps[i as int] == target@);
        } else {
            if kept > 0 {
                out.append(";");
            }
            out.append(parts[i].as_str());
            kept = kept + 1;
            proof {
                reveal_strlit(";");
            }
        }
        proof {
            reveal(Seq::filter);
            let cur = comps.subrange(0, i + 1);
            assert(cur.drop_last() =~= comps.subrange(0, i as int));
            assert(cur.last() == comps[i as int]);
            if keep(comps[i as int]) {
                assert(cur.filter(keep) == prev_filtered.push(comps[i as int]));
                if prev_filtered.len() == 0 {
                    assert(out@ =~= comps[i as int]);
                    assert(spec_join_sep(cur.filter(keep), ';') == cur.filter(keep)[0]);
                } else {
                    assert(cur.filter(keep).drop_last() =~= prev_filtered);
                    assert(out@ =~= spec_join_sep(prev_filtered, ';') + seq![';']
                        + comps[i as int]);
                }
            } else {
                assert(cur.filter(keep) == prev_filtered);
            }
        }
    }
    proof {
        assert(comps.subrange(0, comps.len() as int) =~= comps);
        if found {
            let j = choose|j: int| 0 <= j < parts@.len() && comps[j] == target@;
            assert(comps.contains(target@));
        } else {
            if comps.contains(target@) {
                let k = choose|k: int| 0 <= k < comps.len() && comps[k] == target@;
                assert(false);
            }
        }
    }
    if found {
        Some(out)
    } else {
        None
    }
}

} // verus!
