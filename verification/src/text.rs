//! Character and substring primitives used by the asset selector and the
//! path utilities: ASCII case folding, and substring tests at the start, the
//! end, or anywhere inside a candidate string.

use vstd::prelude::*;

verus! {

use vstd::string::StrSliceExecFns;

/// Code point of a character with ASCII upper-case letters folded to lower case.
pub open spec fn lower_val(c: char) -> u32 {
    let v = c as u32;
    if 65 <= v && v <= 90 {
        (v + 32) as u32
    } else {
        v
    }
}

/// Character equality, exact or up to ASCII case.
pub open spec fn chars_eq(a: char, b: char, case_sensitive: bool) -> bool {
    if case_sensitive {
        a == b
    } else {
        lower_val(a) == lower_val(b)
    }
}

/// `pattern` occurs in `target` starting at position `k`.
pub open spec fn matches_at(target: Seq<char>, pattern: Seq<char>, k: int, case_sensitive: bool) -> bool {
    &&& 0 <= k
    &&& k + pattern.len() <= target.len()
    &&& forall|j: int| 0 <= j < pattern.len() ==> chars_eq(target[k + j], pattern[j], case_sensitive)
}

/// `pattern` is a prefix of `target`.
pub open spec fn spec_starts_with(target: Seq<char>, pattern: Seq<char>, case_sensitive: bool) -> bool {
    matches_at(target, pattern, 0, case_sensitive)
}

/// `pattern` is a suffix of `target`.
pub open spec fn spec_ends_with(target: Seq<char>, pattern: Seq<char>, case_sensitive: bool) -> bool {
    &&& pattern.len() <= target.len()
    &&& matches_at(target, pattern, target.len() - pattern.len(), case_sensitive)
}

/// `pattern` occurs somewhere in `target`.
pub open spec fn spec_contains(target: Seq<char>, pattern: Seq<char>, case_sensitive: bool) -> bool {
    exists|k: int| matches_at(target, pattern, k, case_sensitive)
}

fn lower_u32(c: char) -> (v: u32)
    ensures
        v == lower_val(c),
{
    let x = c as u32;
    if 65 <= x && x <= 90 {
        x + 32
    } else {
        x
    }
}

fn char_eq(a: char, b: char, case_sensitive: bool) -> (r: bool)
    ensures
        r == chars_eq(a, b, case_sensitive),
{
    if case_sensitive {
        let va = a as u32;
        let vb = b as u32;
        proof {
            vstd::utf8::char_u32_cast(a, va);
            vstd::utf8::char_u32_cast(b, vb);
        }
        va == vb
    } else {
        lower_u32(a) == lower_u32(b)
    }
}

/// `pattern` occurs in `target` at position `k`.
pub fn matches_here(target: &str, pattern: &str, k: usize, case_sensitive: bool) -> (r: bool)
    requires
        k + pattern@.len() <= target@.len(),
        k + pattern@.len() <= usize::MAX,
    ensures
        r == matches_at(target@, pattern@, k as int, case_sensitive),
{
    #![verifier::loop_isolation(false)]
    let n = pattern.unicode_len();
    for j in 0..n
        invariant
            n == pattern@.len(),
            k + n <= target@.len(),
            forall|jj: int| 0 <= jj < j ==> chars_eq(target@[k + jj], pattern@[jj], case_sensitive),
    {
        let tc = target.get_char(k + j);
        let pc = pattern.get_char(j);
        if !char_eq(tc, pc, case_sensitive) {
            return false;
        }
    }
    true
}

/// `pattern` is a prefix of `target`.
pub fn str_starts_with(target: &str, pattern: &str, case_sensitive: bool) -> (r: bool)
    ensures
        r == spec_starts_with(target@, pattern@, case_sensitive),
{
    let tn = target.unicode_len();
    let pn = pattern.unicode_len();
    if pn > tn {
        return false;
    }
    matches_here(target, pattern, 0, case_sensitive)
}

/// `pattern` is a suffix of `target`.
pub fn str_ends_with(target: &str, pattern: &str, case_sensitive: bool) -> (r: bool)
    ensures
        r == spec_ends_with(target@, pattern@, case_sensitive),
{
    let tn = target.unicode_len();
    let pn = pattern.unicode_len();
    if pn > tn {
        return false;
    }
    matches_here(target, pattern, tn - pn, case_sensitive)
}

/// `pattern` occurs somewhere in `target`.
pub fn str_contains(target: &str, pattern: &str, case_sensitive: bool) -> (r: bool)
    ensures
        r == spec_contains(target@, pattern@, case_sensitive),
{
    #![verifier::loop_isolation(false)]
    let tn = target.unicode_len();
    let pn = pattern.unicode_len();
    if pn > tn {
        assert(forall|k: int| !matches_at(target@, pattern@, k, case_sensitive));
        return false;
    }
    if pn == 0 {
        assert(matches_at(target@, pattern@, 0, case_sensitive));
        return true;
    }
    let last = tn - pn;
    for k in 0..last + 1
        invariant
            tn == target@.len(),
            pn == pattern@.len(),
            pn <= tn,
            last == tn - pn,
            forall|kk: int| 0 <= kk < k ==> !matches_at(target@, pattern@, kk, case_sensitive),
    {
        if matches_here(target, pattern, k, case_sensitive) {
            return true;
        }
    }
    assert(forall|kk: int| matches_at(target@, pattern@, kk, case_sensitive) ==> 0 <= kk <= last);
    false
}

/// Lexicographic order on character sequences by code point.
pub open spec fn seq_le(a: Seq<char>, b: Seq<char>) -> bool
    decreases a.len(),
{
    if a.len() == 0 {
        true
    } else if b.len() == 0 {
        false
    } else if a[0] == b[0] {
        seq_le(a.drop_first(), b.drop_first())
    } else {
        (a[0] as u32) < (b[0] as u32)
    }
}

/// The order is total.
pub proof fn lemma_seq_le_total(a: Seq<char>, b: Seq<char>)
    ensures
        seq_le(a, b) || seq_le(b, a),
    decreases a.len(),
{
    if a.len() > 0 && b.len() > 0 {
        if a[0] == b[0] {
            lemma_seq_le_total(a.drop_first(), b.drop_first());
        } else {
            vstd::utf8::char_u32_cast(a[0], a[0] as u32);
            vstd::utf8::char_u32_cast(b[0], b[0] as u32);
        }
    }
}

/// The order is transitive.
pub proof fn lemma_seq_le_trans(a: Seq<char>, b: Seq<char>, c: Seq<char>)
    requires
        seq_le(a, b),
        seq_le(b, c),
    ensures
        seq_le(a, c),
    decreases a.len(),
{
    if a.len() > 0 && b.len() > 0 && c.len() > 0 {
        if a[0] == b[0] && b[0] == c[0] {
            lemma_seq_le_trans(a.drop_first(), b.drop_first(), c.drop_first());
        }
    }
}

/// The order is antisymmetric.
pub proof fn lemma_seq_le_antisym(a: Seq<char>, b: Seq<char>)
    requires
        seq_le(a, b),
        seq_le(b, a),
    ensures
        a == b,
    decreases a.len(),
{
    if a.len() > 0 && b.len() > 0 {
        if a[0] == b[0] {
            lemma_seq_le_antisym(a.drop_first(), b.drop_first());
            assert(a.len() == b.len());
            assert(a =~= b) by {
                assert forall|i: int| 0 <= i < a.len() implies a[i] == b[i] by {
                    if i >= 1 {
                        assert(a[i] == a.drop_first()[i - 1]);
                        assert(b[i] == b.drop_first()[i - 1]);
                    }
                }
            }
        }
    }
}

/// Dropping an equal prefix from both sides does not change the order.
pub proof fn lemma_seq_le_common_prefix(a: Seq<char>, b: Seq<char>, i: int)
    requires
        0 <= i <= a.len(),
        i <= b.len(),
        forall|j: int| 0 <= j < i ==> a[j] == b[j],
    ensures
        seq_le(a, b) == seq_le(a.skip(i), b.skip(i)),
    decreases i,
{
    if i > 0 {
        assert(a.drop_first().skip(i - 1) =~= a.skip(i));
        assert(b.drop_first().skip(i - 1) =~= b.skip(i));
        lemma_seq_le_common_prefix(a.drop_first(), b.drop_first(), i - 1);
    } else {
        assert(a.skip(0) =~= a);
        assert(b.skip(0) =~= b);
    }
}

/// Lexicographic comparison of two strings by code point.
pub fn str_le(a: &str, b: &str) -> (r: bool)
    ensures
        r == seq_le(a@, b@),
{
    #![verifier::loop_isolation(false)]
    let an = a.unicode_len();
    let bn = b.unicode_len();
    let n = if an < bn { an } else { bn };
    for i in 0..n
        invariant
            forall|j: int| 0 <= j < i ==> a@[j] == b@[j],
    {
        let ca = a.get_char(i);
        let cb = b.get_char(i);
        let va = ca as u32;
        let vb = cb as u32;
        if va != vb {
            proof {
                lemma_seq_le_common_prefix(a@, b@, i as int);
                vstd::utf8::char_u32_cast(ca, va);
                vstd::utf8::char_u32_cast(cb, vb);
                assert(a@.skip(i as int)[0] == ca);
                assert(b@.skip(i as int)[0] == cb);
            }
            return va < vb;
        }
    }
    proof {
        lemma_seq_le_common_prefix(a@, b@, n as int);
        if an <= bn {
            assert(a@.skip(n as int).len() == 0);
        } else {
            assert(b@.skip(n as int).len() == 0);
            assert(a@.skip(n as int).len() > 0);
        }
    }
    an <= bn
}

/// The sequence with its trailing `/` characters removed.
pub open spec fn strip_trailing_slashes(s: Seq<char>) -> Seq<char>
    decreases s.len(),
{
    if s.len() > 0 && s.last() == '/' {
        strip_trailing_slashes(s.drop_last())
    } else {
        s
    }
}

/// Remove the trailing `/` characters of a string slice.
pub fn strip_trail_slash<'a>(s: &'a str) -> (r: &'a str)
    ensures
        r@ == strip_trailing_slashes(s@),
{
    #![verifier::loop_isolation(false)]
    let n = s.unicode_len();
    let mut end = n;
    proof {
        assert(s@.subrange(0, n as int) =~= s@);
    }
    loop
        invariant
            0 <= end <= n,
            n == s@.len(),
            strip_trailing_slashes(s@) == strip_trailing_slashes(s@.subrange(0, end as int)),
        decreases end,
    {
        if end == 0 {
            break;
        }
        let c = s.get_char(end - 1);
        if c != '/' {
            break;
        }
        proof {
            assert(s@.subrange(0, end as int).drop_last() =~= s@.subrange(0, end - 1));
        }
        end = end - 1;
    }
    proof {
        let t = s@.subrange(0, end as int);
        assert(end > 0 ==> t.last() == s@[end - 1]);
        assert(strip_trailing_slashes(t) == t);
    }
    s.substring_char(0, end)
}

/// Characters trimmed from both ends of a package full name: slashes and
/// ASCII whitespace.
pub open spec fn is_name_trim_char(c: char) -> bool {
    c == '/' || c == ' ' || c == '\t' || c == '\n' || c == '\r' || c as u32 == 12
}

fn name_trim_char(c: char) -> (r: bool)
    ensures
        r == is_name_trim_char(c),
{
    c == '/' || c == ' ' || c == '\t' || c == '\n' || c == '\r' || c as u32 == 12
}

pub open spec fn trim_front(s: Seq<char>) -> Seq<char>
    decreases s.len(),
{
    if s.len() > 0 && is_name_trim_char(s[0]) {
        trim_front(s.drop_first())
    } else {
        s
    }
}

pub open spec fn trim_back(s: Seq<char>) -> Seq<char>
    decreases s.len(),
{
    if s.len() > 0 && is_name_trim_char(s.last()) {
        trim_back(s.drop_last())
    } else {
        s
    }
}

/// A package full name with slashes and whitespace trimmed from both ends.
pub open spec fn spec_trim_name(s: Seq<char>) -> Seq<char> {
    trim_back(trim_front(s))
}

/// The index range of `s` left over after trimming slashes and whitespace
/// from both ends.
pub fn trim_name_range(s: &str) -> (r: (usize, usize))
    ensures
        r.0 <= r.1 <= s@.len(),
        s@.subrange(r.0 as int, r.1 as int) == spec_trim_name(s@),
{
    #![verifier::loop_isolation(false)]
    let n = s.unicode_len();
    let mut start: usize = 0;
    proof {
        assert(s@.subrange(0, n as int) =~= s@);
    }
    loop
        invariant
            0 <= start <= n,
            n == s@.len(),
            trim_front(s@) == trim_front(s@.subrange(start as int, n as int)),
        decreases n - start,
    {
        if start == n {
            break;
        }
        let c = s.get_char(start);
        if !name_trim_char(c) {
            break;
        }
        proof {
            assert(s@.subrange(start as int, n as int).drop_first() =~= s@.subrange(start + 1, n as int));
        }
        start = start + 1;
    }
    proof {
        let t = s@.subrange(start as int, n as int);
        assert(start < n ==> t[0] == s@[start as int]);
        assert(trim_front(t) == t);
        assert(trim_front(s@) == t);
    }
    let mut end = n;
    loop
        invariant
            start <= end <= n,
            n == s@.len(),
            trim_front(s@) == s@.subrange(start as int, n as int),
            trim_back(s@.subrange(start as int, n as int)) == trim_back(s@.subrange(start as int, end as int)),
        decreases end,
    {
        if end == start {
            break;
        }
        let c = s.get_char(end - 1);
        if !name_trim_char(c) {
            break;
        }
        proof {
            assert(s@.subrange(start as int, end as int).drop_last() =~= s@.subrange(start as int, end - 1));
        }
        end = end - 1;
    }
    proof {
        let t = s@.subrange(start as int, end as int);
        assert(end > start ==> t.last() == s@[end - 1]);
        assert(trim_back(t) == t);
    }
    (start, end)
}

/// A run of `n` spaces.
pub open spec fn spec_spaces(n: int) -> Seq<char>
    decreases n,
{
    if n <= 0 {
        Seq::empty()
    } else {
        spec_spaces(n - 1).push(' ')
    }
}

/// `s` padded with spaces on the right to at least `width` characters.
pub open spec fn spec_pad(s: Seq<char>, width: int) -> Seq<char> {
    if s.len() >= width {
        s
    } else {
        s + spec_spaces(width - s.len())
    }
}

/// Pad a string with spaces on the right to at least `width` characters.
pub fn pad(s: &str, width: usize) -> (r: String)
    ensures
        r@ == spec_pad(s@, width as int),
{
    #![verifier::loop_isolation(false)]
    let n = s.unicode_len();
    let mut out = s.to_owned();
    if n >= width {
        return out;
    }
    proof {
        reveal_strlit(" ");
        assert(out@ =~= s@ + spec_spaces(0));
    }
    for i in n..width
        invariant
            out@ == s@ + spec_spaces(i - n),
    {
        out.append(" ");
        proof {
            assert(out@ =~= s@ + spec_spaces(i + 1 - n));
        }
    }
    out
}

/// Exact string equality, by content.
pub fn str_eq(a: &str, b: &str) -> (r: bool)
    ensures
        r == (a@ == b@),
{
    let an = a.unicode_len();
    let bn = b.unicode_len();
    if an != bn {
        return false;
    }
    let r = matches_here(a, b, 0, true);
    proof {
        if matches_at(a@, b@, 0, true) {
            assert(a@ =~= b@);
        } else if a@ == b@ {
            assert(matches_at(a@, b@, 0, true));
        }
    }
    r
}

} // verus!
