//! Path-string utilities: the subpath test that guards safe removal, and
//! conversions of Windows paths into the forms POSIX-style shells expect.

use vstd::prelude::*;

verus! {

use vstd::string::StrSliceExecFns;
use vstd::string::StringExecFns;

use crate::text::{matches_at, matches_here, str_eq};

/// `d` lies strictly inside the directory `a`: `a` is a proper prefix of `d`
/// ending at a component boundary.
pub open spec fn strict_subpath(a: Seq<char>, d: Seq<char>) -> bool {
    &&& a.len() < d.len()
    &&& d.subrange(0, a.len() as int) == a
    &&& d[a.len() as int] == '/'
}

/// `p` equals `root` or lies inside it.
pub open spec fn spec_is_subpath_of(p: Seq<char>, root: Seq<char>) -> bool {
    p == root || strict_subpath(root, p)
}

/// Whether `p` is `other` itself or a descendant of it.
pub fn is_subpath_of(p: &str, other: &str) -> (r: bool)
    ensures
        r == spec_is_subpath_of(p@, other@),
{
    let pn = p.unicode_len();
    let on = other.unicode_len();
    if pn == on {
        let eq = str_eq(p, other);
        proof {
            if !eq {
                assert(!strict_subpath(other@, p@));
            }
        }
        return eq;
    }
    if pn < on {
        proof {
            assert(!strict_subpath(other@, p@));
        }
        return false;
    }
    let pref = matches_here(p, other, 0, true);
    if !pref {
        proof {
            if strict_subpath(other@, p@) {
                assert forall|j: int| 0 <= j < other@.len() implies crate::text::chars_eq(
                    p@[j],
                    other@[j],
                    true,
                ) by {
                    assert(p@.subrange(0, other@.len() as int)[j] == p@[j]);
                }
                assert(matches_at(p@, other@, 0, true));
            }
        }
        return false;
    }
    let boundary = p.get_char(on);
    proof {
        assert(p@.subrange(0, on as int) =~= other@);
    }
    boundary == '/'
}

/// An ASCII upper-case letter folded to lower case; other characters are
/// unchanged.
pub open spec fn lower_char(c: char) -> char {
    match c {
        'A' => 'a',
        'B' => 'b',
        'C' => 'c',
        'D' => 'd',
        'E' => 'e',
        'F' => 'f',
        'G' => 'g',
        'H' => 'h',
        'I' => 'i',
        'J' => 'j',
        'K' => 'k',
        'L' => 'l',
        'M' => 'm',
        'N' => 'n',
        'O' => 'o',
        'P' => 'p',
        'Q' => 'q',
        'R' => 'r',
        'S' => 's',
        'T' => 't',
        'U' => 'u',
        'V' => 'v',
        'W' => 'w',
        'X' => 'x',
        'Y' => 'y',
        'Z' => 'z',
        _ => c,
    }
}

/// A character is an ASCII letter.
pub open spec fn is_ascii_letter(c: char) -> bool {
    (65 <= c as u32 && c as u32 <= 90) || (97 <= c as u32 && c as u32 <= 122)
}

/// The lower-case spelling of an ASCII letter, as a string of one character.
fn lower_letter_str(c: char) -> (r: &'static str)
    requires
        is_ascii_letter(c),
    ensures
        r@ == seq![lower_char(c)],
{
    match c {
        'A' | 'a' => {
            proof {
                reveal_strlit("a");
                assert("a"@ =~= seq![lower_char('A')]);
                assert("a"@ =~= seq![lower_char('a')]);
            }
            "a"
        },
        'B' | 'b' => {
            proof {
                reveal_strlit("b");
                assert("b"@ =~= seq![lower_char('B')]);
                assert("b"@ =~= seq![lower_char('b')]);
            }
            "b"
        },
        'C' | 'c' => {
            proof {
                reveal_strlit("c");
                assert("c"@ =~= seq![lower_char('C')]);
                assert("c"@ =~= seq![lower_char('c')]);
            }
            "c"
        },
        'D' | 'd' => {
            proof {
                reveal_strlit("d");
                assert("d"@ =~= seq![lower_char('D')]);
                assert("d"@ =~= seq![lower_char('d')]);
            }
            "d"
        },
        'E' | 'e' => {
            proof {
                reveal_strlit("e");
                assert("e"@ =~= seq![lower_char('E')]);
                assert("e"@ =~= seq![lower_char('e')]);
            }
            "e"
        },
        'F' | 'f' => {
            proof {
                reveal_strlit("f");
                assert("f"@ =~= seq![lower_char('F')]);
                assert("f"@ =~= seq![lower_char('f')]);
            }
            "f"
        },
        'G' | 'g' => {
            proof {
                reveal_strlit("g");
                assert("g"@ =~= seq![lower_char('G')]);
                assert("g"@ =~= seq![lower_char('g')]);
            }
            "g"
        },
        'H' | 'h' => {
            proof {
                reveal_strlit("h");
                assert("h"@ =~= seq![lower_char('H')]);
                assert("h"@ =~= seq![lower_char('h')]);
            }
            "h"
        },
        'I' | 'i' => {
            proof {
                reveal_strlit("i");
                assert("i"@ =~= seq![lower_char('I')]);
                assert("i"@ =~= seq![lower_char('i')]);
            }
            "i"
        },
        'J' | 'j' => {
            proof {
                reveal_strlit("j");
                assert("j"@ =~= seq![lower_char('J')]);
                assert("j"@ =~= seq![lower_char('j')]);
            }
            "j"
        },
        'K' | 'k' => {
            proof {
                reveal_strlit("k");
                assert("k"@ =~= seq![lower_char('K')]);
                assert("k"@ =~= seq![lower_char('k')]);
            }
            "k"
        },
        'L' | 'l' => {
            proof {
                reveal_strlit("l");
                assert("l"@ =~= seq![lower_char('L')]);
                assert("l"@ =~= seq![lower_char('l')]);
            }
            "l"
        },
        'M' | 'm' => {
            proof {
                reveal_strlit("m");
                assert("m"@ =~= seq![lower_char('M')]);
                assert("m"@ =~= seq![lower_char('m')]);
            }
            "m"
        },
        'N' | 'n' => {
            proof {
                reveal_strlit("n");
                assert("n"@ =~= seq![lower_char('N')]);
                assert("n"@ =~= seq![lower_char('n')]);
            }
            "n"
        },
        'O' | 'o' => {
            proof {
                reveal_strlit("o");
                assert("o"@ =~= seq![lower_char('O')]);
                assert("o"@ =~= seq![lower_char('o')]);
            }
            "o"
        },
        'P' | 'p' => {
            proof {
                reveal_strlit("p");
                assert("p"@ =~= seq![lower_char('P')]);
                assert("p"@ =~= seq![lower_char('p')]);
            }
            "p"
        },
        'Q' | 'q' => {
            proof {
                reveal_strlit("q");
                assert("q"@ =~= seq![lower_char('Q')]);
                assert("q"@ =~= seq![lower_char('q')]);
            }
            "q"
        },
        'R' | 'r' => {
            proof {
                reveal_strlit("r");
                assert("r"@ =~= seq![lower_char('R')]);
                assert("r"@ =~= seq![lower_char('r')]);
            }
            "r"
        },
        'S' | 's' => {
            proof {
                reveal_strlit("s");
                assert("s"@ =~= seq![lower_char('S')]);
                assert("s"@ =~= seq![lower_char('s')]);
            }
            "s"
        },
        'T' | 't' => {
            proof {
                reveal_strlit("t");
                assert("t"@ =~= seq![lower_char('T')]);
                assert("t"@ =~= seq![lower_char('t')]);
            }
            "t"
        },
        'U' | 'u' => {
            proof {
                reveal_strlit("u");
                assert("u"@ =~= seq![lower_char('U')]);
                assert("u"@ =~= seq![lower_char('u')]);
            }
            "u"
        },
        'V' | 'v' => {
            proof {
                reveal_strlit("v");
                assert("v"@ =~= seq![lower_char('V')]);
                assert("v"@ =~= seq![lower_char('v')]);
            }
            "v"
        },
        'W' | 'w' => {
            proof {
                reveal_strlit("w");
                assert("w"@ =~= seq![lower_char('W')]);
                assert("w"@ =~= seq![lower_char('w')]);
            }
            "w"
        },
        'X' | 'x' => {
            proof {
                reveal_strlit("x");
                assert("x"@ =~= seq![lower_char('X')]);
                assert("x"@ =~= seq![lower_char('x')]);
            }
            "x"
        },
        'Y' | 'y' => {
            proof {
                reveal_strlit("y");
                assert("y"@ =~= seq![lower_char('Y')]);
                assert("y"@ =~= seq![lower_char('y')]);
            }
            "y"
        },
        'Z' | 'z' => {
            proof {
                reveal_strlit("z");
                assert("z"@ =~= seq![lower_char('Z')]);
                assert("z"@ =~= seq![lower_char('z')]);
            }
            "z"
        },
        _ => {
            proof {
                vstd::utf8::char_u32_cast(c, c as u32);
                assert(false);
            }
            ""
        },
    }
}

/// Every backslash replaced by a slash.
pub open spec fn backslash_to_slash(s: Seq<char>) -> Seq<char> {
    s.map_values(|c: char| if c == '\\' { '/' } else { c })
}

/// The shape of an absolute Windows path: a drive letter, a colon, and a
/// backslash.
pub open spec fn windows_abs_path(p: Seq<char>) -> bool {
    p.len() >= 3 && is_ascii_letter(p[0]) && p[1] == ':' && p[2] == '\\'
}

/// An absolute Windows path as a POSIX-style shell on Windows spells it.
pub open spec fn spec_windows_bash_path(p: Seq<char>) -> Seq<char> {
    seq!['/'] + seq![lower_char(p[0])] + seq!['/'] + backslash_to_slash(p.skip(3))
}

/// An absolute Windows path as the Windows Subsystem for Linux mounts it.
pub open spec fn spec_wsl_path(p: Seq<char>) -> Seq<char> {
    "/mnt"@ + spec_windows_bash_path(p)
}

/// Convert an absolute Windows path such as `C:\dir\file` into the form a
/// POSIX-style shell on Windows expects: `/c/dir/file`, with the drive
/// letter folded to lower case.
pub fn windows_path_to_windows_bash(p: &str) -> (r: String)
    requires
        windows_abs_path(p@),
    ensures
        r@ == spec_windows_bash_path(p@),
{
    #![verifier::loop_isolation(false)]
    let mut out = "/".to_owned();
    let drive = lower_letter_str(p.get_char(0));
    out.append(drive);
    out.append("/");
    let ghost head = seq!['/'] + seq![lower_char(p@[0])] + seq!['/'];
    proof {
        reveal_strlit("/");
        assert(out@ =~= head);
        assert(p@.subrange(3, 3) =~= Seq::<char>::empty());
        assert(backslash_to_slash(p@.subrange(3, 3)) =~= Seq::<char>::empty());
    }
    let n = p.unicode_len();
    let mut i: usize = 3;
    let mut seg_start: usize = 3;
    loop
        invariant
            3 <= seg_start <= i <= n,
            n == p@.len(),
            out@ == head + backslash_to_slash(p@.subrange(3, seg_start as int)),
            forall|j: int| seg_start <= j < i ==> p@[j] != '\\',
        decreases n - i,
    {
        if i == n {
            break;
        }
        let c = p.get_char(i);
        if c == '\\' {
            let seg = p.substring_char(seg_start, i);
            out.append(seg);
            out.append("/");
            proof {
                reveal_strlit("/");
                assert(backslash_to_slash(p@.subrange(3, i + 1)) =~= backslash_to_slash(
                    p@.subrange(3, seg_start as int),
                ) + p@.subrange(seg_start as int, i as int) + seq!['/']);
                assert(out@ =~= head + backslash_to_slash(p@.subrange(3, i + 1)));
            }
            seg_start = i + 1;
        }
        i = i + 1;
    }
    let tail = p.substring_char(seg_start, n);
    out.append(tail);
    proof {
        assert(backslash_to_slash(p@.subrange(3, n as int)) =~= backslash_to_slash(
            p@.subrange(3, seg_start as int),
        ) + p@.subrange(seg_start as int, n as int));
        assert(p@.subrange(3, n as int) =~= p@.skip(3));
        assert(out@ =~= head + backslash_to_slash(p@.skip(3)));
    }
    out
}

/// Convert an absolute Windows path into the path the Windows Subsystem for
/// Linux mounts it under: `/mnt/c/dir/file`.
pub fn windows_path_to_wsl(p: &str) -> (r: String)
    requires
        windows_abs_path(p@),
    ensures
        r@ == spec_wsl_path(p@),
{
    let bash_path = windows_path_to_windows_bash(p);
    let mut out = "/mnt".to_owned();
    out.append(bash_path.as_str());
    proof {
        assert(out@ =~= "/mnt"@ + seq!['/'] + seq![lower_char(p@[0])] + seq!['/']
            + backslash_to_slash(p@.skip(3)));
    }
    out
}

/// The last position of `c` in `s`, or `-1`.
pub open spec fn last_index_of(s: Seq<char>, c: char) -> int
    decreases s.len(),
{
    if s.len() == 0 {
        -1
    } else if s.last() == c {
        s.len() - 1
    } else {
        last_index_of(s.drop_last(), c)
    }
}

/// The position of the last path separator, slash or backslash, or `-1`.
pub open spec fn last_sep_index(p: Seq<char>) -> int {
    if last_index_of(p, '/') >= last_index_of(p, '\\') {
        last_index_of(p, '/')
    } else {
        last_index_of(p, '\\')
    }
}

/// The part of a path after its last separator.
pub open spec fn spec_file_name(p: Seq<char>) -> Seq<char> {
    p.skip(last_sep_index(p) + 1)
}

/// A file name with its extension removed: cut at the last dot, unless the
/// dot starts the name.
pub open spec fn spec_file_stem(f: Seq<char>) -> Seq<char> {
    if last_index_of(f, '.') > 0 {
        f.take(last_index_of(f, '.'))
    } else {
        f
    }
}

/// Find the last position of a dot, tied to `last_index_of`.
pub fn find_last_dot(s: &str) -> (r: Option<usize>)
    ensures
        match r {
            Some(i) => i == last_index_of(s@, '.') && i < s@.len(),
            None => last_index_of(s@, '.') == -1,
        },
{
    find_last(s, '.')
}

/// Find the last position of `c`, tied to `last_index_of`.
fn find_last(s: &str, c: char) -> (r: Option<usize>)
    ensures
        match r {
            Some(i) => i == last_index_of(s@, c) && i < s@.len(),
            None => last_index_of(s@, c) == -1,
        },
{
    #![verifier::loop_isolation(false)]
    let n = s.unicode_len();
    let mut end = n;
    proof {
        assert(s@.subrange(0, n as int) =~= s@);
    }
    loop
        invariant
            0 <= end <= n,
            n == s@.len(),
            last_index_of(s@, c) == last_index_of(s@.subrange(0, end as int), c),
        decreases end,
    {
        if end == 0 {
            break;
        }
        let x = s.get_char(end - 1);
        if x == c {
            proof {
                let t = s@.subrange(0, end as int);
                assert(t.last() == s@[end - 1]);
            }
            return Some(end - 1);
        }
        proof {
            assert(s@.subrange(0, end as int).drop_last() =~= s@.subrange(0, end - 1));
        }
        end = end - 1;
    }
    proof {
        assert(s@.subrange(0, 0) =~= Seq::<char>::empty());
    }
    None
}

/// The part of a path after its last separator.
pub fn file_name<'a>(p: &'a str) -> (r: &'a str)
    ensures
        r@ == spec_file_name(p@),
{
    let n = p.unicode_len();
    let slash = find_last(p, '/');
    let backslash = find_last(p, '\\');
    let sep: Option<usize> = match (slash, backslash) {
        (Some(a), Some(b)) => if a >= b {
            Some(a)
        } else {
            Some(b)
        },
        (Some(a), None) => Some(a),
        (None, Some(b)) => Some(b),
        (None, None) => None,
    };
    match sep {
        Some(i) => {
            let r = p.substring_char(i + 1, n);
            proof {
                assert(p@.subrange(i + 1, n as int) =~= p@.skip(i + 1));
            }
            r
        },
        None => {
            proof {
                assert(p@.skip(0) =~= p@);
            }
            p
        },
    }
}

/// A file name with its extension removed.
pub fn file_stem<'a>(f: &'a str) -> (r: &'a str)
    ensures
        r@ == spec_file_stem(f@),
{
    match find_last(f, '.') {
        Some(i) => {
            if i > 0 {
                let r = f.substring_char(0, i);
                proof {
                    assert(f@.subrange(0, i as int) =~= f@.take(i as int));
                }
                r
            } else {
                f
            }
        },
        None => f,
    }
}

} // verus!
