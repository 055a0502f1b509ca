//! Paths as the standard library compares them: a path is split into its
//! components (a Windows prefix, the root, the current directory and the
//! names), and two paths are equal when their components are.
//!
//! A component is written as a character sequence whose first character
//! tells its kind: `p` a Windows prefix (then a letter for the kind of
//! prefix and what identifies it), `/` the root, `.` the current directory,
//! and `n` a name, followed by the name itself (`..` counts as a name).
use vstd::prelude::*;
use crate::text::chars_of;

verus! {

/// A separator of Windows paths.
pub open spec fn is_win_sep(c: char) -> bool {
    c == '/' || c == '\\'
}

/// Whether `c` separates components: in a verbatim Windows path only `\`,
/// otherwise `/` and `sep`.
pub open spec fn splits(c: char, sep: char, verbatim: bool) -> bool {
    if verbatim {
        c == '\\'
    } else {
        c == '/' || c == sep
    }
}

/// The first position at or after `i` that holds a separator, or the
/// length of `s` when there is none.
pub open spec fn next_split(s: Seq<char>, i: int, sep: char, verbatim: bool) -> int
    decreases s.len() - i,
{
    if i < 0 || i >= s.len() {
        s.len() as int
    } else if splits(s[i], sep, verbatim) {
        i
    } else {
        next_split(s, i + 1, sep, verbatim)
    }
}

/// An ASCII letter.
pub open spec fn is_ascii_letter(c: char) -> bool {
    ('a' <= c && c <= 'z') || ('A' <= c && c <= 'Z')
}

/// `c` in upper case when it is an ASCII lower-case letter.
pub open spec fn ascii_upper(c: char) -> char {
    if 'a' <= c && c <= 'z' {
        ((c as u32 - 32) as u8) as char
    } else {
        c
    }
}

/// The prefix of the Windows path `s`, as the code of its component and
/// its length in characters. The codes:
/// - `pu` server `\` share: `\\?\UNC\server\share` (verbatim UNC);
/// - `pk` drive: `\\?\C:` (verbatim disk; the letter in upper case);
/// - `pv` name: `\\?\name` (other verbatim prefixes);
/// - `pn` device: `\\.\device`;
/// - `pw` server `\` share: `\\server\share`, both parts not empty;
/// - `pd` drive: `C:` (the letter in upper case).
///
/// A verbatim prefix begins with exactly `\\?\` and its parts end at `\`
/// only; elsewhere `/` and `\` both separate.
pub open spec fn win_prefix(s: Seq<char>) -> Option<(Seq<char>, int)> {
    if s.len() >= 2 && is_win_sep(s[0]) && is_win_sep(s[1]) {
        if s.len() >= 4 && s[0] == '\\' && s[1] == '\\' && s[2] == '?' && s[3] == '\\' {
            if s.len() >= 8 && s[4] == 'U' && s[5] == 'N' && s[6] == 'C' && is_win_sep(s[7]) {
                let e1 = next_split(s, 8, '\\', true);
                let share = if e1 < s.len() {
                    s.subrange(e1 + 1, next_split(s, e1 + 1, '\\', true))
                } else {
                    Seq::empty()
                };
                let len = if share.len() > 0 {
                    e1 + 1 + share.len()
                } else {
                    e1
                };
                Some((seq!['p', 'u'] + s.subrange(8, e1) + seq!['\\'] + share, len))
            } else if s.len() >= 6 && is_ascii_letter(s[4]) && s[5] == ':' && (s.len() == 6 || s[6]
                == '\\') {
                Some((seq!['p', 'k', ascii_upper(s[4])], 6))
            } else {
                let e = next_split(s, 4, '\\', true);
                Some((seq!['p', 'v'] + s.subrange(4, e), e))
            }
        } else if s.len() >= 4 && s[2] == '.' && is_win_sep(s[3]) {
            let e = next_split(s, 4, '\\', false);
            Some((seq!['p', 'n'] + s.subrange(4, e), e))
        } else {
            let e1 = next_split(s, 2, '\\', false);
            let share = if e1 < s.len() {
                s.subrange(e1 + 1, next_split(s, e1 + 1, '\\', false))
            } else {
                Seq::empty()
            };
            if e1 > 2 && share.len() > 0 {
                Some((seq!['p', 'w'] + s.subrange(2, e1) + seq!['\\'] + share, e1 + 1 + share.len()))
            } else {
                None
            }
        }
    } else if s.len() >= 2 && is_ascii_letter(s[0]) && s[1] == ':' {
        Some((seq!['p', 'd', ascii_upper(s[0])], 2))
    } else {
        None
    }
}

/// Whether a prefix code belongs to a verbatim prefix.
pub open spec fn is_verbatim_code(code: Seq<char>) -> bool {
    code[1] == 'v' || code[1] == 'u' || code[1] == 'k'
}

/// The pieces of `s` between separators, empty pieces included; there is
/// always one more piece than there are separators.
pub open spec fn split_parts(s: Seq<char>, sep: char, verbatim: bool) -> Seq<Seq<char>>
    decreases s.len(),
{
    if s.len() == 0 {
        seq![Seq::empty()]
    } else {
        let before = split_parts(s.drop_last(), sep, verbatim);
        if splits(s.last(), sep, verbatim) {
            before.push(Seq::empty())
        } else {
            before.update(before.len() - 1, before.last().push(s.last()))
        }
    }
}

/// The component a piece gives: none for an empty piece and for `.` (which
/// is the current directory only in a verbatim path), a name otherwise.
pub open spec fn part_code(p: Seq<char>, verbatim: bool) -> Option<Seq<char>> {
    if p.len() == 0 {
        None
    } else if p == seq!['.'] {
        if verbatim {
            Some(seq!['.'])
        } else {
            None
        }
    } else {
        Some(seq!['n'] + p)
    }
}

/// The components the pieces give, in order.
pub open spec fn coded_parts(parts: Seq<Seq<char>>, verbatim: bool) -> Seq<Seq<char>>
    decreases parts.len(),
{
    if parts.len() == 0 {
        Seq::empty()
    } else {
        let before = coded_parts(parts.drop_last(), verbatim);
        match part_code(parts.last(), verbatim) {
            Some(c) => before.push(c),
            None => before,
        }
    }
}

/// The components of the part of a path after its prefix and root.
pub open spec fn body_components(s: Seq<char>, sep: char, verbatim: bool) -> Seq<Seq<char>> {
    coded_parts(split_parts(s, sep, verbatim), verbatim)
}

/// The components of the path `s` on a system whose separator is `sep`
/// (`\` means Windows, where prefixes count), as paths compare them.
/// After a prefix comes the root when a separator follows it, and also,
/// without one, after a device or UNC prefix. Without a prefix, a leading
/// separator gives the root, and otherwise a leading `.` piece the current
/// directory. Empty and `.` pieces after that do not count.
pub open spec fn path_components(s: Seq<char>, sep: char) -> Seq<Seq<char>> {
    let prefix = if sep == '\\' {
        win_prefix(s)
    } else {
        None
    };
    match prefix {
        Some((code, n)) => {
            let verbatim = is_verbatim_code(code);
            let body = s.skip(n);
            let physical = body.len() > 0 && splits(body[0], sep, false);
            let root = if physical || code[1] == 'n' || code[1] == 'w' {
                seq![seq!['/']]
            } else {
                Seq::empty()
            };
            let rest = if physical {
                body.skip(1)
            } else {
                body
            };
            seq![code] + root + body_components(rest, sep, verbatim)
        },
        None => {
            if s.len() > 0 && splits(s[0], sep, false) {
                seq![seq!['/']] + body_components(s.skip(1), sep, false)
            } else if s.len() > 0 && s[0] == '.' && (s.len() == 1 || splits(s[1], sep, false)) {
                seq![seq!['.']] + body_components(s.skip(1), sep, false)
            } else {
                body_components(s, sep, false)
            }
        },
    }
}

fn is_win_sep_char(c: char) -> (res: bool)
    ensures
        res == is_win_sep(c),
{
    c == '/' || c == '\\'
}

fn splits_char(c: char, sep: char, verbatim: bool) -> (res: bool)
    ensures
        res == splits(c, sep, verbatim),
{
    if verbatim {
        c == '\\'
    } else {
        c == '/' || c == sep
    }
}

fn is_letter_char(c: char) -> (res: bool)
    ensures
        res == is_ascii_letter(c),
{
    ('a' <= c && c <= 'z') || ('A' <= c && c <= 'Z')
}

fn upper_char(c: char) -> (res: char)
    ensures
        res == ascii_upper(c),
{
    if 'a' <= c && c <= 'z' {
        ((c as u32 - 32) as u8) as char
    } else {
        c
    }
}

/// The first separator at or after `i` (see `next_split`).
fn find_split(s: &Vec<char>, i: usize, sep: char, verbatim: bool) -> (e: usize)
    requires
        i <= s.len(),
    ensures
        e == next_split(s@, i as int, sep, verbatim),
        i <= e <= s.len(),
{
    let mut k: usize = i;
    while k < s.len() && !splits_char(s[k], sep, verbatim)
        invariant
            i <= k <= s.len(),
            next_split(s@, i as int, sep, verbatim) == next_split(s@, k as int, sep, verbatim),
        decreases s.len() - k,
    {
        k = k + 1;
    }
    k
}

/// Appends `s[a..b]` to `v`.
fn append_range(v: &mut Vec<char>, s: &Vec<char>, a: usize, b: usize)
    requires
        a <= b <= s.len(),
    ensures
        final(v)@ == old(v)@ + s@.subrange(a as int, b as int),
{
    let mut k: usize = a;
    while k < b
        invariant
            a <= k <= b <= s.len(),
            v@ == old(v)@ + s@.subrange(a as int, k as int),
        decreases b - k,
    {
        v.push(s[k]);
        k = k + 1;
        assert(v@ =~= old(v)@ + s@.subrange(a as int, k as int));
    }
}

/// The prefix of the Windows path `s` (see `win_prefix`).
fn prefix_of(s: &Vec<char>) -> (res: Option<(Vec<char>, usize)>)
    ensures
        match res {
            Some(p) => win_prefix(s@) == Some((p.0@, p.1 as int)) && p.0.len() >= 2 && p.1 <= s.len(),
            None => win_prefix(s@) is None,
        },
{
    let n = s.len();
    if n >= 2 && is_win_sep_char(s[0]) && is_win_sep_char(s[1]) {
        if n >= 4 && s[0] == '\\' && s[1] == '\\' && s[2] == '?' && s[3] == '\\' {
            if n >= 8 && s[4] == 'U' && s[5] == 'N' && s[6] == 'C' && is_win_sep_char(s[7]) {
                let e1 = find_split(s, 8, '\\', true);
                let mut code: Vec<char> = vec!['p', 'u'];
                append_range(&mut code, s, 8, e1);
                code.push('\\');
                let mut len = e1;
                let ghost share: Seq<char> = Seq::empty();
                if e1 < n {
                    let e2 = find_split(s, e1 + 1, '\\', true);
                    append_range(&mut code, s, e1 + 1, e2);
                    proof {
                        share = s@.subrange(e1 + 1, e2 as int);
                    }
                    if e2 > e1 + 1 {
                        len = e2;
                    }
                }
                assert(code@ =~= seq!['p', 'u'] + s@.subrange(8, e1 as int) + seq!['\\'] + share);
                return Some((code, len));
            } else if n >= 6 && is_letter_char(s[4]) && s[5] == ':' && (n == 6 || s[6] == '\\') {
                let code: Vec<char> = vec!['p', 'k', upper_char(s[4])];
                assert(code@ =~= seq!['p', 'k', ascii_upper(s@[4])]);
                return Some((code, 6));
            } else {
                let e = find_split(s, 4, '\\', true);
                let mut code: Vec<char> = vec!['p', 'v'];
                append_range(&mut code, s, 4, e);
                assert(code@ =~= seq!['p', 'v'] + s@.subrange(4, e as int));
                return Some((code, e));
            }
        } else if n >= 4 && s[2] == '.' && is_win_sep_char(s[3]) {
            let e = find_split(s, 4, '\\', false);
            let mut code: Vec<char> = vec!['p', 'n'];
            append_range(&mut code, s, 4, e);
            assert(code@ =~= seq!['p', 'n'] + s@.subrange(4, e as int));
            return Some((code, e));
        } else {
            let e1 = find_split(s, 2, '\\', false);
            if e1 > 2 && e1 < n {
                let e2 = find_split(s, e1 + 1, '\\', false);
                if e2 > e1 + 1 {
                    let mut code: Vec<char> = vec!['p', 'w'];
                    append_range(&mut code, s, 2, e1);
                    code.push('\\');
                    append_range(&mut code, s, e1 + 1, e2);
                    assert(code@ =~= seq!['p', 'w'] + s@.subrange(2, e1 as int) + seq!['\\']
                        + s@.subrange(e1 + 1, e2 as int));
                    return Some((code, e2));
                }
            }
            return None;
        }
    } else if n >= 2 && is_letter_char(s[0]) && s[1] == ':' {
        let code: Vec<char> = vec!['p', 'd', upper_char(s[0])];
        assert(code@ =~= seq!['p', 'd', ascii_upper(s@[0])]);
        return Some((code, 2));
    }
    None
}

/// The characters of `s` from position `start` on.
fn chars_from(s: &Vec<char>, start: usize) -> (res: Vec<char>)
    requires
        start <= s.len(),
    ensures
        res@ == s@.skip(start as int),
{
    let mut res: Vec<char> = Vec::new();
    append_range(&mut res, s, start, s.len());
    assert(res@ =~= s@.skip(start as int));
    res
}

/// The raw pieces of `s` between separators, each as characters.
fn split_pieces(s: &Vec<char>, sep: char, verbatim: bool) -> (res: Vec<Vec<char>>)
    ensures
        res@.map_values(|v: Vec<char>| v@) == split_parts(s@, sep, verbatim),
{
    let mut done: Vec<Vec<char>> = Vec::new();
    let mut cur: Vec<char> = Vec::new();
    let mut i: usize = 0;
    while i < s.len()
        invariant
            i <= s.len(),
            done@.map_values(|v: Vec<char>| v@).push(cur@) == split_parts(
                s@.subrange(0, i as int),
                sep,
                verbatim,
            ),
        decreases s.len() - i,
    {
        let ghost prev = split_parts(s@.subrange(0, i as int), sep, verbatim);
        let ghost t = s@.subrange(0, i + 1);
        assert(t.drop_last() =~= s@.subrange(0, i as int));
        assert(t.last() == s@[i as int]);
        let c = s[i];
        if splits_char(c, sep, verbatim) {
            let finished = cur;
            done.push(finished);
            cur = Vec::new();
            assert(done@.map_values(|v: Vec<char>| v@) =~= prev);
            assert(done@.map_values(|v: Vec<char>| v@).push(cur@) =~= split_parts(t, sep, verbatim));
        } else {
            let ghost old_cur = cur@;
            cur.push(c);
            assert(prev.last() == old_cur);
            assert(done@.map_values(|v: Vec<char>| v@).push(cur@) =~= split_parts(t, sep, verbatim));
        }
        i = i + 1;
    }
    assert(s@.subrange(0, s.len() as int) =~= s@);
    done.push(cur);
    assert(done@.map_values(|v: Vec<char>| v@) =~= split_parts(s@, sep, verbatim));
    done
}

/// The component the piece `p` gives (see `part_code`).
fn code_of(p: &Vec<char>, verbatim: bool) -> (res: Option<Vec<char>>)
    ensures
        match res {
            Some(c) => part_code(p@, verbatim) == Some(c@),
            None => part_code(p@, verbatim) is None,
        },
{
    if p.len() == 0 {
        return None;
    }
    if p.len() == 1 && p[0] == '.' {
        assert(p@ =~= seq!['.']);
        if verbatim {
            let c: Vec<char> = vec!['.'];
            assert(c@ =~= seq!['.']);
            return Some(c);
        }
        return None;
    }
    if p.len() == 1 {
        assert(p@[0] != seq!['.'][0]);
    }
    let mut c: Vec<char> = vec!['n'];
    append_range(&mut c, p, 0, p.len());
    assert(p@.subrange(0, p.len() as int) =~= p@);
    Some(c)
}

/// Appends to `res` the components of `s`, the part of a path after its
/// prefix and root.
fn push_body_components(res: &mut Vec<Vec<char>>, s: &Vec<char>, sep: char, verbatim: bool)
    ensures
        final(res)@.map_values(|v: Vec<char>| v@) == old(res)@.map_values(|v: Vec<char>| v@)
            + body_components(s@, sep, verbatim),
{
    let parts = split_pieces(s, sep, verbatim);
    let ghost pv = parts@.map_values(|v: Vec<char>| v@);
    let ghost head = res@.map_values(|v: Vec<char>| v@);
    assert(pv.subrange(0, 0) =~= Seq::<Seq<char>>::empty());
    assert(res@.map_values(|v: Vec<char>| v@) =~= head + coded_parts(pv.subrange(0, 0), verbatim));
    let mut k: usize = 0;
    while k < parts.len()
        invariant
            k <= parts.len(),
            pv == parts@.map_values(|v: Vec<char>| v@),
            head == old(res)@.map_values(|v: Vec<char>| v@),
            res@.map_values(|v: Vec<char>| v@) == head + coded_parts(pv.subrange(0, k as int), verbatim),
        decreases parts.len() - k,
    {
        let ghost t = pv.subrange(0, k + 1);
        assert(t.drop_last() =~= pv.subrange(0, k as int));
        assert(t.last() == parts@[k as int]@);
        let ghost before = res@.map_values(|v: Vec<char>| v@);
        match code_of(&parts[k], verbatim) {
            Some(c) => {
                res.push(c);
                assert(res@.map_values(|v: Vec<char>| v@) =~= before.push(c@));
            },
            None => {},
        }
        k = k + 1;
        assert(res@.map_values(|v: Vec<char>| v@) =~= head + coded_parts(pv.subrange(0, k as int), verbatim));
    }
    assert(pv.subrange(0, pv.len() as int) =~= pv);
}

/// The components of the path `s` on a system whose separator is `sep`
/// (see `path_components`).
pub fn components_of(s: &str, sep: char) -> (res: Vec<Vec<char>>)
    ensures
        res@.map_values(|v: Vec<char>| v@) == path_components(s@, sep),
{
    let cs = chars_of(s);
    let n = cs.len();
    let prefix = if sep == '\\' {
        prefix_of(&cs)
    } else {
        None
    };
    let mut res: Vec<Vec<char>> = Vec::new();
    match prefix {
        Some((code, plen)) => {
            let ghost gcode = code@;
            let verbatim = code[1] == 'v' || code[1] == 'u' || code[1] == 'k';
            let kind = code[1];
            res.push(code);
            assert(res@.map_values(|v: Vec<char>| v@) =~= seq![gcode]);
            let body = chars_from(&cs, plen);
            let physical = plen < n && (cs[plen] == '/' || cs[plen] == sep);
            assert(physical == (body@.len() > 0 && splits(body@[0], sep, false)));
            let ghost root = if physical || gcode[1] == 'n' || gcode[1] == 'w' {
                seq![seq!['/']]
            } else {
                Seq::<Seq<char>>::empty()
            };
            if physical || kind == 'n' || kind == 'w' {
                let r: Vec<char> = vec!['/'];
                assert(r@ =~= seq!['/']);
                res.push(r);
            }
            assert(res@.map_values(|v: Vec<char>| v@) =~= seq![gcode] + root);
            let rest = if physical {
                chars_from(&body, 1)
            } else {
                body
            };
            assert(rest@ =~= (if physical {
                s@.skip(plen as int).skip(1)
            } else {
                s@.skip(plen as int)
            }));
            push_body_components(&mut res, &rest, sep, verbatim);
            assert(res@.map_values(|v: Vec<char>| v@) =~= path_components(s@, sep));
        },
        None => {
            if n > 0 && (cs[0] == '/' || cs[0] == sep) {
                let root: Vec<char> = vec!['/'];
                assert(root@ =~= seq!['/']);
                res.push(root);
                let rest = chars_from(&cs, 1);
                push_body_components(&mut res, &rest, sep, false);
            } else if n > 0 && cs[0] == '.' && (n == 1 || cs[1] == '/' || cs[1] == sep) {
                let cur: Vec<char> = vec!['.'];
                assert(cur@ =~= seq!['.']);
                res.push(cur);
                let rest = chars_from(&cs, 1);
                push_body_components(&mut res, &rest, sep, false);
            } else {
                push_body_components(&mut res, &cs, sep, false);
            }
        },
    }
    assert(res@.map_values(|v: Vec<char>| v@) =~= path_components(s@, sep));
    res
}

/// Whether two character sequences are equal.
fn same_chars(x: &Vec<char>, y: &Vec<char>) -> (res: bool)
    ensures
        res == (x@ == y@),
{
    if x.len() != y.len() {
        return false;
    }
    let mut m: usize = 0;
    while m < x.len()
        invariant
            x.len() == y.len(),
            m <= x.len(),
            forall|q: int| 0 <= q < m ==> x@[q] == y@[q],
        decreases x.len() - m,
    {
        if x[m] != y[m] {
            return false;
        }
        m = m + 1;
    }
    assert(x@ =~= y@);
    true
}

/// Whether two lists of character sequences are equal.
pub fn pieces_equal(a: &Vec<Vec<char>>, b: &Vec<Vec<char>>) -> (res: bool)
    ensures
        res == (a@.map_values(|v: Vec<char>| v@) == b@.map_values(|v: Vec<char>| v@)),
{
    let ghost av = a@.map_values(|v: Vec<char>| v@);
    let ghost bv = b@.map_values(|v: Vec<char>| v@);
    if a.len() != b.len() {
        assert(av.len() != bv.len());
        return false;
    }
    let mut k: usize = 0;
    while k < a.len()
        invariant
            a.len() == b.len(),
            k <= a.len(),
            av == a@.map_values(|v: Vec<char>| v@),
            bv == b@.map_values(|v: Vec<char>| v@),
            forall|m: int| 0 <= m < k ==> av[m] == bv[m],
        decreases a.len() - k,
    {
        if !same_chars(&a[k], &b[k]) {
            assert(av[k as int] != bv[k as int]);
            return false;
        }
        k = k + 1;
    }
    assert(av =~= bv);
    true
}

} // verus!
