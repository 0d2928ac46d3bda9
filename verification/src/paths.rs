//! Helpers for file-system paths, held as the bytes of the operating system's
//! path (`OsStr::as_encoded_bytes`). They are read by the rules of `std::path`
//! on Unix, or on Windows when the caller says so: there `\` separates
//! components as well as `/` (only `\` in a verbatim `\\?\` path), and a
//! path may start with a prefix (a drive such as `C:`, a UNC share, a device
//! or a verbatim prefix).
use vstd::prelude::*;
use crate::text::{copy_bytes, bytes_from_range, text_from_bytes_lossy, utf8_lossy};

verus! {

/// The byte of `/`.
pub const SLASH: u8 = 0x2f;

/// The byte of `\`.
pub const BACKSLASH: u8 = 0x5c;

/// The byte of `.`.
pub const DOT: u8 = 0x2e;

/// The byte of `:`.
pub const COLON: u8 = 0x3a;

/// The byte of `?`.
pub const QUESTION: u8 = 0x3f;

/// Whether `b` separates components: `/` on Unix; `/` and `\` on Windows;
/// only `\` in a verbatim Windows path.
pub open spec fn is_separator(b: u8, windows: bool, verbatim: bool) -> bool {
    if verbatim {
        b == BACKSLASH
    } else if windows {
        b == SLASH || b == BACKSLASH
    } else {
        b == SLASH
    }
}

fn separator(b: u8, windows: bool, verbatim: bool) -> (sep: bool)
    ensures
        sep == is_separator(b, windows, verbatim),
{
    if verbatim {
        b == BACKSLASH
    } else if windows {
        b == SLASH || b == BACKSLASH
    } else {
        b == SLASH
    }
}

/// Index of the last separator in `s`, or -1 when there is none.
pub open spec fn last_separator(s: Seq<u8>, windows: bool, verbatim: bool) -> int
    decreases s.len(),
{
    if s.len() == 0 {
        -1
    } else if is_separator(s.last(), windows, verbatim) {
        s.len() - 1
    } else {
        last_separator(s.drop_last(), windows, verbatim)
    }
}

pub proof fn lemma_last_separator(s: Seq<u8>, windows: bool, verbatim: bool)
    ensures
        -1 <= last_separator(s, windows, verbatim) < s.len(),
        last_separator(s, windows, verbatim) >= 0 ==> is_separator(s[last_separator(s, windows, verbatim)], windows, verbatim),
        forall|i: int| last_separator(s, windows, verbatim) < i < s.len() ==> !is_separator(s[i], windows, verbatim),
    decreases s.len(),
{
    if s.len() > 0 && !is_separator(s.last(), windows, verbatim) {
        lemma_last_separator(s.drop_last(), windows, verbatim);
        assert forall|i: int| last_separator(s, windows, verbatim) < i < s.len() implies !is_separator(s[i], windows, verbatim) by {
            if i < s.len() - 1 {
                assert(s.drop_last()[i] == s[i]);
            }
        }
    }
}

/// `last_separator` is the one index that holds a separator with none after it.
pub proof fn lemma_last_separator_at(s: Seq<u8>, k: int, windows: bool, verbatim: bool)
    requires
        -1 <= k < s.len(),
        k >= 0 ==> is_separator(s[k], windows, verbatim),
        forall|i: int| k < i < s.len() ==> !is_separator(s[i], windows, verbatim),
    ensures
        last_separator(s, windows, verbatim) == k,
    decreases s.len(),
{
    if s.len() > 0 && k < s.len() - 1 {
        assert(s.last() == s[s.len() - 1]);
        assert forall|i: int| k < i < s.drop_last().len() implies !is_separator(s.drop_last()[i], windows, verbatim) by {
            assert(s.drop_last()[i] == s[i]);
        }
        if k >= 0 {
            assert(s.drop_last()[k] == s[k]);
        }
        lemma_last_separator_at(s.drop_last(), k, windows, verbatim);
    }
}

/// The final component of the part of a path after its prefix, when that is
/// a normal name. Repeated and trailing separators are ignored, and so are
/// `.` components, except in a verbatim path where `.` is a component of its
/// own (not a name); a final `..`, or no component at all, gives no name.
pub open spec fn spec_last_name(s: Seq<u8>, windows: bool, verbatim: bool) -> Option<Seq<u8>>
    decreases s.len(),
{
    if s.len() == 0 {
        None
    } else if is_separator(s.last(), windows, verbatim) {
        spec_last_name(s.drop_last(), windows, verbatim)
    } else {
        let start = last_separator(s, windows, verbatim) + 1;
        let component = s.subrange(start, s.len() as int);
        if component == seq![DOT] {
            if verbatim {
                None
            } else {
                proof {
                    lemma_last_separator(s, windows, verbatim);
                }
                spec_last_name(s.subrange(0, start), windows, verbatim)
            }
        } else if component == seq![DOT, DOT] {
            None
        } else {
            Some(component)
        }
    }
}

/// Index of the first separator at or after `i`, or the length of `s`.
pub open spec fn next_separator(s: Seq<u8>, i: int, windows: bool, verbatim: bool) -> int
    decreases s.len() - i,
{
    if i >= s.len() {
        s.len() as int
    } else if is_separator(s[i], windows, verbatim) {
        i
    } else {
        next_separator(s, i + 1, windows, verbatim)
    }
}

/// `next_separator` is the first separator from `i` on.
pub proof fn lemma_next_separator_at(s: Seq<u8>, i: int, k: int, windows: bool, verbatim: bool)
    requires
        0 <= i <= k <= s.len(),
        forall|j: int| i <= j < k ==> !is_separator(s[j], windows, verbatim),
        k == s.len() || is_separator(s[k], windows, verbatim),
    ensures
        next_separator(s, i, windows, verbatim) == k,
    decreases k - i,
{
    if i < k {
        lemma_next_separator_at(s, i + 1, k, windows, verbatim);
    }
}

/// An ASCII letter.
pub open spec fn is_ascii_letter(b: u8) -> bool {
    (0x41 <= b && b <= 0x5a) || (0x61 <= b && b <= 0x7a)
}

/// A Windows path starting with a verbatim prefix, `\\?\`: written with
/// backslashes, and with no `/` among its first eight bytes.
pub open spec fn is_verbatim(s: Seq<u8>, windows: bool) -> bool {
    &&& windows
    &&& s.len() >= 4
    &&& s[0] == BACKSLASH && s[1] == BACKSLASH && s[2] == QUESTION && s[3] == BACKSLASH
    &&& forall|j: int| 4 <= j < s.len() && j < 8 ==> s[j] != SLASH
}

/// The length of the prefix of a path: 0 on Unix; on Windows the length of
/// a verbatim UNC (`\\?\UNC\server\share`), verbatim disk (`\\?\C:`),
/// verbatim (`\\?\name`), device (`\\.\name`), UNC (`\\server\share`) or
/// disk (`C:`) prefix, or 0 when the path has none.
pub open spec fn prefix_len(s: Seq<u8>, windows: bool) -> int {
    if !windows {
        0
    } else if is_verbatim(s, windows) {
        if s.len() >= 8 && s[4] == 0x55u8 && s[5] == 0x4eu8 && s[6] == 0x43u8 && s[7] == BACKSLASH {
            let server_end = next_separator(s, 8, true, true);
            if server_end >= s.len() {
                server_end
            } else {
                let share_end = next_separator(s, server_end + 1, true, true);
                if share_end > server_end + 1 { share_end } else { server_end }
            }
        } else if s.len() >= 6 && is_ascii_letter(s[4]) && s[5] == COLON
            && (s.len() == 6 || is_separator(s[6], true, false)) {
            6
        } else {
            next_separator(s, 4, true, true)
        }
    } else if s.len() >= 2 && is_separator(s[0], true, false) && is_separator(s[1], true, false) {
        if s.len() >= 4 && s[2] == DOT && is_separator(s[3], true, false) {
            next_separator(s, 4, true, false)
        } else {
            let server_end = next_separator(s, 2, true, false);
            if server_end > 2 && server_end < s.len() {
                let share_end = next_separator(s, server_end + 1, true, false);
                if share_end > server_end + 1 { share_end } else { 0 }
            } else {
                0
            }
        }
    } else if s.len() >= 2 && is_ascii_letter(s[0]) && s[1] == COLON {
        2
    } else {
        0
    }
}

/// The file name of a path, read by the Unix rules or (when `windows`) by the
/// Windows ones: the final component after the prefix, when that is a normal name.
pub open spec fn spec_file_name(s: Seq<u8>, windows: bool) -> Option<Seq<u8>> {
    spec_last_name(
        s.subrange(prefix_len(s, windows), s.len() as int),
        windows,
        is_verbatim(s, windows),
    )
}

/// The final component of `path` (the part of a path after its prefix), as
/// text, when it is a normal name (see [`spec_last_name`]).
fn last_name(path: &[u8], windows: bool, verbatim: bool) -> (name: Option<String>)
    ensures
        match spec_last_name(path@, windows, verbatim) {
            Some(n) => name is Some && name->0@ == utf8_lossy(n),
            None => name is None,
        },
{
    let chars = path;
    let mut end: usize = chars.len();
    assert(chars@.subrange(0, end as int) =~= path@);
    loop
        invariant
            end <= chars@.len(),
            spec_last_name(path@, windows, verbatim) == spec_last_name(chars@.subrange(0, end as int), windows, verbatim),
            chars@ == path@,
        decreases end,
    {
        let ghost prefix = chars@.subrange(0, end as int);
        if end == 0 {
            return None;
        }
        if separator(chars[end - 1], windows, verbatim) {
            assert(prefix.drop_last() =~= chars@.subrange(0, end - 1));
            end = end - 1;
        } else {
            let mut start: usize = end - 1;
            while start > 0 && !separator(chars[start - 1], windows, verbatim)
                invariant
                    start < end <= chars@.len(),
                    forall|i: int| start <= i < end ==> !is_separator(chars@[i], windows, verbatim),
                decreases start,
            {
                start = start - 1;
            }
            proof {
                assert forall|i: int| start <= i < prefix.len() implies !is_separator(prefix[i], windows, verbatim) by {
                    assert(prefix[i] == chars@[i]);
                }
                if start > 0 {
                    assert(prefix[start - 1] == chars@[start - 1]);
                }
                lemma_last_separator_at(prefix, start - 1, windows, verbatim);
                assert(prefix.last() == chars@[end - 1]);
            }
            let len: usize = end - start;
            if len == 1 && chars[start] == DOT {
                assert(prefix.subrange(start as int, end as int) =~= seq![DOT]);
                if verbatim {
                    return None;
                }
                assert(prefix.subrange(0, start as int) =~= chars@.subrange(0, start as int));
                end = start;
            } else if len == 2 && chars[start] == DOT && chars[start + 1] == DOT {
                assert(prefix.subrange(start as int, end as int) =~= seq![DOT, DOT]);
                return None;
            } else {
                let bytes = bytes_from_range(chars, start, end);
                let name = text_from_bytes_lossy(bytes.as_slice());
                let ghost component = prefix.subrange(start as int, end as int);
                assert(component =~= chars@.subrange(start as int, end as int));
                assert(component != seq![DOT]) by {
                    if component == seq![DOT] {
                        assert(component.len() == 1 && component[0] == chars@[start as int]);
                    }
                }
                assert(component != seq![DOT, DOT]) by {
                    if component == seq![DOT, DOT] {
                        assert(component.len() == 2 && component[0] == chars@[start as int]);
                        assert(component[1] == chars@[start + 1]);
                    }
                }
                return Some(name);
            }
        }
    }
}


fn find_separator(path: &[u8], i: usize, windows: bool, verbatim: bool) -> (k: usize)
    requires
        i <= path@.len(),
    ensures
        k == next_separator(path@, i as int, windows, verbatim),
        i <= k <= path@.len(),
{
    let mut k: usize = i;
    while k < path.len() && !separator(path[k], windows, verbatim)
        invariant
            i <= k <= path@.len(),
            forall|j: int| i <= j < k ==> !is_separator(path@[j], windows, verbatim),
        decreases path@.len() - k,
    {
        k = k + 1;
    }
    proof {
        lemma_next_separator_at(path@, i as int, k as int, windows, verbatim);
    }
    k
}

fn ascii_letter(b: u8) -> (letter: bool)
    ensures
        letter == is_ascii_letter(b),
{
    (0x41 <= b && b <= 0x5a) || (0x61 <= b && b <= 0x7a)
}

/// Whether `path` is a verbatim Windows path (see [`is_verbatim`]).
pub fn verbatim_path(path: &[u8], windows: bool) -> (verbatim: bool)
    ensures
        verbatim == is_verbatim(path@, windows),
{
    if !windows || path.len() < 4 {
        return false;
    }
    if !(path[0] == BACKSLASH && path[1] == BACKSLASH && path[2] == QUESTION && path[3] == BACKSLASH) {
        return false;
    }
    let mut j: usize = 4;
    while j < path.len() && j < 8
        invariant
            4 <= j <= 8,
            forall|x: int| 4 <= x < j && x < path@.len() ==> path@[x] != SLASH,
        decreases 8 - j,
    {
        if path[j] == SLASH {
            return false;
        }
        j = j + 1;
    }
    true
}

/// The length of the prefix of `path` (see [`prefix_len`]).
pub fn prefix_length(path: &[u8], windows: bool) -> (p: usize)
    ensures
        p == prefix_len(path@, windows),
        p <= path@.len(),
{
    if !windows {
        return 0;
    }
    let n: usize = path.len();
    if verbatim_path(path, windows) {
        if n >= 8 && path[4] == 0x55u8 && path[5] == 0x4eu8 && path[6] == 0x43u8 && path[7] == BACKSLASH {
            let server_end = find_separator(path, 8, true, true);
            if server_end >= n {
                server_end
            } else {
                let share_end = find_separator(path, server_end + 1, true, true);
                if share_end > server_end + 1 { share_end } else { server_end }
            }
        } else if n >= 6 && ascii_letter(path[4]) && path[5] == COLON && (n == 6 || separator(path[6], true, false)) {
            6
        } else {
            find_separator(path, 4, true, true)
        }
    } else if n >= 2 && separator(path[0], true, false) && separator(path[1], true, false) {
        if n >= 4 && path[2] == DOT && separator(path[3], true, false) {
            find_separator(path, 4, true, false)
        } else {
            let server_end = find_separator(path, 2, true, false);
            if server_end > 2 && server_end < n {
                let share_end = find_separator(path, server_end + 1, true, false);
                if share_end > server_end + 1 { share_end } else { 0 }
            } else {
                0
            }
        }
    } else if n >= 2 && ascii_letter(path[0]) && path[1] == COLON {
        2
    } else {
        0
    }
}

/// Retrieves the file name from the given path, read by the Windows rules
/// when `windows` is set and by the Unix rules otherwise: its final component
/// after the prefix, when that is a normal name (see [`spec_file_name`]),
/// converted to text lossily (invalid UTF-8 becomes U+FFFD, as
/// `OsStr::to_string_lossy` does).
pub fn file_name(path: &[u8], windows: bool) -> (name: Option<String>)
    ensures
        match spec_file_name(path@, windows) {
            Some(n) => name is Some && name->0@ == utf8_lossy(n),
            None => name is None,
        },
{
    let p = prefix_length(path, windows);
    let verbatim = verbatim_path(path, windows);
    let body = bytes_from_range(path, p, path.len());
    last_name(body.as_slice(), windows, verbatim)
}

/// `next_separator` lies between `i` and the length of `s`.
pub proof fn lemma_next_separator_bounds(s: Seq<u8>, i: int, windows: bool, verbatim: bool)
    requires
        0 <= i <= s.len(),
    ensures
        i <= next_separator(s, i, windows, verbatim) <= s.len(),
        i < s.len() && !is_separator(s[i], windows, verbatim) ==> next_separator(s, i, windows, verbatim) > i,
    decreases s.len() - i,
{
    if i < s.len() && !is_separator(s[i], windows, verbatim) {
        lemma_next_separator_bounds(s, i + 1, windows, verbatim);
    }
}

/// The `\`-separated components of `s` that are not empty, each written
/// after one `\`: what rebuilding a verbatim path from its components gives.
pub open spec fn backslash_components(s: Seq<u8>) -> Seq<u8>
    decreases s.len(),
{
    if s.len() == 0 {
        seq![]
    } else if s[0] == BACKSLASH {
        backslash_components(s.drop_first())
    } else {
        let e = next_separator(s, 0, true, true);
        proof {
            lemma_next_separator_bounds(s, 0, true, true);
        }
        seq![BACKSLASH] + s.subrange(0, e) + backslash_components(s.subrange(e, s.len() as int))
    }
}

/// A normal name: not empty, free of separators, neither `.` nor `..`, and
/// (on Windows) not starting with a prefix such as a drive.
pub open spec fn is_normal_name(name: Seq<u8>, windows: bool) -> bool {
    &&& name.len() > 0
    &&& forall|i: int| 0 <= i < name.len() ==> !is_separator(name[i], windows, false)
    &&& name != seq![DOT]
    &&& name != seq![DOT, DOT]
    &&& prefix_len(name, windows) == 0
}

/// `base` joined with the normal name `name`, as `Path::join` does: on Unix
/// with one `/` between them unless `base` is empty or ends with a separator;
/// on Windows likewise with `\`, except that nothing is put after a bare
/// drive (`C:`), and that a verbatim `base` is rebuilt from its components,
/// each after one `\`, before `\` and the name.
pub open spec fn spec_join(base: Seq<u8>, name: Seq<u8>, windows: bool) -> Seq<u8> {
    if is_verbatim(base, windows) {
        let p = prefix_len(base, windows);
        base.subrange(0, p) + backslash_components(base.subrange(p, base.len() as int)) + seq![BACKSLASH] + name
    } else if base.len() == 0 || is_separator(base.last(), windows, false)
        || (windows && base.len() == 2 && prefix_len(base, windows) == 2) {
        base + name
    } else if windows {
        base.push(BACKSLASH) + name
    } else {
        base.push(SLASH) + name
    }
}

fn append_bytes(v: &mut Vec<u8>, bytes: &[u8])
    ensures
        final(v)@ == old(v)@ + bytes@,
{
    let ghost start = v@;
    let mut i: usize = 0;
    while i < bytes.len()
        invariant
            i <= bytes@.len(),
            v@ == start + bytes@.subrange(0, i as int),
        decreases bytes@.len() - i,
    {
        v.push(bytes[i]);
        i = i + 1;
        assert(v@ =~= start + bytes@.subrange(0, i as int));
    }
    assert(bytes@.subrange(0, bytes@.len() as int) =~= bytes@);
}

/// Joins the normal name `name` onto `base` (as `Path::join` does; see [`spec_join`]).
pub fn join(base: &[u8], name: &[u8], windows: bool) -> (joined: Vec<u8>)
    requires
        is_normal_name(name@, windows),
    ensures
        joined@ == spec_join(base@, name@, windows),
{
    let n: usize = base.len();
    if verbatim_path(base, windows) {
        let p = prefix_length(base, windows);
        let mut joined = bytes_from_range(base, 0, p);
        let ghost target = backslash_components(base@.subrange(p as int, n as int));
        let mut i: usize = p;
        while i < n
            invariant
                p <= i <= n == base@.len(),
                joined@ + backslash_components(base@.subrange(i as int, n as int))
                    == base@.subrange(0, p as int) + target,
            decreases n - i,
        {
            let ghost rest = base@.subrange(i as int, n as int);
            assert(rest[0] == base@[i as int]);
            if base[i] == BACKSLASH {
                assert(rest.drop_first() =~= base@.subrange(i + 1, n as int));
                i = i + 1;
            } else {
                let e = find_separator(base, i, true, true);
                proof {
                    assert forall|j: int| 0 <= j < e - i implies !is_separator(rest[j], true, true) by {
                        assert(rest[j] == base@[i + j]);
                        lemma_next_separator_before(base@, i as int, i + j, true, true);
                    }
                    lemma_next_separator_bounds(base@, i as int, true, true);
                    if e < n {
                        assert(rest[e - i] == base@[e as int]);
                        assert(is_separator(base@[e as int], true, true)) by {
                            lemma_next_separator_at_is(base@, i as int, true, true);
                        }
                    }
                    assert forall|j: int| i <= j < e implies !is_separator(base@[j], true, true) by {
                        lemma_next_separator_before(base@, i as int, j, true, true);
                    }
                    lemma_next_separator_at(rest, 0, e - i, true, true);
                    assert(rest.subrange(0, e - i) =~= base@.subrange(i as int, e as int));
                    assert(rest.subrange(e - i, rest.len() as int) =~= base@.subrange(e as int, n as int));
                }
                joined.push(BACKSLASH);
                append_bytes(&mut joined, &base[i..e]);
                i = e;
            }
        }
        assert(base@.subrange(n as int, n as int) =~= Seq::<u8>::empty());
        joined.push(BACKSLASH);
        append_bytes(&mut joined, name);
        return joined;
    }
    let mut joined = copy_bytes(base);
    if n > 0 && !separator(base[n - 1], windows, false) && !(windows && n == 2 && prefix_length(base, windows) == 2) {
        if windows {
            joined.push(BACKSLASH);
        } else {
            joined.push(SLASH);
        }
    }
    append_bytes(&mut joined, name);
    joined
}

/// At `next_separator` there is a separator, unless it is the end.
pub proof fn lemma_next_separator_at_is(s: Seq<u8>, i: int, windows: bool, verbatim: bool)
    requires
        0 <= i <= s.len(),
    ensures
        next_separator(s, i, windows, verbatim) < s.len() ==> is_separator(s[next_separator(s, i, windows, verbatim)], windows, verbatim),
    decreases s.len() - i,
{
    if i < s.len() && !is_separator(s[i], windows, verbatim) {
        lemma_next_separator_at_is(s, i + 1, windows, verbatim);
    }
}

/// Before `next_separator` there is no separator.
pub proof fn lemma_next_separator_before(s: Seq<u8>, i: int, j: int, windows: bool, verbatim: bool)
    requires
        0 <= i <= j < next_separator(s, i, windows, verbatim),
        i <= s.len(),
    ensures
        !is_separator(s[j], windows, verbatim),
    decreases s.len() - i,
{
    if i < s.len() && !is_separator(s[i], windows, verbatim) && j > i {
        lemma_next_separator_before(s, i + 1, j, windows, verbatim);
    }
}

/// A prefix is never longer than the path.
pub proof fn lemma_prefix_len_bounds(s: Seq<u8>, windows: bool)
    ensures
        0 <= prefix_len(s, windows) <= s.len(),
{
    if windows {
        if s.len() >= 8 {
            lemma_next_separator_bounds(s, 8, true, true);
            let e = next_separator(s, 8, true, true);
            if e < s.len() {
                lemma_next_separator_bounds(s, e + 1, true, true);
            }
        }
        if s.len() >= 4 {
            lemma_next_separator_bounds(s, 4, true, true);
            lemma_next_separator_bounds(s, 4, true, false);
        }
        if s.len() >= 2 {
            lemma_next_separator_bounds(s, 2, true, false);
            let e = next_separator(s, 2, true, false);
            if e < s.len() {
                lemma_next_separator_bounds(s, e + 1, true, false);
            }
        }
    }
}

/// A file name, when there is one, is a single normal component: not empty,
/// with no separator (by the rules the path is read with), and neither `.` nor `..`.
pub proof fn law_file_name_is_normal(path: Seq<u8>, windows: bool)
    ensures
        spec_file_name(path, windows) matches Some(n) ==> {
            &&& n.len() > 0
            &&& forall|i: int| 0 <= i < n.len() ==> !is_separator(n[i], windows, is_verbatim(path, windows))
            &&& n != seq![DOT]
            &&& n != seq![DOT, DOT]
        },
{
    lemma_prefix_len_bounds(path, windows);
    lemma_last_name_normal(
        path.subrange(prefix_len(path, windows), path.len() as int),
        windows,
        is_verbatim(path, windows),
    );
}

pub proof fn lemma_last_name_normal(s: Seq<u8>, windows: bool, verbatim: bool)
    ensures
        spec_last_name(s, windows, verbatim) matches Some(n) ==> {
            &&& n.len() > 0
            &&& forall|i: int| 0 <= i < n.len() ==> !is_separator(n[i], windows, verbatim)
            &&& n != seq![DOT]
            &&& n != seq![DOT, DOT]
        },
    decreases s.len(),
{
    if s.len() > 0 {
        if is_separator(s.last(), windows, verbatim) {
            lemma_last_name_normal(s.drop_last(), windows, verbatim);
        } else {
            lemma_last_separator(s, windows, verbatim);
            let start = last_separator(s, windows, verbatim) + 1;
            let component = s.subrange(start, s.len() as int);
            if component == seq![DOT] {
                if !verbatim {
                    lemma_last_name_normal(s.subrange(0, start), windows, verbatim);
                }
            } else {
                assert forall|i: int| 0 <= i < component.len() implies !is_separator(component[i], windows, verbatim) by {
                    assert(component[i] == s[start + i]);
                }
            }
        }
    }
}

/// The file name of a path joined with a normal name is that name, when the
/// join leaves the path's prefix as it was (on Windows a join can complete a
/// prefix, as `\\server` joined with `share` gives the bare UNC prefix
/// `\\server\share`, which has no file name).
pub proof fn law_file_name_of_join(base: Seq<u8>, name: Seq<u8>, windows: bool)
    requires
        is_normal_name(name, windows),
        prefix_len(spec_join(base, name, windows), windows) == prefix_len(base, windows),
        is_verbatim(spec_join(base, name, windows), windows) == is_verbatim(base, windows),
    ensures
        spec_file_name(spec_join(base, name, windows), windows) == Some(name),
{
    let j = spec_join(base, name, windows);
    let p = prefix_len(base, windows);
    let v = is_verbatim(base, windows);
    lemma_prefix_len_bounds(base, windows);
    let start = j.len() - name.len();
    assert(j.subrange(start, j.len() as int) =~= name);
    assert(start >= p);
    assert(start > p ==> is_separator(j[start - 1], windows, v));
    let body = j.subrange(p, j.len() as int);
    let k = start - p - 1;
    assert forall|i: int| k < i < body.len() implies !is_separator(body[i], windows, v) by {
        assert(body[i] == name[i - k - 1]);
        assert(!is_separator(name[i - k - 1], windows, false));
    }
    if k >= 0 {
        assert(body[k] == j[start - 1]);
    }
    lemma_last_separator_at(body, k, windows, v);
    assert(body.last() == name[name.len() - 1]);
    assert(!is_separator(name[name.len() - 1], windows, false));
    assert(body.subrange(k + 1, body.len() as int) =~= name);
}

/// Appending a separator does not change the file name: a path with
/// something after its prefix has the same file name with one more separator
/// (one that separates under the rules the path is read with) at its end, as
/// long as that does not change the path's prefix (`\\?` followed by `\`
/// becomes the bare verbatim prefix `\\?\`, which has no file name).
pub proof fn law_trailing_separator_ignored(p: Seq<u8>, c: u8, windows: bool)
    requires
        prefix_len(p, windows) < p.len(),
        is_separator(c, windows, is_verbatim(p, windows)),
        prefix_len(p.push(c), windows) == prefix_len(p, windows),
        is_verbatim(p.push(c), windows) == is_verbatim(p, windows),
    ensures
        spec_file_name(p.push(c), windows) == spec_file_name(p, windows),
{
    lemma_prefix_len_bounds(p, windows);
    let k = prefix_len(p, windows);
    let v = is_verbatim(p, windows);
    let body = p.subrange(k, p.len() as int);
    let longer = p.push(c).subrange(k, p.len() + 1int);
    assert(longer =~= body.push(c));
    assert(longer.last() == c);
    assert(longer.drop_last() =~= body);
}

} // verus!
