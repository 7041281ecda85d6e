//! Paths as text: normalising, taking a path relative to a root, and
//! splitting off the file name and its extension.
//!
//! A path is a string whose components are separated by `/` or `\`, on
//! every host alike. Where a host lets a name hold a backslash, such a name
//! is taken apart here as a path is: of `a.b\c` the last component is `c`,
//! which has no extension, though the host reads one name with the
//! extension `b\c`.

use crate::text::{chars_of, push_char, string_of, substring_of};
use vstd::prelude::*;

verus! {

/// Whether `c` separates path components.
pub open spec fn is_separator(c: char) -> bool {
    c == '/' || c == '\\'
}

/// The marker that Windows puts before an extended-length path: `\\?\`.
pub open spec fn verbatim_prefix() -> Seq<char> {
    seq!['\\', '\\', '?', '\\']
}

/// `s` without any leading extended-length markers.
pub open spec fn strip_verbatim(s: Seq<char>) -> Seq<char>
    decreases s.len(),
{
    if s.len() >= 4 && s.subrange(0, 4) == verbatim_prefix() {
        strip_verbatim(s.subrange(4, s.len() as int))
    } else {
        s
    }
}

/// `s` with every backslash turned into a forward slash.
pub open spec fn forward_slashes(s: Seq<char>) -> Seq<char> {
    Seq::new(
        s.len(),
        |i: int|
            if s[i] == '\\' {
                '/'
            } else {
                s[i]
            },
    )
}

/// The normal form of a path: no extended-length marker, forward slashes
/// only.
pub open spec fn cleaned(p: Seq<char>) -> Seq<char> {
    forward_slashes(strip_verbatim(p))
}

/// `s` without its leading separators.
pub open spec fn skip_separators(s: Seq<char>) -> Seq<char>
    decreases s.len(),
{
    if s.len() > 0 && is_separator(s[0]) {
        skip_separators(s.subrange(1, s.len() as int))
    } else {
        s
    }
}

/// Whether `root` is a leading run of whole components of `path`.
pub open spec fn is_under(path: Seq<char>, root: Seq<char>) -> bool {
    &&& 0 < root.len() <= path.len()
    &&& path.subrange(0, root.len() as int) == root
    &&& (path.len() == root.len() || is_separator(root.last()) || is_separator(
        path[root.len() as int],
    ))
}

/// `path` taken relative to `root`; `path` itself where it does not lie
/// under `root`.
pub open spec fn relative(path: Seq<char>, root: Seq<char>) -> Seq<char> {
    if is_under(path, root) {
        skip_separators(path.subrange(root.len() as int, path.len() as int))
    } else {
        path
    }
}

/// Where the last component of `path` starts: just after the last
/// separator, or at 0.
pub open spec fn name_start(path: Seq<char>) -> int
    decreases path.len(),
{
    if path.len() == 0 {
        0
    } else if is_separator(path.last()) {
        path.len() as int
    } else {
        name_start(path.drop_last())
    }
}

/// The last component of `path`.
pub open spec fn file_name(path: Seq<char>) -> Seq<char> {
    path.subrange(name_start(path), path.len() as int)
}

/// The index of the last `.` in `name`, or -1.
pub open spec fn last_dot(name: Seq<char>) -> int
    decreases name.len(),
{
    if name.len() == 0 {
        -1
    } else if name.last() == '.' {
        name.len() - 1
    } else {
        last_dot(name.drop_last())
    }
}

/// The extension of a file name: what follows its last `.`, unless the name
/// has no `.`, has its only `.` in front, or is `..`.
pub open spec fn extension(name: Seq<char>) -> Option<Seq<char>> {
    let dot = last_dot(name);
    if dot <= 0 || name == seq!['.', '.'] {
        None
    } else {
        Some(name.subrange(dot + 1, name.len() as int))
    }
}

/// The extension of the last component of `path`.
pub open spec fn path_extension(path: Seq<char>) -> Option<Seq<char>> {
    extension(file_name(path))
}

/// The last component of a name that is put behind a separator, or behind
/// nothing, is that name, where the name holds no separator.
pub proof fn lemma_file_name_behind(front: Seq<char>, name: Seq<char>)
    requires
        front.len() == 0 || is_separator(front.last()),
        forall|i: int| 0 <= i < name.len() ==> !is_separator(name[i]),
    ensures
        file_name(front + name) == name,
    decreases name.len(),
{
    let path = front + name;
    if name.len() == 0 {
        assert(path =~= front);
        if front.len() > 0 {
            assert(name_start(front) == front.len());
        }
        assert(file_name(path) =~= name);
    } else {
        let shorter = name.drop_last();
        assert(path.drop_last() =~= front + shorter);
        assert(path.last() == name.last());
        lemma_file_name_behind(front, shorter);
        lemma_name_start_bounds(front + shorter);
        assert(file_name(front + shorter).len() == shorter.len());
        assert(name_start(path) == front.len());
        assert(file_name(path) =~= name);
    }
}

pub proof fn lemma_name_start_bounds(path: Seq<char>)
    ensures
        0 <= name_start(path) <= path.len(),
        forall|i: int| name_start(path) <= i < path.len() ==> !is_separator(path[i]),
        name_start(path) > 0 ==> is_separator(path[name_start(path) - 1]),
    decreases path.len(),
{
    if path.len() > 0 && !is_separator(path.last()) {
        let front = path.drop_last();
        lemma_name_start_bounds(front);
        assert forall|i: int| name_start(path) <= i < path.len() implies !is_separator(
            path[i],
        ) by {
            if i < front.len() {
                assert(front[i] == path[i]);
            }
        }
        if name_start(path) > 0 {
            assert(front[name_start(path) - 1] == path[name_start(path) - 1]);
        }
    }
}

pub proof fn lemma_last_dot_bounds(name: Seq<char>)
    ensures
        -1 <= last_dot(name) < name.len(),
        last_dot(name) >= 0 ==> name[last_dot(name)] == '.',
        forall|i: int| last_dot(name) < i < name.len() ==> name[i] != '.',
    decreases name.len(),
{
    if name.len() > 0 && name.last() != '.' {
        let front = name.drop_last();
        lemma_last_dot_bounds(front);
        assert forall|i: int| last_dot(name) < i < name.len() implies name[i] != '.' by {
            if i < front.len() {
                assert(front[i] == name[i]);
            }
        }
        if last_dot(name) >= 0 {
            assert(front[last_dot(name)] == name[last_dot(name)]);
        }
    }
}

/// Strips the Windows extended-length marker and turns backslashes into
/// forward slashes.
pub fn clean_path(p: &str) -> (out: String)
    ensures
        out@ == cleaned(p@),
{
    let chars = chars_of(p);
    let n = chars.len();
    let mut start: usize = 0;
    assert(chars@.subrange(0, n as int) =~= chars@);
    while n - start >= 4 && chars[start] == '\\' && chars[start + 1] == '\\' && chars[start + 2]
        == '?' && chars[start + 3] == '\\'
        invariant
            start <= n == chars@.len(),
            strip_verbatim(chars@) == strip_verbatim(chars@.subrange(start as int, n as int)),
        decreases n - start,
    {
        proof {
            let rest = chars@.subrange(start as int, n as int);
            assert(rest.subrange(0, 4) =~= verbatim_prefix());
            assert(rest.subrange(4, rest.len() as int) =~= chars@.subrange(start + 4, n as int));
        }
        start += 4;
    }
    proof {
        let rest = chars@.subrange(start as int, n as int);
        if rest.len() >= 4 {
            assert(rest.subrange(0, 4)[0] == rest[0]);
            assert(rest.subrange(0, 4)[1] == rest[1]);
            assert(rest.subrange(0, 4)[2] == rest[2]);
            assert(rest.subrange(0, 4)[3] == rest[3]);
            assert(rest.subrange(0, 4) != verbatim_prefix());
        }
        assert(strip_verbatim(rest) == rest);
    }
    let mut out = String::new();
    let mut i: usize = start;
    while i < n
        invariant
            start <= i <= n == chars@.len(),
            out@ == forward_slashes(chars@.subrange(start as int, i as int)),
        decreases n - i,
    {
        let c = chars[i];
        proof {
            let before = chars@.subrange(start as int, i as int);
            let after = chars@.subrange(start as int, i + 1);
            assert(forward_slashes(after) =~= forward_slashes(before).push(
                if c == '\\' {
                    '/'
                } else {
                    c
                },
            ));
        }
        if c == '\\' {
            push_char(&mut out, '/');
        } else {
            push_char(&mut out, c);
        }
        i += 1;
    }
    out
}

/// `path` relative to `root`, or `path` itself where it does not lie under
/// `root`.
pub fn relative_to(path: &str, root: &str) -> (out: String)
    ensures
        out@ == relative(path@, root@),
{
    let p = chars_of(path);
    let r = chars_of(root);
    if r.len() == 0 || r.len() > p.len() {
        return string_of(&p);
    }
    let mut i: usize = 0;
    while i < r.len()
        invariant
            i <= r@.len() <= p@.len(),
            p@ == path@,
            r@ == root@,
            p@.subrange(0, i as int) == r@.subrange(0, i as int),
        decreases r@.len() - i,
    {
        if p[i] != r[i] {
            proof {
                assert(p@.subrange(0, r@.len() as int)[i as int] == p@[i as int]);
            }
            return string_of(&p);
        }
        assert(p@.subrange(0, i + 1) =~= p@.subrange(0, i as int).push(p@[i as int]));
        assert(r@.subrange(0, i + 1) =~= r@.subrange(0, i as int).push(r@[i as int]));
        i += 1;
    }
    assert(r@.subrange(0, r@.len() as int) =~= r@);
    let last = r[r.len() - 1];
    let boundary = p.len() == r.len() || last == '/' || last == '\\' || p[r.len()] == '/'
        || p[r.len()] == '\\';
    if !boundary {
        return string_of(&p);
    }
    let mut start: usize = r.len();
    while start < p.len() && (p[start] == '/' || p[start] == '\\')
        invariant
            r@.len() <= start <= p@.len(),
            skip_separators(p@.subrange(r@.len() as int, p@.len() as int)) == skip_separators(
                p@.subrange(start as int, p@.len() as int),
            ),
        decreases p@.len() - start,
    {
        proof {
            let rest = p@.subrange(start as int, p@.len() as int);
            assert(rest.subrange(1, rest.len() as int) =~= p@.subrange(start + 1, p@.len() as int));
        }
        start += 1;
    }
    substring_of(&p, start, p.len())
}

/// The last component of `path`.
pub fn file_name_of(path: &str) -> (out: String)
    ensures
        out@ == file_name(path@),
{
    let p = chars_of(path);
    let mut start: usize = p.len();
    proof {
        lemma_name_start_bounds(p@);
    }
    while start > 0 && !(p[start - 1] == '/' || p[start - 1] == '\\')
        invariant
            start <= p@.len(),
            name_start(p@) <= start,
            forall|i: int| name_start(p@) <= i < p@.len() ==> !is_separator(p@[i]),
            name_start(p@) > 0 ==> is_separator(p@[name_start(p@) - 1]),
        decreases start,
    {
        start -= 1;
    }
    substring_of(&p, start, p.len())
}

/// The extension of a file name, if it has one.
pub fn extension_of(name: &str) -> (out: Option<String>)
    ensures
        match extension(name@) {
            Some(ext) => out is Some && out->0@ == ext,
            None => out is None,
        },
{
    let chars = chars_of(name);
    let n = chars.len();
    if n == 2 && chars[0] == '.' && chars[1] == '.' {
        assert(chars@ =~= seq!['.', '.']);
        return None;
    }
    proof {
        lemma_last_dot_bounds(chars@);
        if chars@ == seq!['.', '.'] {
            assert(chars@.len() == 2);
            assert(chars@[0] == '.' && chars@[1] == '.');
        }
    }
    let mut i: usize = n;
    while i > 0 && chars[i - 1] != '.'
        invariant
            i <= n == chars@.len(),
            last_dot(chars@) < i,
            -1 <= last_dot(chars@) < chars@.len(),
            last_dot(chars@) >= 0 ==> chars@[last_dot(chars@)] == '.',
        decreases i,
    {
        i -= 1;
    }
    if i <= 1 {
        return None;
    }
    Some(substring_of(&chars, i, n))
}

/// The extension of the last component of `path`, if it has one.
pub fn path_extension_of(path: &str) -> (out: Option<String>)
    ensures
        match path_extension(path@) {
            Some(ext) => out is Some && out->0@ == ext,
            None => out is None,
        },
{
    let name = file_name_of(path);
    extension_of(name.as_str())
}

} // verus!
