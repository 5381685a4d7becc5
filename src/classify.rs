//! Predicates on a path's text: native executable, package-manager command shim.

use vstd::prelude::*;
use crate::text::chars_of;

verus! {

/// A path separator on Windows: either slash.
pub open spec fn is_separator(c: char) -> bool {
    c == '/' || c == '\\'
}

/// The last component of `p`: what follows its last separator.
pub open spec fn file_name(p: Seq<char>) -> Seq<char>
    decreases p.len(),
{
    if p.len() == 0 || is_separator(p.last()) {
        seq![]
    } else {
        file_name(p.drop_last()).push(p.last())
    }
}

/// The extension of a file name: what follows its last dot, where that dot is
/// not the name's first character. A name with no such dot has none.
pub open spec fn name_extension(n: Seq<char>) -> Option<Seq<char>>
    decreases n.len(),
{
    if n.len() <= 1 {
        None
    } else if n.last() == '.' {
        Some(seq![])
    } else {
        match name_extension(n.drop_last()) {
            Some(e) => Some(e.push(n.last())),
            None => None,
        }
    }
}

/// The extension of the last component of `p`.
pub open spec fn extension(p: Seq<char>) -> Option<Seq<char>> {
    name_extension(file_name(p))
}

/// Whether `c` is the lower-case ASCII letter `l` or its upper-case form.
pub open spec fn same_letter(c: char, l: char) -> bool {
    c == l || c as u32 + 32 == l as u32
}

/// Whether `s` spells the lower-case ASCII word `w`, ignoring case.
pub open spec fn matches_ignoring_case(s: Seq<char>, w: Seq<char>) -> bool {
    s.len() == w.len() && forall|i: int| 0 <= i < s.len() ==> same_letter(#[trigger] s[i], w[i])
}

/// Whether `p` has the extension `w` (a lower-case ASCII word), in any case.
pub open spec fn has_extension(p: Seq<char>, w: Seq<char>) -> bool {
    match extension(p) {
        Some(e) => matches_ignoring_case(e, w),
        None => false,
    }
}

/// Whether `p` names a native executable, which the loader starts directly:
/// its extension is `com` or `exe`, in any case.
pub open spec fn executable_path(p: Seq<char>) -> bool {
    has_extension(p, seq!['c', 'o', 'm']) || has_extension(p, seq!['e', 'x', 'e'])
}

/// The directory in which package managers put their command shims.
pub open spec fn shim_dir() -> Seq<char> {
    seq!['n', 'o', 'd', 'e', '_', 'm', 'o', 'd', 'u', 'l', 'e', 's', '/', '.', 'b', 'i', 'n', '/']
}

/// `t` with every backslash turned into a forward slash.
pub open spec fn to_slashes(t: Seq<char>) -> Seq<char> {
    t.map_values(|c: char| if c == '\\' { '/' } else { c })
}

/// Whether `p` is a command shim: a file with extension `cmd` (in any case)
/// that stands right inside `node_modules/.bin/`, with either separator.
pub open spec fn cmd_shim_path(p: Seq<char>) -> bool {
    let dir = to_slashes(p.subrange(0, p.len() - file_name(p).len()));
    &&& has_extension(p, seq!['c', 'm', 'd'])
    &&& dir.len() >= shim_dir().len()
    &&& dir.subrange(dir.len() - shim_dir().len(), dir.len() as int) == shim_dir()
}

/// Where the last component of `p` starts.
fn name_start(p: &Vec<char>) -> (r: usize)
    ensures
        r <= p.len(),
        file_name(p@) == p@.subrange(r as int, p.len() as int),
{
    let mut start: usize = 0;
    for i in 0..p.len()
        invariant
            start <= i,
            file_name(p@.subrange(0, i as int)) == p@.subrange(start as int, i as int),
    {
        let ghost pre = p@.subrange(0, i as int);
        assert(p@.subrange(0, i + 1).drop_last() =~= pre);
        if p[i] == '/' || p[i] == '\\' {
            start = i + 1;
            assert(p@.subrange(start as int, i + 1) =~= Seq::<char>::empty());
        } else {
            assert(p@.subrange(start as int, i + 1) =~= p@.subrange(start as int, i as int).push(p@[i as int]));
        }
    }
    assert(p@.subrange(0, p.len() as int) =~= p@);
    start
}

/// The extension of the last component of `p`, if it has one.
fn extension_of(p: &Vec<char>) -> (r: Option<Vec<char>>)
    ensures
        match extension(p@) {
            Some(e) => r is Some && r->0@ == e,
            None => r is None,
        },
{
    let mut in_name = false;
    let mut has_ext = false;
    let mut ext: Vec<char> = Vec::new();
    for i in 0..p.len()
        invariant
            in_name == (file_name(p@.subrange(0, i as int)).len() > 0),
            name_extension(file_name(p@.subrange(0, i as int)))
                == (if has_ext { Some(ext@) } else { None::<Seq<char>> }),
    {
        let ghost pre = p@.subrange(0, i as int);
        let ghost name = file_name(pre);
        assert(p@.subrange(0, i + 1).drop_last() =~= pre);
        let c = p[i];
        if c == '/' || c == '\\' {
            in_name = false;
            has_ext = false;
            ext = Vec::new();
        } else {
            assert(name.push(c).drop_last() =~= name);
            if c == '.' {
                has_ext = in_name;
                ext = Vec::new();
            } else if has_ext {
                ext.push(c);
            }
            in_name = true;
        }
    }
    assert(p@.subrange(0, p.len() as int) =~= p@);
    if has_ext {
        Some(ext)
    } else {
        None
    }
}

/// Whether `s` spells the lower-case ASCII word `w`, ignoring case.
fn spells_ignoring_case(s: &Vec<char>, w: &Vec<char>) -> (r: bool)
    requires
        forall|i: int| 0 <= i < w.len() ==> 'a' <= #[trigger] w@[i] <= 'z',
    ensures
        r == matches_ignoring_case(s@, w@),
{
    if s.len() != w.len() {
        return false;
    }
    for i in 0..s.len()
        invariant
            s.len() == w.len(),
            forall|i: int| 0 <= i < w.len() ==> 'a' <= #[trigger] w@[i] <= 'z',
            forall|j: int| 0 <= j < i ==> same_letter(#[trigger] s@[j], w@[j]),
    {
        let c = s[i];
        let l = w[i];
        if !(c == l || c as u32 == l as u32 - 32) {
            return false;
        }
    }
    true
}

/// Whether `p` has the extension `w` (a lower-case ASCII word), in any case.
fn has_extension_of(p: &Vec<char>, w: &Vec<char>) -> (r: bool)
    requires
        forall|i: int| 0 <= i < w.len() ==> 'a' <= #[trigger] w@[i] <= 'z',
    ensures
        r == has_extension(p@, w@),
{
    match extension_of(p) {
        Some(e) => spells_ignoring_case(&e, w),
        None => false,
    }
}

/// Whether the path names a native executable: its extension is `com` or
/// `exe`, in any case.
pub fn is_executable(command_file: &str) -> (r: bool)
    ensures
        r == executable_path(command_file@),
{
    let p = chars_of(command_file);
    let com = vec!['c', 'o', 'm'];
    let exe = vec!['e', 'x', 'e'];
    assert(com@ == seq!['c', 'o', 'm']);
    assert(exe@ == seq!['e', 'x', 'e']);
    has_extension_of(&p, &com) || has_extension_of(&p, &exe)
}

/// Whether the path is a package manager's command shim: a `.cmd` file right
/// inside `node_modules/.bin/`, with either separator.
pub fn is_cmd_shim(command_file: &str) -> (r: bool)
    ensures
        r == cmd_shim_path(command_file@),
{
    let p = chars_of(command_file);
    let cmd = vec!['c', 'm', 'd'];
    assert(cmd@ == seq!['c', 'm', 'd']);
    if !has_extension_of(&p, &cmd) {
        return false;
    }
    let start = name_start(&p);
    let dir = vec!['n', 'o', 'd', 'e', '_', 'm', 'o', 'd', 'u', 'l', 'e', 's', '/', '.', 'b', 'i', 'n', '/'];
    assert(dir@ == shim_dir());
    let ghost parent = to_slashes(p@.subrange(0, start as int));
    assert(p@.len() - file_name(p@).len() == start);
    assert(parent.len() == start);
    if start < dir.len() {
        return false;
    }
    let base = start - dir.len();
    for k in 0..dir.len()
        invariant
            base + dir.len() == start,
            start <= p.len(),
            parent == to_slashes(p@.subrange(0, start as int)),
            p@ == command_file@,
            dir@ == shim_dir(),
            has_extension(p@, seq!['c', 'm', 'd']),
            p@.len() - file_name(p@).len() == start,
            forall|j: int| 0 <= j < k ==> parent[base + j] == #[trigger] dir@[j],
    {
        let c = p[base + k];
        let c = if c == '\\' { '/' } else { c };
        if c != dir[k] {
            assert(parent[base + k] == c);
            assert(parent.subrange(base as int, start as int)[k as int] == c);
            return false;
        }
    }
    assert(parent.subrange(base as int, start as int) =~= shim_dir());
    true
}

} // verus!
