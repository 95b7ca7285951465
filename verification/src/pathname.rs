use vstd::prelude::*;
use crate::editors::last_index_of;
use crate::filetree::components;

verus! {

/// A path that reads the same on every platform: no `\` (a separator on
/// Windows), no `:` (a drive prefix on Windows), no leading `//` (a network
/// prefix on Windows), and no `.` or `..` component. Its components are
/// then its non-empty `/`-separated pieces everywhere.
pub open spec fn plain_path(p: Seq<char>) -> bool {
    &&& !p.contains('\\')
    &&& !p.contains(':')
    &&& !(p.len() >= 2 && p[0] == '/' && p[1] == '/')
    &&& forall|i: int| 0 <= i < components(p).len() ==> #[trigger] components(p)[i] != "."@ && components(p)[i] != ".."@
}

/// The file name of a plain path: its last component, if it has one.
pub open spec fn file_name_of(p: Seq<char>) -> Option<Seq<char>> {
    let c = components(p);
    if c.len() == 0 {
        None
    } else {
        Some(c.last())
    }
}

/// The extension of a plain path, as `Path::extension` documents it: the
/// part of the file name after its last `.`, unless the name has no `.` or
/// its only `.` is its first character.
pub open spec fn extension_of(p: Seq<char>) -> Option<Seq<char>> {
    match file_name_of(p) {
        None => None,
        Some(n) => match last_index_of(n, '.') {
            Some(d) => if d > 0 {
                Some(n.subrange(d as int + 1, n.len() as int))
            } else {
                None
            },
            None => None,
        },
    }
}

/// The file stem of a plain path, as `Path::file_stem` documents it: the
/// part of the file name before its last `.`, or the whole name when it has
/// no `.` or its only `.` is its first character.
pub open spec fn stem_of(p: Seq<char>) -> Option<Seq<char>> {
    match file_name_of(p) {
        None => None,
        Some(n) => match last_index_of(n, '.') {
            Some(d) => if d > 0 {
                Some(n.subrange(0, d as int))
            } else {
                Some(n)
            },
            None => Some(n),
        },
    }
}

} // verus!
