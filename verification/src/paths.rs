//! File paths as text, and the two `std::path` operations the library
//! uses on them.
use vstd::prelude::*;

verus! {

/// `s` ends with `t`.
pub open spec fn ends_with(s: Seq<char>, t: Seq<char>) -> bool {
    t.len() <= s.len() && s.subrange(s.len() - t.len(), s.len() as int) == t
}

/// `p` is `s` or a shorter start of it.
pub open spec fn is_leading_part(p: Seq<char>, s: Seq<char>) -> bool {
    p.len() <= s.len() && s.subrange(0, p.len() as int) == p
}

/// A bare file name: not empty, no separator or drive colon, not only dots.
pub open spec fn is_file_name(name: Seq<char>) -> bool {
    &&& name.len() > 0
    &&& forall|i: int| 0 <= i < name.len() ==> #[trigger] name[i] != '/' && name[i] != '\\' && name[i] != ':'
    &&& exists|i: int| 0 <= i < name.len() && #[trigger] name[i] != '.'
}

/// A Windows verbatim path (`\\?\...`), which `Path::join` normalizes.
pub open spec fn is_verbatim(dir: Seq<char>) -> bool {
    dir.len() >= 4 && dir.subrange(0, 4) == seq!['\\', '\\', '?', '\\']
}

/// `name` adjoined to `dir`: directly, or after one separator.
pub open spec fn adjoined(dir: Seq<char>, name: Seq<char>, r: Seq<char>) -> bool {
    ||| r == dir + name
    ||| r == dir + seq!['/'] + name
    ||| r == dir + seq!['\\'] + name
}

/// What `Path::join` makes of `dir` and `name`, as text (on the platform
/// the program is built for).
pub uninterp spec fn path_joined(dir: Seq<char>, name: Seq<char>) -> Seq<char>;

/// What `Path::parent` gives for a path, as text; `None` for an empty path
/// or one that ends in a root or prefix.
pub uninterp spec fn path_parent(path: Seq<char>) -> Option<Seq<char>>;

/// What `Path::file_name` gives for a path, as text; `None` when the path
/// ends in `..` or has no final component.
pub uninterp spec fn path_file_name(path: Seq<char>) -> Option<Seq<char>>;

/// `Path::new(dir).join(name)` as text; the result is named `path_joined`.
/// For a bare file name it ends with the name, and outside verbatim paths it
/// is `dir` with the name adjoined, after a separator where `dir` needs one.
#[verifier::external_body]
pub(crate) fn join_path(dir: &str, name: &str) -> (r: String)
    ensures
        r@ == path_joined(dir@, name@),
        is_file_name(name@) ==> ends_with(r@, name@),
        is_file_name(name@) && !is_verbatim(dir@) ==> adjoined(dir@, name@, r@),
{
    std::path::Path::new(dir).join(name).to_string_lossy().into_owned()
}

/// `Path::new(path).parent()` as text; the result is named `path_parent`.
/// It is `None` for an empty path, and otherwise a strictly shorter start of
/// the path.
#[verifier::external_body]
pub(crate) fn parent_of(path: &str) -> (r: Option<String>)
    ensures
        match r {
            Some(q) => path_parent(path@) == Some(q@),
            None => path_parent(path@) is None,
        },
        path@.len() == 0 ==> r is None,
        r matches Some(q) ==> q@.len() < path@.len() && is_leading_part(q@, path@),
{
    match std::path::Path::new(path).parent() {
        Some(p) => Some(p.to_string_lossy().into_owned()),
        None => None,
    }
}

/// `Path::new(path).file_name()`, taken as text (`OsStr::to_str`); the
/// result is named `path_file_name`.
#[verifier::external_body]
pub(crate) fn file_name_of(path: &str) -> (r: Option<String>)
    ensures
        match r {
            Some(n) => path_file_name(path@) == Some(n@),
            None => path_file_name(path@) is None,
        },
{
    match std::path::Path::new(path).file_name() {
        Some(n) => match n.to_str() {
            Some(t) => Some(t.to_string()),
            None => None,
        },
        None => None,
    }
}

} // verus!
