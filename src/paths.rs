//! UTF-8 paths, through camino.
use vstd::prelude::*;

verus! {

/// The path that camino's `Utf8Path::join` forms from a base and a path
/// adjoined to it.
pub uninterp spec fn joined_path(base: Seq<char>, rel: Seq<char>) -> Seq<char>;

/// The parent that camino's `Utf8Path::parent` gives for a path, if any.
pub uninterp spec fn parent_path(p: Seq<char>) -> Option<Seq<char>>;

/// Relies on `camino::Utf8Path::join`, whose result depends on the two paths alone.
#[verifier::external_body]
pub(crate) fn join_path(base: &str, rel: &str) -> (r: String)
    ensures
        r@ == joined_path(base@, rel@),
{
    camino::Utf8Path::new(base).join(rel).into_string()
}

/// Relies on `camino::Utf8Path::parent`: the path without its final component,
/// `None` for a path that ends in a root or prefix (or is empty).
#[verifier::external_body]
pub(crate) fn path_parent(p: &str) -> (r: Option<String>)
    ensures
        match r {
            Some(q) => parent_path(p@) == Some(q@),
            None => parent_path(p@) is None,
        },
{
    match camino::Utf8Path::new(p).parent() {
        Some(q) => Some(q.as_str().to_string()),
        None => None,
    }
}

} // verus!
