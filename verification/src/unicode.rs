//! The Unicode and path facts std computes: alphanumeric classification,
//! lowercase mapping, and the parent and joining of paths. Each result is
//! named here and obtained from std through one small trusted call.

use vstd::prelude::*;

verus! {

/// Whether `c` is alphabetic or numeric per the Unicode Character Database
/// (what `char::is_alphanumeric` returns).
pub uninterp spec fn alnum(c: char) -> bool;

/// The lowercase mapping of `c` per the Unicode Character Database (what
/// `char::to_lowercase` yields, one or more characters).
pub uninterp spec fn lower_char(c: char) -> Seq<char>;

/// The lowercase form of a whole string (what `str::to_lowercase` returns;
/// it may depend on context, e.g. a word-final sigma).
pub uninterp spec fn lower_str(s: Seq<char>) -> Seq<char>;

/// The path `rel` joined onto `base` (what `Path::join` yields, as a string,
/// under the path syntax of the platform the crate is built for).
pub uninterp spec fn joined_path(base: Seq<char>, rel: Seq<char>) -> Seq<char>;

/// The parent of a path written as `p` (what `Path::parent` returns, as a
/// string, under the path syntax of the platform the crate is built for),
/// `None` for a root or an empty path.
pub uninterp spec fn parent_path(p: Seq<char>) -> Option<Seq<char>>;

/// Calls `char::is_alphanumeric`; the result is `alnum(c)`.
#[verifier::external_body]
pub fn is_alphanumeric(c: char) -> (r: bool)
    ensures
        r == alnum(c),
{
    c.is_alphanumeric()
}

/// Calls `char::to_lowercase` and collects the characters it yields; they are
/// `lower_char(c)`.
#[verifier::external_body]
pub fn to_lowercase_char(c: char) -> (r: Vec<char>)
    ensures
        r@ == lower_char(c),
{
    c.to_lowercase().collect()
}

/// Calls `str::to_lowercase`; the result is `lower_str(s)`.
#[verifier::external_body]
pub fn to_lowercase_str(s: &str) -> (r: String)
    ensures
        r@ == lower_str(s@),
{
    s.to_lowercase()
}

/// Calls `Path::parent` on the path `p` and returns the parent as a string;
/// the result is `parent_path(p)`. A parent of a `&str` path is itself valid
/// UTF-8, so the conversion back to a string loses nothing.
#[verifier::external_body]
pub fn path_parent(p: &str) -> (r: Option<String>)
    ensures
        crate::allowlist::opt_string(r) == parent_path(p@),
{
    std::path::Path::new(p).parent().map(|q| q.to_string_lossy().into_owned())
}

/// Calls `Path::join` on `base` and `rel` and returns the joined path as a
/// string; the result is `joined_path(base, rel)`. Both inputs are valid
/// UTF-8, so the conversion back to a string loses nothing.
#[verifier::external_body]
pub fn path_join(base: &str, rel: &str) -> (r: String)
    ensures
        r@ == joined_path(base@, rel@),
{
    std::path::Path::new(base).join(rel).to_string_lossy().into_owned()
}

} // verus!
