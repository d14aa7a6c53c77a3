//! The calls that leave the verified code: random identifiers (uuid), the
//! clock (chrono and std) and path decomposition (std).
//! Each item here is trusted: Verus believes its contract without proof.

use vstd::prelude::*;

verus! {

/// `std::time::Instant` is carried through transfer sessions as an opaque
/// value; the verified code never looks inside it.
#[verifier::external_type_specification]
#[verifier::external_body]
pub struct ExInstant(std::time::Instant);

/// A lowercase hexadecimal digit.
pub open spec fn is_lower_hex_digit(c: char) -> bool {
    ('0' <= c && c <= '9') || ('a' <= c && c <= 'f')
}

/// Calls `uuid::Uuid::new_v4()` and renders it with `Uuid::simple()`, which
/// the uuid crate formats as the 32 lowercase hexadecimal digits of the value
/// without hyphens. The value itself is random: only its shape is stated.
#[verifier::external_body]
pub(crate) fn random_token() -> (token: String)
    ensures
        token@.len() == 32,
        forall|i: int| 0 <= i < 32 ==> #[trigger] is_lower_hex_digit(token@[i]),
{
    uuid::Uuid::new_v4().simple().to_string()
}

/// Calls `chrono::Utc::now().timestamp()`: the current time in whole seconds
/// since the Unix epoch. It depends on the clock, so nothing is stated of it.
#[verifier::external_body]
pub(crate) fn unix_time_now() -> (seconds: i64) {
    chrono::Utc::now().timestamp()
}

/// Calls `std::time::Instant::now()`. It depends on the clock, so nothing is
/// stated of it.
#[verifier::external_body]
pub(crate) fn instant_now() -> (now: std::time::Instant) {
    std::time::Instant::now()
}

/// What `std::path::Path::parent` gives for a path written as the given
/// characters, the parent taken back as characters (`None` where the path
/// ends in a root or is empty).
pub uninterp spec fn path_parent(path: Seq<char>) -> Option<Seq<char>>;

/// What `std::path::Path::file_name` gives for a path written as the given
/// characters, taken back as characters (`None` where the path ends in `..`
/// or has no final component).
pub uninterp spec fn path_file_name(path: Seq<char>) -> Option<Seq<char>>;

/// Calls `std::path::Path::parent` on the path and converts the parent back
/// to a `String` (lossless: it came from a `str`). The result is named by
/// `path_parent`; nothing more of it is claimed.
#[verifier::external_body]
pub(crate) fn parent_of(path: &str) -> (parent: Option<String>)
    ensures
        match parent {
            Some(p) => path_parent(path@) == Some(p@),
            None => path_parent(path@) == None::<Seq<char>>,
        },
{
    match std::path::Path::new(path).parent() {
        Some(p) => Some(p.to_string_lossy().into_owned()),
        None => None,
    }
}

/// Calls `std::path::Path::file_name` on the path and converts the name back
/// to a `String` (lossless: it came from a `str`). The result is named by
/// `path_file_name`; nothing more of it is claimed.
#[verifier::external_body]
pub(crate) fn file_name_of(path: &str) -> (name: Option<String>)
    ensures
        match name {
            Some(n) => path_file_name(path@) == Some(n@),
            None => path_file_name(path@) == None::<Seq<char>>,
        },
{
    match std::path::Path::new(path).file_name() {
        Some(n) => Some(n.to_string_lossy().into_owned()),
        None => None,
    }
}

} // verus!
