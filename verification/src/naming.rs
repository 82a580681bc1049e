//! Naming of output image files: each finished image is written under
//! the image folder as `<unique-id>.png`, where the identifier is a
//! fresh time-ordered unique identifier from an outside generator.

use vstd::prelude::*;
use vstd::string::StringExecFns;

verus! {

/// True of the characters a hyphenated identifier may hold: lowercase
/// hexadecimal digits and hyphens.
pub open spec fn is_id_char(c: char) -> bool {
    c == '-' || ('0' <= c && c <= '9') || ('a' <= c && c <= 'f')
}

/// An identifier in the hyphenated form: 36 characters, each a
/// lowercase hexadecimal digit or a hyphen.
pub open spec fn is_hyphenated_id(id: Seq<char>) -> bool {
    id.len() == 36 && (forall|i: int| 0 <= i < id.len() ==> is_id_char(#[trigger] id[i]))
}

/// The path of an output image named by `id`: the image folder, the
/// identifier, and the `.png` extension.
pub open spec fn image_path(id: Seq<char>) -> Seq<char> {
    "./images/"@ + id + ".png"@
}

/// Relies on `uuid::Uuid::now_v7` and its `Display` impl: a fresh
/// version-7 UUID rendered hyphenated, 36 characters of lowercase
/// hexadecimal digits and hyphens. Which identifier comes back depends
/// on the clock and on random state, so no more is promised of it.
#[verifier::external_body]
fn fresh_id() -> (id: String)
    ensures
        is_hyphenated_id(id@),
{
    uuid::Uuid::now_v7().to_string()
}

/// Builds the path `./images/<id>.png` for a caller-supplied
/// identifier.
pub fn path_for_id(id: &str) -> (path: String)
    ensures
        path@ == image_path(id@),
{
    let mut path = String::from_str("./images/");
    path.append(id);
    path.append(".png");
    path
}

/// A path for a freshly generated image: `./images/<id>.png`, where
/// `<id>` is a new time-ordered unique identifier.
pub fn fresh_image_path() -> (path: String)
    ensures
        exists|id: Seq<char>| is_hyphenated_id(id) && path@ == image_path(id),
        path@.len() == 49,
{
    let id = fresh_id();
    let path = path_for_id(id.as_str());
    proof {
        reveal_strlit("./images/");
        reveal_strlit(".png");
        assert(is_hyphenated_id(id@) && path@ == image_path(id@));
    }
    path
}

} // verus!
