//! Where the files of a table live in the store.
//!
//! The files of a table are the children of one base path, each named by the
//! decimal text of its index.

use vstd::prelude::*;
use crate::decimal::{decimal, to_decimal};

verus! {

/// `object_store::path::Path`, the name of an object in a store, as an
/// opaque type.
#[verifier::external_type_specification]
#[verifier::external_body]
pub struct ExPath(object_store::path::Path);

/// The text of a path: its parts, joined by `/`, with no `/` at either end.
pub uninterp spec fn path_text(path: object_store::path::Path) -> Seq<char>;

/// The text that a name has as one part of a path, which is what
/// `object_store::path::PathPart::from` makes of it: the name with the
/// characters percent-encoded that may not stand in a part.
pub uninterp spec fn encoded_part(name: Seq<char>) -> Seq<char>;

/// The text of the child `part` of the path with text `base`: the part
/// alone under the empty path, else the base, a `/` and the part.
pub open spec fn child_text(base: Seq<char>, part: Seq<char>) -> Seq<char> {
    if base.len() == 0 {
        part
    } else {
        base + seq!['/'] + part
    }
}

/// `object_store::path::Path::child`: the path one part below `base`. The
/// part is the encoded text of `name`; it is appended to the text of `base`
/// after a `/`, or stands alone where `base` is empty.
#[verifier::external_body]
fn child_path(base: &object_store::path::Path, name: &str) -> (child: object_store::path::Path)
    ensures
        path_text(child) == child_text(path_text(*base), encoded_part(name@)),
{
    base.child(name)
}

/// The path of the file with index `file_id` of the table under `base`: the
/// child of `base` that is named by the decimal text of the index.
pub fn file_path(base: &object_store::path::Path, file_id: u64) -> (path:
    object_store::path::Path)
    ensures
        path_text(path) == child_text(
            path_text(*base),
            encoded_part(decimal(file_id as nat)),
        ),
{
    let name = to_decimal(file_id);
    child_path(base, name.as_str())
}

} // verus!
