//! The caption store's write validation.  A write joins the root and the
//! relative path, rejects anything that escapes the root with `InvalidPath`,
//! and hands the I/O layer the exact file path to create and overwrite.
//! Batches of writes are applied in order and fail fast: the first failing
//! entry aborts the rest, and earlier writes are not rolled back.

use vstd::prelude::*;
use vstd::string::StrSliceExecFns;
use crate::errors::ErrorKind;
use crate::path_model::{joined, rel_allowed, parent_path};
use crate::path_guard::{is_contained, join_path, parent_of};
use crate::serve::serve_model;

verus! {

/// The model of the write validation: the joined path when the relative path
/// is acceptable, `InvalidPath` otherwise.
pub open spec fn caption_target_model(root: Seq<char>, rel: Seq<char>) -> Result<
    Seq<char>,
    ErrorKind,
> {
    if rel_allowed(root, rel) {
        Ok(joined(root, rel))
    } else {
        Err(ErrorKind::InvalidPath)
    }
}

/// Validate one caption write: the absolute path to overwrite, or
/// `InvalidPath` when the relative path poses as absolute or escapes the
/// root.  Nothing is written here; a rejected entry therefore leaves the
/// filesystem unchanged.
pub fn caption_write_target(root: &str, rel: &str) -> (r: Result<String, ErrorKind>)
    ensures
        r matches Ok(p) ==> caption_target_model(root@, rel@) == Ok::<Seq<char>, ErrorKind>(p@),
        r matches Err(e) ==> caption_target_model(root@, rel@) == Err::<Seq<char>, ErrorKind>(e),
{
    if rel.unicode_len() > 0 {
        let c0 = rel.get_char(0);
        if c0 == '/' || c0 == '\\' {
            return Err(ErrorKind::InvalidPath);
        }
    }
    let candidate = join_path(root, rel);
    if is_contained(root, candidate.as_str()) {
        Ok(candidate)
    } else {
        Err(ErrorKind::InvalidPath)
    }
}

/// The directory that must exist before the target file can be created: the
/// prefix of the target before its last separator.
pub fn caption_parent_dir(target: &str) -> (r: Option<String>)
    ensures
        r is None ==> parent_path(target@) is None,
        r matches Some(q) ==> parent_path(target@) == Some(q@),
{
    parent_of(target)
}

/// A path accepted for writing is served back from the same file, and a path
/// rejected for writing is never served: writing a caption and then requesting
/// the same relative path reads the file that was just written.
pub proof fn lemma_write_then_serve_same_file(root: Seq<char>, rel: Seq<char>)
    ensures
        caption_target_model(root, rel) is Ok <==> serve_model(root, rel) is Ok,
        caption_target_model(root, rel) is Ok ==> caption_target_model(root, rel)->Ok_0
            == serve_model(root, rel)->Ok_0,
{
}

} // verus!
