//! Files that must not change while they are read.

use vstd::prelude::*;
use vstd::slice::slice_subrange;

use crate::bytes::same_bytes;
use crate::digest;
use crate::digest::sha256;
use crate::error::{invalid_data, RuntimeDataError};

verus! {

/// What a file system says of a file.
#[derive(Clone, Copy, Debug)]
pub struct FileStamp {
    pub len: u64,
    /// When the file was modified, in seconds and nanoseconds, where that is known.
    pub modified: Option<(i64, u32)>,
}

/// Whether a file changed, as far as its length and the time of its modification tell.
pub open spec fn differs(before: FileStamp, after: FileStamp) -> bool {
    before.len != after.len || (before.modified is Some && after.modified is Some
        && before.modified != after.modified)
}

/// Whether a file changed, as far as its length and the time of its modification tell.
pub fn has_changed(before: FileStamp, after: FileStamp) -> (changed: bool)
    ensures
        changed == differs(before, after),
        changed == (before.len != after.len || (before.modified is Some && after.modified is Some
            && before.modified->0 != after.modified->0)),
{
    if before.len != after.len {
        return true;
    }
    match (before.modified, after.modified) {
        (Some((seconds, nanos)), Some((later_seconds, later_nanos))) => seconds != later_seconds
            || nanos != later_nanos,
        _ => false,
    }
}

/// Whether the two have the same digest.
fn same_digest(left: &[u8], right: &[u8]) -> (same: bool)
    ensures
        same == (digest::sha256_digest(left@)@ == digest::sha256_digest(right@)@),
{
    same_bytes(&sha256(left), &sha256(right))
}

/// Why a runtime template is refused for what its path names.
pub open spec fn template_path_error(is_symlink: bool, is_file: bool) -> Option<
    RuntimeDataError,
> {
    if is_symlink {
        Some(invalid_data("runtime template path is a symbolic link"))
    } else if !is_file {
        Some(invalid_data("runtime template is not a regular file"))
    } else {
        None
    }
}

/// Refuses a runtime template that is no regular file.
pub fn check_template_path(is_symlink: bool, is_file: bool) -> (result: Result<
    (),
    RuntimeDataError,
>)
    ensures
        result == (match template_path_error(is_symlink, is_file) {
            Some(error) => Err(error),
            None => Ok(()),
        }),
        result == (if is_symlink {
            Err(RuntimeDataError::InvalidData("runtime template path is a symbolic link"))
        } else if !is_file {
            Err(RuntimeDataError::InvalidData("runtime template is not a regular file"))
        } else {
            Ok(())
        }),
{
    if is_symlink {
        return Err(invalid_data("runtime template path is a symbolic link"));
    }
    if !is_file {
        return Err(invalid_data("runtime template is not a regular file"));
    }
    Ok(())
}

/// Refuses a bundle that is no regular file.
pub fn check_bundle_path(is_file: bool) -> (result: Result<(), RuntimeDataError>)
    ensures
        result == (if is_file {
            Ok(())
        } else {
            Err(invalid_data("runtime data bundle is not a regular file"))
        }),
{
    if !is_file {
        return Err(invalid_data("runtime data bundle is not a regular file"));
    }
    Ok(())
}

/// Whether the two have the same digest in their first `len` bytes.
pub open spec fn have_same_start(left: Seq<u8>, right: Seq<u8>, len: u64) -> bool {
    digest::sha256_digest(left.take(len as int))@ == digest::sha256_digest(right.take(len as int))@
}

/// Why a runtime template is refused of which `copied` was read and then `reread`. What lies
/// behind the length that the file system gave before plays no part.
pub open spec fn template_change_error(
    before: FileStamp,
    after: FileStamp,
    copied: Seq<u8>,
    reread: Seq<u8>,
) -> Option<RuntimeDataError> {
    if differs(before, after) {
        Some(invalid_data("runtime template changed while being read"))
    } else if copied.len() < before.len || reread.len() < before.len {
        Some(invalid_data("file range ended before its declared length"))
    } else if !have_same_start(copied, reread, before.len) {
        Some(invalid_data("runtime template changed while being read"))
    } else {
        None
    }
}

/// Refuses a runtime template that changed while it was copied, by what the file system says of
/// it before and after, and by its contents when they were copied and when they were read again.
pub fn check_template_unchanged(
    before: FileStamp,
    after: FileStamp,
    copied: &[u8],
    reread: &[u8],
) -> (result: Result<(), RuntimeDataError>)
    ensures
        result == (match template_change_error(before, after, copied@, reread@) {
            Some(error) => Err(error),
            None => Ok(()),
        }),
        result is Ok <==> {
            &&& before.len == after.len
            &&& before.modified is None || after.modified is None || before.modified->0
                == after.modified->0
            &&& before.len <= copied@.len()
            &&& before.len <= reread@.len()
            &&& digest::sha256_digest(copied@.take(before.len as int))@ == digest::sha256_digest(
                reread@.take(before.len as int),
            )@
        },
        result matches Err(error) ==> error == (if before.len == after.len && (
        before.modified is None || after.modified is None || before.modified->0
            == after.modified->0) && (copied@.len() < before.len || reread@.len() < before.len) {
            RuntimeDataError::InvalidData("file range ended before its declared length")
        } else {
            RuntimeDataError::InvalidData("runtime template changed while being read")
        }),
{
    if has_changed(before, after) {
        return Err(invalid_data("runtime template changed while being read"));
    }
    if (copied.len() as u64) < before.len || (reread.len() as u64) < before.len {
        return Err(invalid_data("file range ended before its declared length"));
    }
    if !same_digest(start_of(copied, before.len), start_of(reread, before.len)) {
        return Err(invalid_data("runtime template changed while being read"));
    }
    Ok(())
}

/// The first `len` bytes of `data`.
fn start_of(data: &[u8], len: u64) -> (start: &[u8])
    requires
        len <= data.len(),
    ensures
        start@ == data@.take(len as int),
{
    let start: &[u8] = slice_subrange(data, 0, len as usize);
    assert(start@ =~= data@.take(len as int));
    start
}

/// Refuses a bundle that changed while it was read, by what the file system says of it before
/// and after, and by its contents when they were read and when as many bytes as the file system
/// gave before were read again.
pub fn check_bundle_unchanged(
    before: FileStamp,
    after: FileStamp,
    contents: &[u8],
    reread: &[u8],
) -> (result: Result<(), RuntimeDataError>)
    ensures
        result == (if differs(before, after) || reread@.len() < before.len
            || digest::sha256_digest(contents@)@ != digest::sha256_digest(
            reread@.take(before.len as int),
        )@ {
            Err(invalid_data("runtime data bundle changed while being read"))
        } else {
            Ok(())
        }),
        result is Ok <==> {
            &&& before.len == after.len
            &&& before.modified is None || after.modified is None || before.modified->0
                == after.modified->0
            &&& before.len <= reread@.len()
            &&& digest::sha256_digest(contents@)@ == digest::sha256_digest(
                reread@.take(before.len as int),
            )@
        },
{
    if has_changed(before, after) || (reread.len() as u64) < before.len || !same_digest(
        contents,
        start_of(reread, before.len),
    ) {
        return Err(invalid_data("runtime data bundle changed while being read"));
    }
    Ok(())
}

} // verus!
