use vstd::prelude::*;

use crate::text::{contains_seq, str_contains};
use crate::MainError;

verus! {

/// A directory path may be removed only when its string form names the
/// dependency cache or the audit output area.
pub open spec fn dir_marker_present(p: Seq<char>) -> bool {
    contains_seq(p, "node_modules"@) || contains_seq(p, ".audit"@)
}

/// A file path may be removed only when its string form names the lock file.
pub open spec fn file_marker_present(p: Seq<char>) -> bool {
    contains_seq(p, "package-lock"@)
}

/// Guard for recursive directory removal. `is_dir` reports whether the path
/// currently exists as a directory; the caller performs the actual removal
/// only when `Ok(true)` comes back.
///
/// Rejects every path whose string form contains neither allowed marker, and
/// decides without touching the filesystem. `Ok(false)` is the no-op success
/// for an allow-listed path that does not exist as a directory.
pub fn remove_dir_tree_check(path: &str, is_dir: bool) -> (r: Result<bool, MainError>)
    ensures
        r is Ok <==> dir_marker_present(path@),
        dir_marker_present(path@) ==> r == Ok::<bool, MainError>(is_dir),
        !dir_marker_present(path@) ==> (r matches Err(MainError::PathNotSafeToDelete(p))
            && p@ == path@),
{
    if str_contains(path, "node_modules") || str_contains(path, ".audit") {
        Ok(is_dir)
    } else {
        Err(MainError::PathNotSafeToDelete(path.to_owned()))
    }
}

/// Guard for single-file removal. `is_file` reports whether the path currently
/// exists as a file; the caller deletes only when `Ok(true)` comes back.
///
/// Rejects every path whose string form lacks the lock-file marker, and
/// decides without touching the filesystem.
pub fn remove_file_check(path: &str, is_file: bool) -> (r: Result<bool, MainError>)
    ensures
        r is Ok <==> file_marker_present(path@),
        file_marker_present(path@) ==> r == Ok::<bool, MainError>(is_file),
        !file_marker_present(path@) ==> (r matches Err(MainError::PathNotSafeToDelete(p))
            && p@ == path@),
{
    if str_contains(path, "package-lock") {
        Ok(is_file)
    } else {
        Err(MainError::PathNotSafeToDelete(path.to_owned()))
    }
}

} // verus!
