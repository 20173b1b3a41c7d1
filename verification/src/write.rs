//! What is written where: the decisions of a staged write. The write itself
//! is the caller's.

use vstd::prelude::*;
use crate::model::PermissionsMode;

verus! {

/// How a file is written.
#[derive(Debug, Clone, Copy, PartialEq, Eq)]
pub struct WriteOptions {
    /// Write to the place of a symbolic link, not to what it points to.
    pub no_follow_symlinks: bool,
    pub permissions: PermissionsMode,
}

impl Default for WriteOptions {
    fn default() -> (r: Self)
        ensures
            r == (WriteOptions { no_follow_symlinks: false, permissions: PermissionsMode::Preserve }),
    {
        WriteOptions { no_follow_symlinks: false, permissions: PermissionsMode::Preserve }
    }
}

/// The path that is written for `path`: what a symbolic link points to
/// where links are followed, else the path itself. The temporary file is
/// created beside that path, so that the rename stays in one directory.
pub fn resolve_symlink<'a>(
    path: &'a str,
    is_symlink: bool,
    link_target: &'a str,
    options: &WriteOptions,
) -> (target: &'a str)
    ensures
        target@ == if is_symlink && !options.no_follow_symlinks {
            link_target@
        } else {
            path@
        },
{
    if is_symlink && !options.no_follow_symlinks {
        link_target
    } else {
        path
    }
}

/// The mode that the temporary file gets before it is renamed: the fixed
/// one, or that of the target where it exists and permissions are
/// preserved; none where the mode is left as the file was created.
pub fn file_mode(permissions: PermissionsMode, existing: Option<u32>) -> (mode: Option<u32>)
    ensures
        mode == match permissions {
            PermissionsMode::Preserve => existing,
            PermissionsMode::Fixed(fixed) => Some(fixed),
        },
{
    match permissions {
        PermissionsMode::Preserve => existing,
        PermissionsMode::Fixed(fixed) => Some(fixed),
    }
}

} // verus!
