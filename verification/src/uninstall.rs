use vstd::prelude::*;

use crate::errors::InstallError;
use crate::paths::{ensure_safe_path, is_within, joined, path_display, paths_equal, SafePath};
use crate::plan::{ActionModel, FsAction};

verus! {

/// Whether removing `path` is allowed: the caller reports with `exists`
/// whether the path is present on disk, and the checks run in order —
/// a missing path is rejected, the mods root itself is never deleted, and
/// anything outside the mods root is rejected.
pub fn validate_uninstall_path(path: &SafePath, mods_root: &SafePath, exists: bool) -> (r: Result<
    (),
    InstallError,
>)
    ensures
        r is Ok <==> (exists && path@ != mods_root@ && is_within(mods_root@, path@)),
        !exists ==> (r matches Err(e) && e matches InstallError::PathTraversal { path: q } && q@
            == joined(path@)),
        exists && path@ == mods_root@ ==> (r matches Err(e) && e
            matches InstallError::InvalidState { .. }),
        exists && path@ != mods_root@ && !is_within(mods_root@, path@) ==> (r matches Err(e) && e
            matches InstallError::PathTraversal { path: q } && q@ == joined(path@)),
{
    if !exists {
        return Err(InstallError::PathTraversal { path: path_display(path) });
    }
    if paths_equal(path, mods_root) {
        return Err(
            InstallError::InvalidState {
                detail: String::from_str("refusing to delete the mods root"),
            },
        );
    }
    match ensure_safe_path(mods_root, path) {
        Err(e) => Err(e),
        Ok(()) => Ok(()),
    }
}

/// The removal of an installed mod: validated exactly as
/// `validate_uninstall_path` says, and on success the single action that
/// removes the directory tree at `path`.
pub fn uninstall_mod(path: &SafePath, mods_root: &SafePath, exists: bool) -> (r: Result<
    FsAction,
    InstallError,
>)
    ensures
        r is Ok <==> (exists && path@ != mods_root@ && is_within(mods_root@, path@)),
        r matches Ok(a) ==> a@ == (ActionModel::RemoveDirAll { path: path@ }),
        !exists ==> (r matches Err(e) && e matches InstallError::PathTraversal { path: q } && q@
            == joined(path@)),
        exists && path@ == mods_root@ ==> (r matches Err(e) && e
            matches InstallError::InvalidState { .. }),
        exists && path@ != mods_root@ && !is_within(mods_root@, path@) ==> (r matches Err(e) && e
            matches InstallError::PathTraversal { path: q } && q@ == joined(path@)),
{
    match validate_uninstall_path(path, mods_root, exists) {
        Err(e) => Err(e),
        Ok(()) => Ok(FsAction::RemoveDirAll { path: path.clone_path() }),
    }
}

} // verus!
