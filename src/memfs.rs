use vstd::prelude::*;
use crate::error::MembraneError;
use crate::global::{active_workspace_root, has_entry, index_consistent, is_first_entry, GlobalIndex};

verus! {

/// What `Path::join` makes of a path and a relative component.
pub uninterp spec fn path_join(base: Seq<char>, part: Seq<char>) -> Seq<char>;

/// Relies on `Path::join`: the path with one more component.
#[verifier::external_body]
fn join_path(base: &str, part: &str) -> (r: String)
    ensures
        r@ == path_join(base@, part@),
{
    std::path::Path::new(base).join(part).to_string_lossy().into_owned()
}

/// The directory that marks a workspace root and holds its data.
pub fn membrane_dir(root: &str) -> (r: String)
    ensures
        r@ == path_join(root@, ".membrane"@),
{
    join_path(root, ".membrane")
}

/// The directory that holds the documents of a workspace.
pub fn projects_dir(root: &str) -> (r: String)
    ensures
        r@ == path_join(path_join(root@, ".membrane"@), "projects"@),
{
    let dir = membrane_dir(root);
    join_path(dir.as_str(), "projects")
}

/// The marker file that holds the workspace's identifier.
pub fn marker_path(root: &str) -> (r: String)
    ensures
        r@ == path_join(path_join(root@, ".membrane"@), "id"@),
{
    let dir = membrane_dir(root);
    join_path(dir.as_str(), "id")
}

/// The workspace root to work in: the active workspace's root when the
/// registry has one, else the root `discovered` around the current place.
/// A dangling active identifier is cleared on the way.
pub fn resolve_workspace_root(index: &mut GlobalIndex, discovered: Option<String>) -> (r: Result<
    String,
    MembraneError,
>)
    ensures
        match old(index).active {
            Some(a) => if has_entry(old(index).workspaces@, a@) {
                (r matches Ok(root) && exists|i: int|
                    is_first_entry(old(index).workspaces@, a@, i) && root@
                        == old(index).workspaces@[i].root@)
            } else {
                final(index).active is None && match discovered {
                    Some(d) => r matches Ok(root) && root == d,
                    None => r matches Err(MembraneError::NotInWorkspace),
                }
            },
            None => match discovered {
                Some(d) => r matches Ok(root) && root == d,
                None => r matches Err(MembraneError::NotInWorkspace),
            },
        },
        final(index).workspaces == old(index).workspaces,
        index_consistent(*final(index)),
{
    match active_workspace_root(index) {
        Ok(root) => Ok(root),
        Err(_) => match discovered {
            Some(d) => Ok(d),
            None => Err(MembraneError::NotInWorkspace),
        },
    }
}

} // verus!
