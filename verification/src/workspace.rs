//! Assembling a template workspace from downloaded archives: finding the
//! root of an extracted archive, keeping the center images of an earlier
//! workspace, and checking the result.

use vstd::prelude::*;

use crate::paths::{join, join_spec, list, list_spec, missing, missing_spec};
use crate::text::{chars_of, push_str, string_of, strings_view};

verus! {

/// Why a workspace could not be assembled.
#[derive(Debug, PartialEq, Eq)]
pub enum WorkspaceError {
    /// The directory does not hold exactly one directory and no file.
    NotOneRoot(String),
    /// These files of the workspace are missing, relative to it.
    Incomplete(Vec<String>),
    /// A source to copy holds something that is neither a directory nor a
    /// file, such as a link.
    LinkNotAllowed(String),
}

impl WorkspaceError {
    /// The message that reports the error.
    pub fn message(&self) -> (m: String)
        ensures
            m@ == match self {
                WorkspaceError::NotOneRoot(p) => "expected one archive root directory in "@ + p@,
                WorkspaceError::Incomplete(paths) => "upstream workspace is incomplete: "@
                    + list_spec(strings_view(paths@)),
                WorkspaceError::LinkNotAllowed(p) => "workspace source links are not allowed: "@
                    + p@,
            },
    {
        let mut out: Vec<char> = Vec::new();
        match self {
            WorkspaceError::NotOneRoot(p) => {
                push_str(&mut out, "expected one archive root directory in ");
                push_str(&mut out, p.as_str());
            },
            WorkspaceError::Incomplete(paths) => {
                push_str(&mut out, "upstream workspace is incomplete: ");
                push_str(&mut out, list(paths).as_str());
            },
            WorkspaceError::LinkNotAllowed(p) => {
                push_str(&mut out, "workspace source links are not allowed: ");
                push_str(&mut out, p.as_str());
            },
        }
        string_of(&out)
    }
}

/// The one directory that an archive was extracted into, given the
/// directories found in `path` and whether it holds anything else.
pub fn single_directory(path: &str, directories: Vec<String>, has_files: bool) -> (r: Result<
    String,
    WorkspaceError,
>)
    ensures
        directories@.len() == 1 && !has_files ==> r == Ok::<String, WorkspaceError>(
            directories@[0],
        ),
        !(directories@.len() == 1 && !has_files) ==> (r matches Err(WorkspaceError::NotOneRoot(p))
            && p@ == path@),
{
    if directories.len() != 1 || has_files {
        return Err(WorkspaceError::NotOneRoot(string_of(&chars_of(path))));
    }
    let mut directories = directories;
    Ok(directories.remove(0))
}

/// What copying a tree does with one of its entries.
#[derive(Clone, Copy, Debug, PartialEq, Eq, Structural)]
pub enum CopyAction {
    /// Copy the directory's contents into the same name.
    Descend,
    /// Copy the file.
    Copy,
}

/// What to do with the entry at `path` when copying a tree: directories are
/// copied recursively, files copied, and anything else refused.
pub fn copy_action(path: &str, is_dir: bool, is_file: bool) -> (r: Result<CopyAction, WorkspaceError>)
    ensures
        is_dir ==> r == Ok::<CopyAction, WorkspaceError>(CopyAction::Descend),
        !is_dir && is_file ==> r == Ok::<CopyAction, WorkspaceError>(CopyAction::Copy),
        !is_dir && !is_file ==> (r matches Err(WorkspaceError::LinkNotAllowed(p)) && p@ == path@),
{
    if is_dir {
        Ok(CopyAction::Descend)
    } else if is_file {
        Ok(CopyAction::Copy)
    } else {
        Err(WorkspaceError::LinkNotAllowed(string_of(&chars_of(path))))
    }
}

/// Where the assets of an extracted archive are: its `assets` directory if
/// it has one, else the directory itself if it holds `ot`; `None` when
/// neither, in which case the assets are the archive's single directory.
pub fn assets_root(extracted: &str, assets_is_directory: bool, ot_is_directory: bool) -> (r:
    Option<String>)
    ensures
        assets_is_directory ==> (r matches Some(p) && p@ == join_spec(extracted@, "assets"@)),
        !assets_is_directory && ot_is_directory ==> (r matches Some(p) && p@ == extracted@),
        !assets_is_directory && !ot_is_directory ==> r is None,
{
    if assets_is_directory {
        return Some(join(extracted, "assets"));
    }
    if ot_is_directory {
        return Some(string_of(&chars_of(extracted)));
    }
    None
}

/// The files a workspace must hold, relative to it.
pub open spec fn workspace_requirements() -> Seq<Seq<char>> {
    seq!["lib/mod.typ"@, "assets/ot/images"@, "assets/ot/card/ot.json"@]
}

/// The files a workspace must hold, relative to it.
pub fn requirements() -> (ps: Vec<String>)
    ensures
        ps@.len() == 3,
        strings_view(ps@) == workspace_requirements(),
{
    let v = vec![
        string_of(&chars_of("lib/mod.typ")),
        string_of(&chars_of("assets/ot/images")),
        string_of(&chars_of("assets/ot/card/ot.json")),
    ];
    assert(strings_view(v@) == seq![v@[0]@, v@[1]@, v@[2]@]);
    v
}

/// The paths under `workspace` to check, one for each requirement.
pub fn requirement_paths(workspace: &str) -> (ps: Vec<String>)
    ensures
        ps@.len() == 3,
        forall|i: int|
            0 <= i < 3 ==> (#[trigger] ps@[i])@ == join_spec(workspace@, workspace_requirements()[i]),
{
    let relative = requirements();
    let mut ps: Vec<String> = Vec::new();
    let mut k: usize = 0;
    while k < relative.len()
        invariant
            k <= 3,
            relative@.len() == 3,
            strings_view(relative@) == workspace_requirements(),
            ps@.len() == k,
            forall|i: int|
                0 <= i < k ==> (#[trigger] ps@[i])@ == join_spec(
                    workspace@,
                    workspace_requirements()[i],
                ),
        decreases 3 - k,
    {
        assert(relative@[k as int]@ == workspace_requirements()[k as int]);
        ps.push(join(workspace, relative[k].as_str()));
        k = k + 1;
    }
    ps
}

/// Checks an assembled workspace, given whether each of its requirements
/// exists; the missing ones are reported relative to the workspace.
pub fn validate_workspace(exists: &Vec<bool>) -> (r: Result<(), WorkspaceError>)
    requires
        exists@.len() == 3,
    ensures
        missing_spec(workspace_requirements(), exists@).len() == 0 ==> r is Ok,
        missing_spec(workspace_requirements(), exists@).len() > 0 ==> (r matches Err(
            WorkspaceError::Incomplete(m),
        ) && strings_view(m@) == missing_spec(workspace_requirements(), exists@)),
{
    let required = requirements();
    let absent = missing(&required, exists);
    if absent.len() > 0 {
        return Err(WorkspaceError::Incomplete(absent));
    }
    Ok(())
}

/// Where the center images of the previous workspace are, and where they
/// are kept in the staged one; they are copied over when the first is a
/// directory.
pub fn preserve_center_images(previous: &str, staged: &str) -> (r: (String, String))
    ensures
        r.0@ == join_spec(previous@, "assets/ot/images"@),
        r.1@ == join_spec(staged@, "assets/ot/images"@),
{
    (join(previous, "assets/ot/images"), join(staged, "assets/ot/images"))
}

} // verus!
