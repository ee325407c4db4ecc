//! Folders and files of the file system as a hierarchy.

use vstd::prelude::*;
use std::path::PathBuf;

verus! {

/// A folder, by its path.
#[derive(Clone, Debug)]
pub struct FolderRef(pub PathBuf);

/// A file, by its path.
#[derive(Clone, Debug)]
pub struct FileRef(pub PathBuf);

/// Operation failed because a path is neither a file nor directory.
#[derive(Debug)]
pub struct ErrFileNorDir(pub PathBuf);

/// A node of the file system: a folder or a file.
pub enum FsNode {
    Folder(FolderRef),
    File(FileRef),
}

/// The node at `path`, given whether the path is a file and whether it is a directory (in that
/// order of precedence):
///  - a file node iff `is_file`
///  - a folder node iff `!is_file && is_dir`
///  - [`ErrFileNorDir`] iff neither
pub fn new(path: PathBuf, is_file: bool, is_dir: bool) -> (r: Result<FsNode, ErrFileNorDir>)
    ensures
        is_file ==> r == Ok::<FsNode, ErrFileNorDir>(FsNode::File(FileRef(path))),
        !is_file && is_dir ==> r == Ok::<FsNode, ErrFileNorDir>(FsNode::Folder(FolderRef(path))),
        !is_file && !is_dir ==> r == Err::<FsNode, ErrFileNorDir>(ErrFileNorDir(path)),
{
    if is_file {
        Ok(FsNode::File(FileRef(path)))
    } else if is_dir {
        Ok(FsNode::Folder(FolderRef(path)))
    } else {
        Err(ErrFileNorDir(path))
    }
}

} // verus!
