//! State of the user interface that is not drawing: progress reports, errors and the template
//! of the hierarchy being edited.

use vstd::prelude::*;
use crate::backend::fs_hierarchy::ErrFileNorDir;
use crate::geogroup::Params;

verus! {

/// An error to show on every page of the application.
pub enum AppWideError {
    SelectedNotFileNorDir(ErrFileNorDir),
}

/// Progress of a long-running action.
pub struct Progress {
    pub action: ProgressAction,
    /// [`u16::MAX`] means done.
    pub progress: Option<u16>,
}

/// A long-running action.
#[derive(Debug, Clone, Copy, PartialEq, Eq, Structural)]
pub enum ProgressAction {
    Geocoding,
    Grouping,
    Naming,
    Applying,
}

/// A state of the hiearchy, as an abstract template: locked groups hold their contents, the
/// automatically sorted ones only the configuration of the sorting.
pub type TemplateHiearchy = Vec<Node>;

/// A node of a [`TemplateHiearchy`].
pub enum Node {
    Group(GroupNode),
    File(FileNode),
}

/// A group of a [`TemplateHiearchy`].
pub struct GroupNode {
    pub node_info: NodeInfo,
    pub body: GroupBody,
}

/// A file of a [`TemplateHiearchy`].
pub struct FileNode {
    pub node_info: NodeInfo,
    pub file_info: FileRef,
}

/// The name a user gave by hand, as a string slice.
pub open spec fn manual_name_view(n: Option<String>, r: Option<&str>) -> bool {
    match n {
        Some(s) => r matches Some(t) && t@ == s@,
        None => r is None,
    }
}

fn name_as_str(n: &Option<String>) -> (r: Option<&str>)
    ensures
        manual_name_view(*n, r),
{
    match n {
        Some(s) => Some(s.as_str()),
        None => None,
    }
}

impl FileNode {
    /// The name the user gave the file, if any.
    pub fn manual_name(&self) -> (r: Option<&str>)
        ensures
            manual_name_view(self.node_info.manual_name, r),
    {
        name_as_str(&self.node_info.manual_name)
    }
}

impl GroupNode {
    /// The name the user gave the group, if any.
    pub fn manual_name(&self) -> (r: Option<&str>)
        ensures
            manual_name_view(self.node_info.manual_name, r),
    {
        name_as_str(&self.node_info.manual_name)
    }
}

/// Representation of children of [`GroupNode`].
pub enum GroupBody {
    Manual(Vec<Node>),
    /// Children are sorted automatically
    Automatic(AutoGroupBody),
}

/// An automatically sorted group: how it is sorted and what it holds.
pub struct AutoGroupBody {
    pub sort_config: Params,
    /// Which files are included in this group, it's order-agnostic
    pub children: Vec<FileRef>,
}

/// Data which is part of both [`GroupNode`] and [`FileNode`]
pub struct NodeInfo {
    /// If the user has manually overriden the name of this node, this will be it.
    pub manual_name: Option<String>,
}

/// A file of a template, by its number.
pub type FileRef = u64;

/// The state of a container on which long-running operations are performed; meanwhile its
/// value is unavailable.
pub enum Status<T, WorkingInfo, CancellingInfo, E> {
    Ready(T),
    Error { error: E, can_retry: bool },
    Cancelled,
    Working {
        info: WorkingInfo,
        /// [`u8::MAX`] indicates 100%.
        progress: Option<u8>,
    },
    Cancelling(CancellingInfo),
}

} // verus!
