//! The main hierarchy of the application: its groups, leaves, naming status and errors.

use vstd::prelude::*;
use crate::backend::fs_hierarchy::{FileRef, FolderRef};
use crate::backend::item_source::ItemSource;
use crate::common::concat;
use crate::deep_sorter::naming::NamingErr;
use crate::geogroup::Params;
use crate::hierarchy::lazy::GroupRef;
use crate::bintree::HorizontalIdx;
use crate::backend::sorted_names::{idx_byte, is_sorted_auto_name, local_id_bytes, sorted_auto_name};

verus! {

/// Simple template for creating a final lazy group.
pub enum Template {
    Fs(FolderRef),
    Sorted { item_source: ItemSource, params: Params },
}

/// The state of naming as the naming thread and the user interface share it: whether naming
/// runs, and the error that stopped it as a whole.
pub struct NamingInterface<E> {
    pub naming_error: Option<E>,
    /// If naming is currently running
    pub naming_running: bool,
}

impl<E> NamingInterface<E> {
    /// Not running, no error.
    pub fn new() -> (r: Self)
        ensures
            r.naming_error is None,
            !r.naming_running,
    {
        NamingInterface { naming_error: None, naming_running: false }
    }

    /// Should be called before starting the naming process: resets the error and marks naming
    /// as running. Returns whether the naming should be started, that is whether it was not
    /// running already.
    pub fn pre_start_naming(&mut self) -> (r: bool)
        ensures
            r == !old(self).naming_running,
            final(self).naming_running,
            final(self).naming_error is None,
    {
        self.naming_error = None;
        let already_running = self.naming_running;
        self.naming_running = true;
        !already_running
    }

    /// Should be called when the naming failed as a whole: records the error and marks naming
    /// as not running.
    pub fn finish_naming_with_error(&mut self, error: E)
        ensures
            final(self).naming_error == Some(error),
            !final(self).naming_running,
    {
        self.naming_error = Some(error);
        self.naming_running = false;
    }

    /// Whether naming is currently running.
    pub fn is_naming_running(&self) -> (r: bool)
        ensures
            r == self.naming_running,
    {
        self.naming_running
    }

    /// The error that stopped naming as a whole, if any.
    pub fn get_naming_error(&self) -> (r: &Option<E>)
        ensures
            *r == self.naming_error,
    {
        &self.naming_error
    }
}

/// An error met while reading the structure of the hierarchy.
#[derive(Debug, Clone)]
pub enum StructureErr<E> {
    Pending,
    Error(E),
}

/// Why the hierarchy cannot be applied to the file system yet.
#[derive(Debug, Clone)]
pub enum RootForRsError<SE> {
    LoadingTemplate(Option<String>),
    NamingInProgress,
    StructureError(StructureErr<SE>),
}

/// Data of a group of the main hierarchy.
#[derive(Clone, Copy, Debug, PartialEq, Eq, Structural)]
pub enum GroupData {
    Static,
    /// Not a real folder to be actually applied, this represents just a rule how to
    /// to organize files inside some folder. There may be multiple of these corresponding to a single folder.
    LazySubgroupRoot,
    LazySubgroupMember,
}

/// A problem of a node, to show to the user.
pub enum NodeProblem<LocationError> {
    /// Failed to get location
    NoLocation(LocationError),
    /// Cannot set up naming (the text of the global naming error)
    GlobalNamingError(String),
}

/// State of automatic naming of the item.
pub enum AutoNameStatus<E> {
    Named(String),
    /// Naming is in progress. Possibly contains partial name (eg. containing only date)
    InProgress(Option<String>),
    /// Naming has been attempted, but failed. Possibly contains partial name (eg. containing only date)
    Error { err: NameError<E>, name: Option<String> },
}

/// Why a node has no automatic name.
pub enum NameError<E> {
    LocationMissing,
    Other(NamingErr<E>),
    /// String created by formatting a global naming error
    GlobalNamingError(String),
    /// This should never happen
    UnexpectedError(String),
}

/// `r` is the string `s` as a slice, or both are absent.
pub open spec fn str_of(s: Option<String>, r: Option<&str>) -> bool {
    match s {
        Some(t) => r matches Some(u) && u@ == t@,
        None => r is None,
    }
}

fn opt_as_str(s: &Option<String>) -> (r: Option<&str>)
    ensures
        str_of(*s, r),
{
    match s {
        Some(t) => Some(t.as_str()),
        None => None,
    }
}

impl<E> AutoNameStatus<E> {
    /// A naming that failed because the location is missing, with the partial name `alt_name`.
    pub fn new_location_missing(alt_name: Option<String>) -> (r: Self)
        ensures
            r matches AutoNameStatus::Error { err: NameError::LocationMissing, name } && name == alt_name,
    {
        AutoNameStatus::Error { err: NameError::LocationMissing, name: alt_name }
    }

    /// A naming that failed for an unknown reason.
    pub fn new_unexpected_err() -> (r: Self)
        ensures
            r matches AutoNameStatus::Error { err: NameError::UnexpectedError(msg), name } && msg@ == "unknown"@
                && name is None,
    {
        AutoNameStatus::Error { err: NameError::UnexpectedError("unknown".to_string()), name: None }
    }

    /// Whether the naming is in progress.
    pub fn is_in_progress(&self) -> (r: bool)
        ensures
            r == (*self is InProgress),
    {
        match self {
            AutoNameStatus::InProgress(..) => true,
            _ => false,
        }
    }

    /// Gets name on best-effort basis - if `self` isn't [`AutoNameStatus::Named`], the returned
    /// name may be incomplete or missing
    pub fn get_name(&self) -> (r: Option<&str>)
        ensures
            match *self {
                AutoNameStatus::Named(name) => r matches Some(u) && u@ == name@,
                AutoNameStatus::InProgress(name) => str_of(name, r),
                AutoNameStatus::Error { name, .. } => str_of(name, r),
            },
    {
        match self {
            AutoNameStatus::Named(name) => Some(name.as_str()),
            AutoNameStatus::InProgress(name) => opt_as_str(name),
            AutoNameStatus::Error { err: _, name } => opt_as_str(name),
        }
    }

    /// The name, or [`NameError::UnexpectedError`] if there is none.
    pub fn named_or_unexpected(input: Option<String>) -> (r: Self)
        ensures
            match input {
                Some(n) => r == AutoNameStatus::<E>::Named(n),
                None => r matches AutoNameStatus::Error { err: NameError::UnexpectedError(msg), name } && msg@
                    == "unknown"@ && name is None,
            },
    {
        match input {
            Some(n) => AutoNameStatus::Named(n),
            None => AutoNameStatus::new_unexpected_err(),
        }
    }
}

/// The automatic naming status of a node of a sorted group, whose name (see
/// [`crate::geogroup::NodeInfo::name`]) is `name`; `time` names its time and `location_name`
/// its place.
///
/// A named node is named by its time and place. A node not named yet is in progress while the
/// naming runs; otherwise the naming failed as a whole, with the global error if there is one.
/// A node whose naming failed keeps its error. In every case but a successful one, the time
/// serves as the partial name.
pub fn auto_name_status<NDItem, E>(
    name: Option<Result<Vec<NDItem>, NamingErr<E>>>,
    time: String,
    location_name: String,
    global_naming_running: bool,
    global_naming_error: Option<String>,
) -> (r: AutoNameStatus<E>)
    ensures
        match name {
            Some(Ok(_)) => r matches AutoNameStatus::Named(n) && n@ == time@ + location_name@,
            Some(Err(e)) => r == AutoNameStatus::Error { err: NameError::Other(e), name: Some(time) },
            None => if global_naming_running {
                r == AutoNameStatus::<E>::InProgress(Some(time))
            } else {
                r matches AutoNameStatus::Error { err, name: n } && n == Some(time) && match global_naming_error {
                    Some(msg) => err == NameError::<E>::GlobalNamingError(msg),
                    None => err matches NameError::UnexpectedError(m) && m@
                        == "naming not running but also no global error reported"@,
                }
            },
        },
{
    match name {
        Some(Ok(_)) => AutoNameStatus::Named(concat(time.as_str(), location_name.as_str())),
        Some(Err(e)) => AutoNameStatus::Error { err: NameError::Other(e), name: Some(time) },
        None => {
            if global_naming_running {
                AutoNameStatus::InProgress(Some(time))
            } else {
                let err = match global_naming_error {
                    Some(msg) => NameError::GlobalNamingError(msg),
                    None => NameError::UnexpectedError(
                        "naming not running but also no global error reported".to_string(),
                    ),
                };
                AutoNameStatus::Error { err, name: Some(time) }
            }
        },
    }
}

/// Data of a node of the main hierarchy.
pub struct NodeData<E, LocationError> {
    pub auto_name: AutoNameStatus<E>,
    /// The name the user gave, if any.
    pub manual_name: Option<String>,
    pub additional_problems: Vec<NodeProblem<LocationError>>,
    /// If you join all `local_id_path`s of a node's parents up to the first [None],
    /// you get an _identification path_ of the node. It's unique in the subtree of the first node whose `local_id_path` is None.
    /// This _identification path_ is preserved during algorithm parameter changes, so it can be used to track selection,
    /// animating the nodes etc.
    pub local_id_path: Option<Vec<u8>>,
    /// ID of the node unique in the lazy subtree.
    pub static_id: Option<u64>,
}

impl<E, LocationError> NodeData<E, LocationError> {
    /// Gets name on best-effort basis - the name the user gave, or else the automatic one, which
    /// may be incomplete or missing in case of errors or incomplete naming
    pub fn get_name(&self) -> (r: Option<&str>)
        ensures
            match self.manual_name {
                Some(name) => r matches Some(u) && u@ == name@,
                None => match self.auto_name {
                    AutoNameStatus::Named(name) => r matches Some(u) && u@ == name@,
                    AutoNameStatus::InProgress(name) => str_of(name, r),
                    AutoNameStatus::Error { name, .. } => str_of(name, r),
                },
            },
    {
        match &self.manual_name {
            Some(name) => Some(name.as_str()),
            None => self.auto_name.get_name(),
        }
    }
}

/// Data of a file of the main hierarchy.
#[derive(Clone, Debug)]
pub struct FileData {
    pub path: FileRef,
}

/// Data of a leaf of the main hierarchy.
pub enum LeafData {
    File(FileData),
    LazyGroupInitializing { message: Option<String>, progress: Option<u16> },
}

/// A group reference of the main hierarchy, with the error type of its structure.
pub trait ImplGroupRef<E, LocationError>: GroupRef<
    GroupMetadata = GroupData,
    NodeMetadata = NodeData<E, LocationError>,
    LeafMetadata = LeafData,
    StructureErr = StructureErr<<Self as ImplGroupRef<E, LocationError>>::E>,
> {
    type E;
}


/// The problems a node shows: that its position could not be read, if so.
pub open spec fn position_problems<LE>(position_error: Option<LE>) -> Seq<NodeProblem<LE>> {
    match position_error {
        Some(e) => seq![NodeProblem::NoLocation(e)],
        None => Seq::empty(),
    }
}

/// The data the application shows for a node of a sorted hierarchy: its static id, the name
/// the user gave it, its automatic name (see [`is_sorted_auto_name`]) with the time text
/// `time`, its `local_id_path` as bytes, and, for a photo whose position could not be read,
/// that problem.
pub fn sorted_node_data<E, LE>(
    static_id: u64,
    manual_name: Option<String>,
    name: Option<Result<Vec<String>, NamingErr<E>>>,
    time: String,
    prioritized: &Vec<String>,
    banned: &Vec<String>,
    global_naming_running: bool,
    global_naming_error: Option<String>,
    local_id_path: &Vec<HorizontalIdx>,
    position_error: Option<LE>,
) -> (r: NodeData<E, LE>)
    ensures
        r.static_id == Some(static_id),
        r.manual_name == manual_name,
        is_sorted_auto_name(
            name,
            time,
            prioritized@,
            banned@,
            global_naming_running,
            global_naming_error,
            r.auto_name,
        ),
        r.local_id_path matches Some(b) && b@ == local_id_path@.map_values(|h: HorizontalIdx| idx_byte(h)),
        r.additional_problems@ == position_problems(position_error),
{
    let auto_name = sorted_auto_name(name, time, prioritized, banned, global_naming_running, global_naming_error);
    let mut additional_problems: Vec<NodeProblem<LE>> = Vec::new();
    match position_error {
        Some(e) => additional_problems.push(NodeProblem::NoLocation(e)),
        None => {},
    }
    proof {
        assert(additional_problems@ =~= position_problems(position_error));
    }
    NodeData {
        auto_name,
        manual_name,
        additional_problems,
        local_id_path: Some(local_id_bytes(local_id_path)),
        static_id: Some(static_id),
    }
}

/// The data the application shows for a file or a folder of the file system: named by its file
/// name (see [`AutoNameStatus::named_or_unexpected`]), with no manual name, no identification
/// path, no static id and no problems.
pub fn file_node_data<E, LE>(file_name: Option<String>) -> (r: NodeData<E, LE>)
    ensures
        match file_name {
            Some(n) => r.auto_name == AutoNameStatus::<E>::Named(n),
            None => r.auto_name matches AutoNameStatus::Error { err: NameError::UnexpectedError(msg), name } && msg@
                == "unknown"@ && name is None,
        },
        r.manual_name is None,
        r.local_id_path is None,
        r.static_id is None,
        r.additional_problems@.len() == 0,
{
    NodeData {
        auto_name: AutoNameStatus::named_or_unexpected(file_name),
        manual_name: None,
        additional_problems: Vec::new(),
        local_id_path: None,
        static_id: None,
    }
}
} // verus!
