use geogroup::backend::fs_hierarchy::{new, ErrFileNorDir, FileRef, FsNode};
use geogroup::backend::item_source::{partition_entries, CachingItemSource, ComplexItemSource, ItemSource};
use geogroup::backend::main_hierarchy::{auto_name_status, AutoNameStatus, NameError, NodeData};
use geogroup::deep_sorter::naming::NamingErr;
use geogroup::gui::{FileNode, NodeInfo};
use geogroup::maybe_borrowed::MaybeBorrowed;
use std::path::PathBuf;

#[test]
fn fs_node_kinds() {
    assert!(matches!(new(PathBuf::from("/a"), true, false), Ok(FsNode::File(FileRef(p))) if p == PathBuf::from("/a")));
    assert!(matches!(new(PathBuf::from("/b"), false, true), Ok(FsNode::Folder(_))));
    assert!(matches!(new(PathBuf::from("/c"), true, true), Ok(FsNode::File(_))));
    assert!(matches!(new(PathBuf::from("/d"), false, false), Err(ErrFileNorDir(p)) if p == PathBuf::from("/d")));
}

#[test]
fn enumerated_source_lists_its_files() {
    let src = ItemSource::Enumerated(vec![FileRef(PathBuf::from("x.jpg")), FileRef(PathBuf::from("y.jpg"))]);
    let res = src.into_concrete(|_: &FileRef| panic!("an enumerated source is not walked")).unwrap();
    let paths: Vec<PathBuf> = res.paths.into_iter().map(|f| f.0).collect();
    assert_eq!(paths, vec![PathBuf::from("x.jpg"), PathBuf::from("y.jpg")]);
    assert!(res.errors.is_empty());
}

#[test]
fn directory_source_splits_paths_and_errors() {
    let src = ComplexItemSource::EntireDir(FileRef(PathBuf::from("photos"))).to_item_source();
    let res = src
        .into_concrete(|dir: &FileRef| {
            Some(vec![
                Ok(dir.0.join("a.jpg")),
                Err(anyhow::Error::msg("unreadable")),
                Ok(dir.0.join("b.jpg")),
            ])
        })
        .unwrap();
    let paths: Vec<PathBuf> = res.paths.into_iter().map(|f| f.0).collect();
    assert_eq!(paths, vec![PathBuf::from("photos/a.jpg"), PathBuf::from("photos/b.jpg")]);
    assert_eq!(res.errors.len(), 1);
    assert_eq!(res.errors[0].to_string(), "unreadable");
}

#[test]
fn partition_keeps_order() {
    let res = partition_entries(vec![Err(anyhow::Error::msg("e1")), Ok(PathBuf::from("p")), Err(anyhow::Error::msg("e2"))]);
    assert_eq!(res.paths.len(), 1);
    assert_eq!(res.errors.iter().map(|e| e.to_string()).collect::<Vec<_>>(), vec!["e1", "e2"]);
}

fn node_data(auto: AutoNameStatus<String>, manual: Option<&str>) -> NodeData<String, String> {
    NodeData {
        auto_name: auto,
        manual_name: manual.map(|s| s.to_string()),
        additional_problems: Vec::new(),
        local_id_path: None,
        static_id: None,
    }
}

#[test]
fn names_of_nodes() {
    let named: AutoNameStatus<String> = AutoNameStatus::Named(String::from("Prague"));
    assert_eq!(named.get_name(), Some("Prague"));
    assert!(!named.is_in_progress());
    let progress: AutoNameStatus<String> = AutoNameStatus::InProgress(Some(String::from("2024-05")));
    assert!(progress.is_in_progress());
    assert_eq!(progress.get_name(), Some("2024-05"));
    let missing: AutoNameStatus<String> = AutoNameStatus::new_location_missing(None);
    assert_eq!(missing.get_name(), None);
    assert!(matches!(missing, AutoNameStatus::Error { err: NameError::LocationMissing, name: None }));
    assert_eq!(node_data(AutoNameStatus::Named(String::from("auto")), Some("manual")).get_name(), Some("manual"));
    assert_eq!(node_data(AutoNameStatus::Named(String::from("auto")), None).get_name(), Some("auto"));
}

#[test]
fn unexpected_name() {
    let n: AutoNameStatus<String> = AutoNameStatus::named_or_unexpected(None);
    match n {
        AutoNameStatus::Error { err: NameError::UnexpectedError(msg), name } => {
            assert_eq!(msg, "unknown");
            assert!(name.is_none());
        }
        _ => panic!("expected an unexpected error"),
    }
    let n: AutoNameStatus<String> = AutoNameStatus::named_or_unexpected(Some(String::from("x")));
    assert_eq!(n.get_name(), Some("x"));
}

#[test]
fn manual_names_of_template_files() {
    let f = FileNode { node_info: NodeInfo { manual_name: Some(String::from("holiday")) }, file_info: 3 };
    assert_eq!(f.manual_name(), Some("holiday"));
    let g = FileNode { node_info: NodeInfo { manual_name: None }, file_info: 4 };
    assert_eq!(g.manual_name(), None);
}

#[test]
fn maybe_borrowed_values() {
    let x = 5u32;
    assert_eq!(*MaybeBorrowed::borrowed(&x).get(), 5);
    assert_eq!(*MaybeBorrowed::<u32>::owned(6).get(), 6);
}

#[test]
fn name_status_of_sorted_nodes() {
    let t = || String::from("2024-05 ");
    let named = auto_name_status::<u32, String>(Some(Ok(vec![1])), t(), String::from("Prague"), false, None);
    assert_eq!(named.get_name(), Some("2024-05 Prague"));
    let running = auto_name_status::<u32, String>(None, t(), String::new(), true, None);
    assert!(running.is_in_progress());
    assert_eq!(running.get_name(), Some("2024-05 "));
    match auto_name_status::<u32, String>(None, t(), String::new(), false, Some(String::from("offline"))) {
        AutoNameStatus::Error { err: NameError::GlobalNamingError(m), name } => {
            assert_eq!(m, "offline");
            assert_eq!(name.as_deref(), Some("2024-05 "));
        }
        _ => panic!("expected the global error"),
    }
    match auto_name_status::<u32, String>(None, t(), String::new(), false, None) {
        AutoNameStatus::Error { err: NameError::UnexpectedError(m), .. } => {
            assert_eq!(m, "naming not running but also no global error reported")
        }
        _ => panic!("expected an unexpected error"),
    }
    match auto_name_status::<u32, String>(Some(Err(NamingErr::ChildrenFailed)), t(), String::new(), true, None) {
        AutoNameStatus::Error { err: NameError::Other(NamingErr::ChildrenFailed), .. } => {}
        _ => panic!("expected the naming error"),
    }
}

#[test]
fn caching_source_walks_once() {
    let mut src = CachingItemSource::new(ItemSource::EntireDir(FileRef(PathBuf::from("d"))));
    assert!(!src.is_fast());
    let walk = |dir: &FileRef| vec![Ok(dir.0.join("1.jpg"))];
    assert_eq!(src.into_concrete(walk).len(), 1);
    assert!(src.is_fast());
    let again = src.into_concrete(|_: &FileRef| panic!("the cache is used"));
    assert_eq!(again[0].0, PathBuf::from("d/1.jpg"));
    src.clear_cache();
    assert!(!src.is_fast());
    assert!(src.prepare_cache(|_: &FileRef| Some(Vec::new())));
    assert!(src.into_concrete(|_: &FileRef| panic!("the cache is used")).is_empty());
}

#[test]
fn enumerated_caching_source_is_fast() {
    let mut src = CachingItemSource::new(ItemSource::Enumerated(vec![FileRef(PathBuf::from("x"))]));
    assert!(src.is_fast());
    src.clear_cache();
    assert!(src.is_fast());
    assert_eq!(src.into_concrete(|_: &FileRef| panic!("nothing to walk")).len(), 1);
}

#[test]
fn stopped_listing_is_not_cached() {
    let mut src = CachingItemSource::new(ItemSource::EntireDir(FileRef(PathBuf::from("d"))));
    assert!(!src.prepare_cache(|_: &FileRef| None));
    assert!(!src.is_fast());
    assert!(src.prepare_cache(|dir: &FileRef| Some(vec![Ok(dir.0.join("2.jpg"))])));
    assert!(src.is_fast());
    assert!(src.prepare_cache(|_: &FileRef| None), "a ready cache is kept");
    assert_eq!(src.into_concrete(|_: &FileRef| panic!("the cache is used"))[0].0, PathBuf::from("d/2.jpg"));
}

#[test]
fn stopped_walk_gives_no_items() {
    let src = ItemSource::EntireDir(FileRef(PathBuf::from("d")));
    assert!(src.into_concrete(|_: &FileRef| None).is_none());
    let complex = ComplexItemSource::EntireDir(FileRef(PathBuf::from("d")));
    assert!(complex.create_cache(|_: &FileRef| None).is_none());
    assert_eq!(complex.create_cache(|dir: &FileRef| Some(vec![Ok(dir.0.join("x"))])).unwrap().paths.len(), 1);
}
