use geogroup::backend::main_hierarchy::{file_node_data, sorted_node_data, AutoNameStatus, NameError, NodeData, NodeProblem};
use geogroup::backend::progress::reports_at;
use geogroup::backend::sorted_names::{local_id_bytes, location_name, sorted_auto_name, time_text};
use geogroup::bintree::HorizontalIdx;
use geogroup::deep_sorter::naming::NamingErr;

fn strings(v: &[&str]) -> Vec<String> {
    v.iter().map(|s| s.to_string()).collect()
}

#[test]
fn location_stops_after_the_first_prioritised_name() {
    let items = strings(&["Old Town", "Prague", "Czechia", "Europe"]);
    let r = location_name(&items, &strings(&["Prague"]), &Vec::new());
    assert_eq!(r, "Old Town, Prague");
}

#[test]
fn banned_names_are_left_out() {
    let items = strings(&["Street", "Old Town", "Prague"]);
    let r = location_name(&items, &strings(&["Prague"]), &strings(&["Street"]));
    assert_eq!(r, "Old Town, Prague");
    assert_eq!(location_name(&items, &Vec::new(), &Vec::new()), "Street, Old Town, Prague");
    assert_eq!(location_name(&Vec::new(), &Vec::new(), &Vec::new()), "");
}

#[test]
fn id_path_as_bytes() {
    let path = vec![HorizontalIdx::Left, HorizontalIdx::Right, HorizontalIdx::Right];
    assert_eq!(local_id_bytes(&path), vec![0, 1, 1]);
}

#[test]
fn sorted_names_join_time_and_place() {
    let r = sorted_auto_name::<String>(
        Some(Ok(strings(&["Old Town", "Prague", "Czechia"]))),
        String::from("2015-05-15 "),
        &strings(&["Prague"]),
        &Vec::new(),
        false,
        None,
    );
    assert!(matches!(r, AutoNameStatus::Named(n) if n == "2015-05-15 Old Town, Prague"));
    let r = sorted_auto_name::<String>(None, String::from("t"), &Vec::new(), &Vec::new(), true, None);
    assert!(matches!(r, AutoNameStatus::InProgress(Some(t)) if t == "t"));
    let r = sorted_auto_name::<String>(
        Some(Err(NamingErr::ChildrenFailed)),
        String::from("t"),
        &Vec::new(),
        &Vec::new(),
        false,
        None,
    );
    assert!(matches!(r, AutoNameStatus::Error { err: NameError::Other(NamingErr::ChildrenFailed), .. }));
}

#[test]
fn time_text_formats_the_moment() {
    assert_eq!(time_text("%Y-%m-%d ", 1431648000, 0).as_deref(), Some("2015-05-15 "));
    assert_eq!(time_text("%Y-%Q", 0, 0).as_deref(), Some("1970-%Q"));
    assert!(time_text("%Y", i64::MAX, 0).is_none());
}

#[test]
fn time_text_uses_the_photos_offset() {
    assert_eq!(time_text("%Y-%m-%d %H:%M", 1431648000, 2 * 3600).as_deref(), Some("2015-05-15 02:00"));
    assert_eq!(time_text("%Y-%m-%d %H:%M", 1431648000, -3600).as_deref(), Some("2015-05-14 23:00"));
    assert!(time_text("%Y", 0, 86400).is_none());
}

#[test]
fn sorted_node_data_of_a_photo() {
    let d: NodeData<String, &str> = sorted_node_data(
        7,
        Some(String::from("mine")),
        Some(Ok(strings(&["Old Town", "Prague"]))),
        String::from("2015-05-15 "),
        &Vec::new(),
        &Vec::new(),
        false,
        None,
        &vec![HorizontalIdx::Right, HorizontalIdx::Left],
        Some("no GPS"),
    );
    assert_eq!(d.static_id, Some(7));
    assert_eq!(d.manual_name.as_deref(), Some("mine"));
    assert_eq!(d.local_id_path, Some(vec![1, 0]));
    assert!(matches!(&d.auto_name, AutoNameStatus::Named(n) if n == "2015-05-15 Old Town, Prague"));
    assert!(matches!(d.additional_problems.as_slice(), [NodeProblem::NoLocation("no GPS")]));
    assert_eq!(d.get_name(), Some("mine"));
}

#[test]
fn sorted_node_data_while_naming_runs() {
    let d: NodeData<String, ()> = sorted_node_data(
        1, None, None, String::from("t"), &Vec::new(), &Vec::new(), true, None, &Vec::new(), None,
    );
    assert!(matches!(&d.auto_name, AutoNameStatus::InProgress(Some(t)) if t == "t"));
    assert!(d.additional_problems.is_empty());
    assert_eq!(d.local_id_path, Some(Vec::new()));
}

#[test]
fn file_node_data_by_file_name() {
    let d: NodeData<String, ()> = file_node_data(Some(String::from("a.jpg")));
    assert!(matches!(&d.auto_name, AutoNameStatus::Named(n) if n == "a.jpg"));
    assert!(d.manual_name.is_none() && d.local_id_path.is_none() && d.static_id.is_none());
    let d: NodeData<String, ()> = file_node_data(None);
    assert!(matches!(&d.auto_name, AutoNameStatus::Error { err: NameError::UnexpectedError(m), name: None } if m == "unknown"));
}

#[test]
fn progress_is_reported_every_interval() {
    let at: Vec<usize> = (0..10).filter(|&i| reports_at(i, 2)).collect();
    assert_eq!(at, vec![0, 3, 6, 9]);
    assert!((0..5).all(|i| reports_at(i, 0)));
}
