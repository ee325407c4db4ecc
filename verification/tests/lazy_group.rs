use geogroup::backend::lazy_group::{should_terminate, Dynamic, Finalized, View};
use geogroup::backend::main_hierarchy::NamingInterface;
use std::time::Instant;

fn describe(d: &Dynamic<String>) -> String {
    d.read(|v: View<'_, '_, String>| match v {
        View::Finished(g) => format!("finished {g}"),
        View::Initializing(s) => format!("initializing {:?} {:?}", s.progress, s.msg),
        View::Terminated => String::from("terminated"),
    })
}

#[test]
fn lazy_group_lifecycle() {
    let mut d: Dynamic<String> = Dynamic::new(Instant::now());
    assert_eq!(describe(&d), "initializing None None");
    d.report(Some(10), Some(String::from("listing")), Instant::now());
    assert_eq!(describe(&d), "initializing Some(10) Some(\"listing\")");
    assert!(d.finish(Some(String::from("group"))));
    assert_eq!(describe(&d), "finished group");
    assert!(!d.finish(None));
    assert_eq!(describe(&d), "finished group");
}

#[test]
fn terminated_lazy_group() {
    let mut d: Dynamic<String> = Dynamic::new(Instant::now());
    assert!(d.finish(None));
    assert!(matches!(d.finalized, Some(Finalized::Terminated)));
    assert_eq!(describe(&d), "terminated");
    let f: Dynamic<String> = Dynamic::from_final(String::from("ready"), Instant::now());
    assert_eq!(describe(&f), "finished ready");
}

#[test]
fn termination_requests() {
    assert!(should_terminate(Some(true)));
    assert!(!should_terminate(Some(false)));
    assert!(should_terminate(None));
}

#[test]
fn naming_interface() {
    let mut n: NamingInterface<String> = NamingInterface::new();
    assert!(!n.is_naming_running());
    assert!(n.pre_start_naming());
    assert!(n.is_naming_running());
    assert!(!n.pre_start_naming());
    n.finish_naming_with_error(String::from("offline"));
    assert!(!n.is_naming_running());
    assert_eq!(n.get_naming_error().as_deref(), Some("offline"));
    assert!(n.pre_start_naming());
    assert!(n.get_naming_error().is_none());
}
