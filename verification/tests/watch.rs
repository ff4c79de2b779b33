use web_asset::change_watch::drain_cycle;
use web_asset::WatchEvent;
use web_asset::WatchEventKind;

fn modify(paths: &[&str]) -> WatchEvent {
    WatchEvent {
        kind: WatchEventKind::Modified,
        paths: paths.iter().map(|p| String::from(*p)).collect(),
    }
}

#[test]
fn drain_reports_path_relative_to_root() {
    let events = vec![modify(&["/assets/tex/a.png"])];
    assert_eq!(drain_cycle(&events, "/assets"), vec!["tex/a.png"]);
}

#[test]
fn two_events_for_same_path_in_one_drain_report_once() {
    let events = vec![modify(&["/assets/a.png"]), modify(&["/assets/a.png"])];
    assert_eq!(drain_cycle(&events, "/assets"), vec!["a.png"]);
}

#[test]
fn same_path_in_separate_drains_reports_twice() {
    let first = vec![modify(&["/assets/a.png"])];
    let second = vec![modify(&["/assets/a.png"])];
    let mut reports = drain_cycle(&first, "/assets");
    reports.extend(drain_cycle(&second, "/assets"));
    assert_eq!(reports, vec!["a.png", "a.png"]);
}

#[test]
fn duplicate_paths_inside_one_event_report_once() {
    let events = vec![modify(&["/assets/a.png", "/assets/a.png"])];
    assert_eq!(drain_cycle(&events, "/assets"), vec!["a.png"]);
}

#[test]
fn distinct_paths_keep_first_occurrence_order() {
    let events = vec![
        modify(&["/assets/b.png"]),
        modify(&["/assets/a.png", "/assets/b.png"]),
    ];
    assert_eq!(drain_cycle(&events, "/assets"), vec!["b.png", "a.png"]);
}

#[test]
fn non_modify_events_are_ignored() {
    let created = WatchEvent {
        kind: WatchEventKind::Created,
        paths: vec![String::from("/assets/new.png")],
    };
    let removed = WatchEvent {
        kind: WatchEventKind::Removed,
        paths: vec![String::from("/assets/old.png")],
    };
    let other = WatchEvent {
        kind: WatchEventKind::Other,
        paths: vec![String::from("/assets/odd.png")],
    };
    let events = vec![created, removed, other, modify(&["/assets/kept.png"])];
    assert_eq!(drain_cycle(&events, "/assets"), vec!["kept.png"]);
}

#[test]
fn empty_drain_reports_nothing() {
    let events: Vec<WatchEvent> = Vec::new();
    assert_eq!(drain_cycle(&events, "/assets"), Vec::<String>::new());
}
