use hot_reload::watch::{asset_events, AssetWatcher, ChangeKind, WatchAction, WatchCommand, WatchInput};
use hot_reload::Event;

fn start_cmd(name: &str) -> WatchInput {
    WatchInput::Command(WatchCommand { name: name.to_owned(), action: WatchAction::Start })
}

fn stop_cmd(name: &str) -> WatchInput {
    WatchInput::Command(WatchCommand { name: name.to_owned(), action: WatchAction::Stop })
}

fn write(names: &[&str]) -> WatchInput {
    WatchInput::Changed(ChangeKind::WriteClosed, names.iter().map(|n| Some(n.to_string())).collect())
}

#[test]
fn start_asks_for_a_snapshot() {
    let mut w = AssetWatcher::new();
    assert_eq!(w.handle(start_cmd("shader.wgsl")), vec!["shader.wgsl".to_owned()]);
    assert!(w.is_watching(&"shader.wgsl".to_owned()));
}

#[test]
fn snapshot_event_only_when_read_succeeds() {
    let events = asset_events(vec![("shader.wgsl".to_owned(), Some(vec![1, 2, 3]))]);
    assert_eq!(events.len(), 1);
    let Event::FileContents(name, bytes) = &events[0];
    assert_eq!(name, "shader.wgsl");
    assert_eq!(bytes, &vec![1, 2, 3]);
    assert!(asset_events(vec![("missing.png".to_owned(), None)]).is_empty());
}

#[test]
fn failed_reads_are_dropped_in_order() {
    let events = asset_events(vec![
        ("a".to_owned(), Some(vec![1])),
        ("b".to_owned(), None),
        ("c".to_owned(), Some(vec![])),
    ]);
    assert_eq!(events.len(), 2);
    let Event::FileContents(first, _) = &events[0];
    let Event::FileContents(second, bytes) = &events[1];
    assert_eq!(first, "a");
    assert_eq!(second, "c");
    assert!(bytes.is_empty());
}

#[test]
fn completed_writes_of_watched_names_are_read() {
    let mut w = AssetWatcher::new();
    w.handle(start_cmd("a"));
    w.handle(start_cmd("b"));
    let reads = w.handle(write(&["b", "x", "a"]));
    assert_eq!(reads, vec!["b".to_owned(), "a".to_owned()]);
    let other = WatchInput::Changed(ChangeKind::Other, vec![Some("a".to_owned())]);
    assert!(w.handle(other).is_empty());
    let unnamed = WatchInput::Changed(ChangeKind::WriteClosed, vec![None]);
    assert!(w.handle(unnamed).is_empty());
}

#[test]
fn stop_silences_the_name() {
    let mut w = AssetWatcher::new();
    w.handle(start_cmd("a"));
    w.handle(start_cmd("b"));
    assert!(w.handle(stop_cmd("a")).is_empty());
    assert!(!w.is_watching(&"a".to_owned()));
    assert_eq!(w.handle(write(&["a", "b"])), vec!["b".to_owned()]);
    assert!(w.handle(write(&["a"])).is_empty());
}

#[test]
fn starting_twice_registers_once() {
    let mut w = AssetWatcher::new();
    assert_eq!(w.handle(start_cmd("a")), vec!["a".to_owned()]);
    assert_eq!(w.handle(start_cmd("a")), vec!["a".to_owned()]);
    assert_eq!(w.handle(write(&["a"])), vec!["a".to_owned()]);
    w.handle(stop_cmd("a"));
    assert!(!w.is_watching(&"a".to_owned()));
}

#[test]
fn watch_churn_leaves_one_watch() {
    let mut w = AssetWatcher::new();
    w.handle(start_cmd("a"));
    w.handle(stop_cmd("a"));
    w.handle(start_cmd("a"));
    assert!(w.is_watching(&"a".to_owned()));
    assert_eq!(w.handle(write(&["a"])), vec!["a".to_owned()]);
}

#[test]
fn stop_of_unwatched_name_changes_nothing() {
    let mut w = AssetWatcher::new();
    w.handle(start_cmd("a"));
    assert!(w.handle(stop_cmd("zzz")).is_empty());
    assert!(w.is_watching(&"a".to_owned()));
}
