use indexmap::IndexSet;
use source_wrench::import::manager::{FileManager, FileStatus, WatchAction, WatchEvent};
use source_wrench::import::{Animation, Bone, FileData};
use source_wrench::utilities::mathematics::AxisDirection;
use std::sync::Arc;

fn file(bones: &[&str]) -> FileData {
    let mut data = FileData::new(AxisDirection::PositiveZ, AxisDirection::NegativeY);
    for (i, name) in bones.iter().enumerate() {
        let parent = if i == 0 { None } else { Some(i - 1) };
        data.skeleton.insert_full(name.to_string(), Bone { parent });
    }
    data.animations.insert_full(
        "idle".to_string(),
        Animation { frame_count: 1, channel_bones: IndexSet::new(), channels: vec![] },
    );
    data
}

fn is_loading(status: Option<FileStatus>) -> bool {
    matches!(status, Some(FileStatus::Loading))
}

fn is_failed(status: Option<FileStatus>) -> bool {
    matches!(status, Some(FileStatus::Failed))
}

#[test]
fn first_load_starts_a_load() {
    let mut manager = FileManager::new();
    assert!(manager.get_file_status("a.dmx").is_none());
    assert!(manager.load_file("a.dmx".to_string()));
    assert!(is_loading(manager.get_file_status("a.dmx")));
    assert!(manager.get_file_data("a.dmx").is_none());
}

#[test]
fn second_load_only_counts() {
    let mut manager = FileManager::new();
    assert!(manager.load_file("a.dmx".to_string()));
    assert!(!manager.load_file("a.dmx".to_string()));
    assert!(!manager.unload_file("a.dmx"));
    assert!(is_loading(manager.get_file_status("a.dmx")));
    assert!(manager.unload_file("a.dmx"));
    assert!(manager.get_file_status("a.dmx").is_none());
}

#[test]
fn unload_of_an_unknown_path_does_nothing() {
    let mut manager = FileManager::new();
    assert!(!manager.unload_file("a.dmx"));
    assert!(manager.load_file("b.dmx".to_string()));
    assert!(!manager.unload_file("a.dmx"));
    assert!(is_loading(manager.get_file_status("b.dmx")));
}

#[test]
fn finished_load_publishes_the_data() {
    let mut manager = FileManager::new();
    manager.load_file("a.dmx".to_string());
    manager.finish_load("a.dmx", Some(file(&["root"])));
    let data = manager.get_file_data("a.dmx").unwrap();
    assert_eq!(data.skeleton.len(), 1);
    assert!(matches!(manager.get_file_status("a.dmx"), Some(FileStatus::Loaded(_))));
}

#[test]
fn failed_load_marks_the_file_failed() {
    let mut manager = FileManager::new();
    manager.load_file("a.dmx".to_string());
    manager.finish_load("a.dmx", None);
    assert!(is_failed(manager.get_file_status("a.dmx")));
    assert!(manager.get_file_data("a.dmx").is_none());
}

#[test]
fn data_that_is_not_well_formed_counts_as_failed() {
    let mut manager = FileManager::new();
    manager.load_file("empty.dmx".to_string());
    manager.finish_load("empty.dmx", Some(file(&[])));
    assert!(is_failed(manager.get_file_status("empty.dmx")));

    manager.load_file("parallel.dmx".to_string());
    let mut data = file(&["root"]);
    data.forward = AxisDirection::NegativeZ;
    manager.finish_load("parallel.dmx", Some(data));
    assert!(is_failed(manager.get_file_status("parallel.dmx")));

    manager.load_file("orphan.dmx".to_string());
    let mut data = file(&["root"]);
    data.skeleton.insert_full("limb".to_string(), Bone { parent: Some(1) });
    manager.finish_load("orphan.dmx", Some(data));
    assert!(is_failed(manager.get_file_status("orphan.dmx")));
}

#[test]
fn result_for_a_path_that_left_is_dropped() {
    let mut manager = FileManager::new();
    manager.load_file("a.dmx".to_string());
    manager.unload_file("a.dmx");
    manager.finish_load("a.dmx", Some(file(&["root"])));
    assert!(manager.get_file_status("a.dmx").is_none());
}

#[test]
fn reload_on_modify_keeps_the_old_data_alive() {
    let mut manager = FileManager::new();
    manager.load_file("p.dmx".to_string());
    manager.finish_load("p.dmx", Some(file(&["root"])));
    let first: Arc<FileData> = manager.get_file_data("p.dmx").unwrap();

    assert_eq!(manager.watch_event(WatchEvent::Modified, "p.dmx"), WatchAction::Reload);
    assert!(is_loading(manager.get_file_status("p.dmx")));
    assert!(manager.get_file_data("p.dmx").is_none());

    manager.finish_load("p.dmx", Some(file(&["root", "spine"])));
    let second = manager.get_file_data("p.dmx").unwrap();
    assert_eq!(second.skeleton.len(), 2);
    assert_eq!(first.skeleton.len(), 1);
    assert_eq!(first.skeleton.name_at(0), "root");
}

#[test]
fn modify_while_loading_is_ignored() {
    let mut manager = FileManager::new();
    manager.load_file("p.dmx".to_string());
    assert_eq!(manager.watch_event(WatchEvent::Modified, "p.dmx"), WatchAction::Nothing);
    assert!(is_loading(manager.get_file_status("p.dmx")));
}

#[test]
fn modify_of_a_failed_file_loads_it_again() {
    let mut manager = FileManager::new();
    manager.load_file("p.dmx".to_string());
    manager.finish_load("p.dmx", None);
    assert_eq!(manager.watch_event(WatchEvent::Modified, "p.dmx"), WatchAction::Reload);
    assert!(is_loading(manager.get_file_status("p.dmx")));
}

#[test]
fn remove_marks_the_file_failed_and_keeps_the_entry() {
    let mut manager = FileManager::new();
    manager.load_file("p.dmx".to_string());
    manager.load_file("p.dmx".to_string());
    manager.finish_load("p.dmx", Some(file(&["root"])));
    assert_eq!(manager.watch_event(WatchEvent::Removed, "p.dmx"), WatchAction::Nothing);
    assert!(is_failed(manager.get_file_status("p.dmx")));
    assert!(!manager.unload_file("p.dmx"));
    assert!(is_failed(manager.get_file_status("p.dmx")));
    assert!(manager.unload_file("p.dmx"));
}

#[test]
fn events_for_unknown_paths_change_nothing() {
    let mut manager = FileManager::new();
    assert_eq!(manager.watch_event(WatchEvent::Modified, "x.dmx"), WatchAction::Reload);
    assert_eq!(manager.watch_event(WatchEvent::Removed, "x.dmx"), WatchAction::Nothing);
    assert_eq!(manager.watch_event(WatchEvent::Other, "x.dmx"), WatchAction::Nothing);
    assert!(manager.get_file_status("x.dmx").is_none());
}

#[test]
fn other_events_leave_the_status() {
    let mut manager = FileManager::new();
    manager.load_file("p.dmx".to_string());
    manager.finish_load("p.dmx", Some(file(&["root"])));
    assert_eq!(manager.watch_event(WatchEvent::Other, "p.dmx"), WatchAction::Nothing);
    assert!(manager.get_file_data("p.dmx").is_some());
}

#[test]
fn paths_are_independent() {
    let mut manager = FileManager::new();
    manager.load_file("a.dmx".to_string());
    manager.load_file("b.dmx".to_string());
    manager.finish_load("a.dmx", Some(file(&["root"])));
    assert!(is_loading(manager.get_file_status("b.dmx")));
    manager.unload_file("a.dmx");
    assert!(is_loading(manager.get_file_status("b.dmx")));
    assert!(manager.get_file_status("a.dmx").is_none());
}

#[test]
fn default_status_is_loading() {
    assert!(matches!(FileStatus::default(), FileStatus::Loading));
    assert!(matches!(FileStatus::Failed.duplicate(), FileStatus::Failed));
}
