use csv_importer::event::{
    AccessKind, AccessMode, ChangeEvent, CreateKind, DataChange, EventKind, MetadataKind,
    ModifyKind, RemoveKind, RenameMode,
};
use csv_importer::notify_logic::{
    get_csv_paths_from_notify_event, is_csv_extension, is_event_move_into_or_write,
};

fn access_modes() -> Vec<AccessMode> {
    vec![AccessMode::Any, AccessMode::Execute, AccessMode::Read, AccessMode::Write, AccessMode::Other]
}

fn all_kinds() -> Vec<EventKind> {
    let mut kinds = vec![EventKind::Any, EventKind::Other];
    for kind in [AccessKind::Any, AccessKind::Read, AccessKind::Other] {
        kinds.push(EventKind::Access(kind));
    }
    for mode in access_modes() {
        kinds.push(EventKind::Access(AccessKind::Open(mode)));
        kinds.push(EventKind::Access(AccessKind::Close(mode)));
    }
    for kind in [CreateKind::Any, CreateKind::File, CreateKind::Folder, CreateKind::Other] {
        kinds.push(EventKind::Create(kind));
    }
    kinds.push(EventKind::Modify(ModifyKind::Any));
    kinds.push(EventKind::Modify(ModifyKind::Other));
    for change in [DataChange::Any, DataChange::Size, DataChange::Content, DataChange::Other] {
        kinds.push(EventKind::Modify(ModifyKind::Data(change)));
    }
    for kind in [
        MetadataKind::Any,
        MetadataKind::AccessTime,
        MetadataKind::WriteTime,
        MetadataKind::Permissions,
        MetadataKind::Ownership,
        MetadataKind::Extended,
        MetadataKind::Other,
    ] {
        kinds.push(EventKind::Modify(ModifyKind::Metadata(kind)));
    }
    for mode in [RenameMode::Any, RenameMode::To, RenameMode::From, RenameMode::Both, RenameMode::Other] {
        kinds.push(EventKind::Modify(ModifyKind::Name(mode)));
    }
    for kind in [RemoveKind::Any, RemoveKind::File, RemoveKind::Folder, RemoveKind::Other] {
        kinds.push(EventKind::Remove(kind));
    }
    kinds
}

fn event(paths: &[&str]) -> ChangeEvent {
    ChangeEvent {
        kind: EventKind::Access(AccessKind::Close(AccessMode::Write)),
        paths: paths.iter().map(|path| path.to_string()).collect(),
    }
}

fn candidates(paths: &[&str]) -> Vec<String> {
    get_csv_paths_from_notify_event(&event(paths))
}

#[test]
fn rename_into_is_ready() {
    assert!(is_event_move_into_or_write(EventKind::Modify(ModifyKind::Name(RenameMode::To))));
}

#[test]
fn close_after_write_is_ready() {
    assert!(is_event_move_into_or_write(EventKind::Access(AccessKind::Close(AccessMode::Write))));
}

#[test]
fn exactly_two_kinds_are_ready() {
    let kinds = all_kinds();
    assert_eq!(kinds.len(), 41);
    let ready: Vec<EventKind> =
        kinds.into_iter().filter(|kind| is_event_move_into_or_write(*kind)).collect();
    assert_eq!(
        ready,
        vec![
            EventKind::Access(AccessKind::Close(AccessMode::Write)),
            EventKind::Modify(ModifyKind::Name(RenameMode::To)),
        ]
    );
}

#[test]
fn near_misses_are_not_ready() {
    assert!(!is_event_move_into_or_write(EventKind::Modify(ModifyKind::Name(RenameMode::From))));
    assert!(!is_event_move_into_or_write(EventKind::Modify(ModifyKind::Name(RenameMode::Both))));
    assert!(!is_event_move_into_or_write(EventKind::Modify(ModifyKind::Data(DataChange::Content))));
    assert!(!is_event_move_into_or_write(EventKind::Access(AccessKind::Close(AccessMode::Read))));
    assert!(!is_event_move_into_or_write(EventKind::Access(AccessKind::Open(AccessMode::Write))));
    assert!(!is_event_move_into_or_write(EventKind::Create(CreateKind::File)));
}

#[test]
fn mixed_event_keeps_csv_paths_in_order() {
    assert_eq!(candidates(&["a.csv", "b.txt", "c.csv"]), vec!["a.csv".to_string(), "c.csv".to_string()]);
}

#[test]
fn event_without_paths_has_no_candidates() {
    assert_eq!(candidates(&[]), Vec::<String>::new());
    assert_eq!(candidates(&["a.txt", "b"]), Vec::<String>::new());
}

#[test]
fn extension_is_case_sensitive() {
    assert_eq!(candidates(&["a.CSV", "b.Csv", "c.csv"]), vec!["c.csv".to_string()]);
}

#[test]
fn extension_is_what_follows_the_last_dot_of_the_file_name() {
    assert_eq!(
        candidates(&["dir/a.csv", "a.csv.bak", "a.tar.csv", "csv", ".csv", "dir.csv/file", "a.csvx", "a.", "x/.csv"]),
        vec!["dir/a.csv".to_string(), "a.tar.csv".to_string()]
    );
}

#[test]
fn repeated_path_is_kept_twice() {
    assert_eq!(candidates(&["a.csv", "a.csv"]), vec!["a.csv".to_string(), "a.csv".to_string()]);
}

#[test]
fn candidates_do_not_depend_on_the_kind() {
    let event = ChangeEvent { kind: EventKind::Other, paths: vec!["a.csv".to_string()] };
    assert_eq!(get_csv_paths_from_notify_event(&event), vec!["a.csv".to_string()]);
}

#[test]
fn only_the_extension_csv_marks_an_input_file() {
    assert!(is_csv_extension(&Some("csv".to_string())));
    assert!(!is_csv_extension(&None));
    for other in ["", "CSV", "cs", "csvv", "txt", "c sv", "ｃsv"] {
        assert!(!is_csv_extension(&Some(other.to_string())), "extension {:?}", other);
    }
}
