use aurora_index::clock::system_time_to_unix;
use aurora_index::extract::entry_to_file_info;
use aurora_index::index::FileIndex;
use aurora_index::watcher::{
    handle_file_event, normalize_watch_paths, stop_watching_inner, watch_set_paths, FileChange,
    PathProbe, WatchError, WatcherState,
};

fn probe(path: &str, exists: bool, is_dir: bool) -> PathProbe {
    PathProbe { path: path.to_string(), exists, is_dir }
}

#[test]
fn empty_watch_set_is_refused() {
    let mut state = WatcherState::new();
    let res = watch_set_paths(&mut state, &vec![]);
    assert!(res.is_err());
    assert!(!state.active);
    assert_eq!(state.watched.len(), 0);
}

#[test]
fn invalid_paths_leave_the_watcher_idle() {
    let mut state = WatcherState::new();
    let probes = vec![
        probe("/nonexistent", false, false),
        probe("relative/dir", true, true),
        probe("/a/file.txt", true, false),
    ];
    let res = watch_set_paths(&mut state, &probes);
    assert!(matches!(res, Err(WatchError::NoValidPaths)));
    assert!(!state.active);
    assert_eq!(state.watched.len(), 0);
    assert_eq!(
        WatchError::NoValidPaths.describe(),
        "No valid watch paths provided"
    );
}

#[test]
fn valid_directories_start_a_session() {
    let mut state = WatcherState::new();
    let probes = vec![
        probe("/home/user/docs", true, true),
        probe("/nonexistent", false, false),
        probe("/home/user/music", true, true),
    ];
    let res = watch_set_paths(&mut state, &probes);
    assert!(res.is_ok());
    assert!(state.active);
    assert_eq!(state.watched.len(), 2);
    assert_eq!(state.watched[0], "/home/user/docs");
    assert_eq!(state.watched[1], "/home/user/music");

    // replacing the set stops the old session first
    let res2 = watch_set_paths(&mut state, &vec![probe("/tmp/x", false, false)]);
    assert!(res2.is_err());
    assert!(!state.active);
    assert_eq!(state.watched.len(), 0);
}

#[test]
fn stop_returns_to_idle() {
    let mut state = WatcherState::new();
    let res = watch_set_paths(&mut state, &vec![probe("/srv/data", true, true)]);
    assert!(res.is_ok());
    stop_watching_inner(&mut state);
    assert!(!state.active);
    assert_eq!(state.watched.len(), 0);
}

#[test]
fn candidate_paths_are_trimmed_and_deduplicated() {
    let input = vec![
        "  /home/user/docs  ".to_string(),
        "/home/user/docs".to_string(),
        "   ".to_string(),
        "".to_string(),
        "/home/user/music".to_string(),
    ];
    let r = normalize_watch_paths(&input);
    assert_eq!(r.len(), 2);
    assert_eq!(r[0], "/home/user/docs");
    assert_eq!(r[1], "/home/user/music");
}

#[test]
fn created_and_removed_events_mutate_the_index() {
    let mut ix = FileIndex::new();
    let f = entry_to_file_info("/w/new.txt".to_string(), 4, Some(10), Some(20));
    let n = handle_file_event(&mut ix, &FileChange::Created(vec![f]));
    assert_eq!(n, 1);
    assert_eq!(ix.get_file_count(), 1);

    let g = entry_to_file_info("/w/new.txt".to_string(), 9, Some(10), Some(30));
    let n2 = handle_file_event(&mut ix, &FileChange::Modified(vec![g]));
    assert_eq!(n2, 1);
    assert_eq!(ix.get_file_count(), 1);
    assert_eq!(ix.files[0].size, 9);
    assert_eq!(ix.files[0].modified_at, 30);

    let n3 = handle_file_event(&mut ix, &FileChange::Removed(vec!["/w/new.txt".to_string()]));
    assert_eq!(n3, 1);
    assert_eq!(ix.get_file_count(), 0);
    assert_eq!(ix.shadow.len(), 0);
}

#[test]
fn extractor_derives_name_and_type() {
    let f = entry_to_file_info("/a/b/notes.txt".to_string(), 5, Some(10), Some(20));
    assert_eq!(f.name, "notes.txt");
    assert_eq!(f.file_type, "txt");
    assert_eq!(f.size, 5);
    assert_eq!(f.created_at, 10);
    assert_eq!(f.modified_at, 20);
    assert_eq!(f.id, None);

    let hidden = entry_to_file_info("/home/.bashrc".to_string(), 1, None, None);
    assert_eq!(hidden.name, ".bashrc");
    assert_eq!(hidden.file_type, "");
    assert_eq!(hidden.created_at, 0);
    assert_eq!(hidden.modified_at, 0);

    let tar = entry_to_file_info("/x/archive.tar.gz".to_string(), 1, Some(1), Some(2));
    assert_eq!(tar.name, "archive.tar.gz");
    assert_eq!(tar.file_type, "gz");

    let bare = entry_to_file_info("plain".to_string(), 1, Some(1), Some(2));
    assert_eq!(bare.name, "plain");
    assert_eq!(bare.file_type, "");

    let odd = entry_to_file_info("/ends/with/".to_string(), 1, Some(1), Some(2));
    assert_eq!(odd.name, "Unknown");
}

#[test]
fn system_clock_values_become_unix_seconds() {
    let t = std::time::UNIX_EPOCH + std::time::Duration::from_secs(1234);
    assert_eq!(system_time_to_unix(t), 1234);
    let before = std::time::UNIX_EPOCH - std::time::Duration::from_secs(10);
    assert_eq!(system_time_to_unix(before), 0);
}
