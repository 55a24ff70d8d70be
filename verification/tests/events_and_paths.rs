use hellforge::archive::{extraction_path_of, unpack_archive, ArchiveError};
use hellforge::event::{
    fetch_url, log_line, poll_for_update, update_available, PollDecision, SyncEvent,
};
use hellforge::path::{is_absolute_path, join_path, path_components, relative_path};
use hellforge::text::{ends_with, is_whitespace_char, same_text, trim, trim_end};
use hellforge::watcher::{
    decide_upload, is_fetch_command, is_meta_path, next_upload_candidate, UploadDecision,
};
use hellforge::sync_state::SyncState;
use std::io::Write;

#[test]
fn trims_like_std() {
    for s in ["", "  ", " true\n", "\u{3000}x y\u{2009}", "\tfetch  ", "a"] {
        assert_eq!(trim(s), s.trim());
        assert_eq!(trim_end(s), s.trim_end());
    }
    assert!(is_whitespace_char('\u{85}'));
    assert!(!is_whitespace_char('x'));
}

#[test]
fn suffix_and_equality() {
    assert!(ends_with("notes.meta", ".meta"));
    assert!(!ends_with("notes.metadata", ".meta"));
    assert!(!ends_with("meta", ".meta"));
    assert!(ends_with(".meta", ".meta"));
    assert!(same_text("abc", "abc"));
    assert!(!same_text("abc", "abd"));
}

#[test]
fn event_fields() {
    let e = SyncEvent::new("/w/a.txt", "/w".to_string(), "2024-01-01T00:00:00+00:00".to_string());
    assert_eq!(e.timestamp, "2024-01-01T00:00:00+00:00");
    assert_eq!(e.event_kind, "Modify");
    assert_eq!(e.path, "/w/a.txt");
    assert_eq!(e.watched_path, "/w");
    let n = SyncEvent::new("b.txt", "./watched".to_string(), String::new());
    assert_eq!(n.event_kind, "Modify");
    assert_eq!(n.path, "b.txt");
    assert_eq!(n.watched_path, "./watched");
    assert_eq!(n.timestamp, "");
}

#[test]
fn log_line_format() {
    assert_eq!(log_line("2024-05-01 10:00:00", "Create(File)", "/w/a"), "[2024-05-01 10:00:00] [Create(File)] - /w/a");
}

#[test]
fn fetch_url_format() {
    assert_eq!(fetch_url("10.0.0.2"), "http://10.0.0.2:8443/fetch");
}

#[test]
fn update_check_answers() {
    assert!(update_available(200, "true"));
    assert!(update_available(200, " true\n"));
    assert!(!update_available(200, "false"));
    assert!(!update_available(200, "True"));
    assert!(!update_available(204, "true"));
    assert!(!update_available(204, ""));
    assert!(!update_available(500, "true"));
}

#[test]
fn poll_decisions() {
    assert!(matches!(poll_for_update::<String>(Ok(true)), PollDecision::Receive));
    assert!(matches!(poll_for_update::<String>(Ok(false)), PollDecision::Finish(Ok(()))));
    match poll_for_update::<String>(Err("down".to_string())) {
        PollDecision::Finish(Err(e)) => assert_eq!(e, "down"),
        _ => panic!("expected the check's error"),
    }
}

#[test]
fn components_of_paths() {
    assert_eq!(path_components("/w//a/b/"), vec!["w", "a", "b"]);
    assert_eq!(path_components(""), Vec::<String>::new());
    assert_eq!(path_components("/"), Vec::<String>::new());
    assert!(is_absolute_path("/x"));
    assert!(!is_absolute_path("x/"));
    assert_eq!(join_path(&vec!["a".to_string(), "b".to_string()]), "a/b");
}

#[test]
fn relative_paths() {
    assert_eq!(relative_path("/home/u/watched/a/b.txt", "/home/u/watched"), Some("a/b.txt".to_string()));
    assert_eq!(relative_path("/home/u/watched", "/home/u/watched"), Some(String::new()));
    assert_eq!(relative_path("/home/u/watchedx/a", "/home/u/watched"), None);
    assert_eq!(relative_path("/a/b", "/a/b/c"), None);
    assert_eq!(relative_path("a/b", "/a"), None);
    assert_eq!(relative_path("/a/b", "/"), Some("a/b".to_string()));
    assert_eq!(relative_path("/w//a/", "/w/"), Some("a".to_string()));
    for (full, base) in [("/w/a/b", "/w"), ("/w/a", "/w/a"), ("x/y", "x")] {
        let std = std::path::Path::new(full).strip_prefix(base).ok().map(|p| p.to_string_lossy().to_string());
        assert_eq!(relative_path(full, base), std);
    }
}

#[test]
fn meta_and_fetch_command() {
    assert!(is_meta_path("/w/x.meta"));
    assert!(!is_meta_path("/w/x.txt"));
    assert!(is_fetch_command("fetch\n"));
    assert!(is_fetch_command("fetch \r\n"));
    assert!(!is_fetch_command(" fetch"));
    assert!(!is_fetch_command("fetchall"));
}

#[test]
fn candidates_skip_meta_files() {
    let paths = vec!["a.meta".to_string(), "b.txt".to_string(), "c.meta".to_string(), "d".to_string()];
    assert_eq!(next_upload_candidate(&paths, 0), Some(1));
    assert_eq!(next_upload_candidate(&paths, 2), Some(3));
    assert_eq!(next_upload_candidate(&paths, 4), None);
    let only_meta = vec!["x.meta".to_string()];
    assert_eq!(next_upload_candidate(&only_meta, 0), None);
}

#[test]
fn upload_decision() {
    let mut s = SyncState::new();
    assert_eq!(decide_upload(&mut s, "/w/a", "h".to_string()), UploadDecision::Upload);
    assert_eq!(s.hash_of("/w/a"), Some("h".to_string()));
    assert_eq!(decide_upload(&mut s, "/w/a", "h".to_string()), UploadDecision::SkipUnchanged);
    assert_eq!(decide_upload(&mut s, "/w/a", "g".to_string()), UploadDecision::Upload);
}

fn zip_of(entries: &[(&str, &[u8])]) -> Vec<u8> {
    zip_with(entries, zip::CompressionMethod::Deflated)
}

fn zip_with(entries: &[(&str, &[u8])], method: zip::CompressionMethod) -> Vec<u8> {
    let mut w = zip::ZipWriter::new(std::io::Cursor::new(Vec::new()));
    let opts = zip::write::SimpleFileOptions::default().compression_method(method);
    for (name, data) in entries {
        w.start_file(*name, opts).unwrap();
        w.write_all(data).unwrap();
    }
    w.finish().unwrap().into_inner()
}

#[test]
fn unpacks_entries_in_order() {
    let bytes = zip_of(&[("a.txt", b"alpha"), ("dir/b.bin", &[0u8, 1, 2, 3])]);
    let u = unpack_archive(bytes);
    assert!(u.failure.is_none());
    assert_eq!(u.files.len(), 2);
    assert_eq!(u.files[0].path, "./watched/a.txt");
    assert_eq!(u.files[0].contents, b"alpha");
    assert_eq!(u.files[1].path, "./watched/dir/b.bin");
    assert_eq!(u.files[1].contents, vec![0u8, 1, 2, 3]);
}

#[test]
fn empty_archive_unpacks_nothing() {
    let u = unpack_archive(zip_of(&[]));
    assert!(u.failure.is_none());
    assert!(u.files.is_empty());
}

#[test]
fn garbage_is_not_an_archive() {
    let u = unpack_archive(b"this is not a zip file".to_vec());
    assert!(u.files.is_empty());
    assert!(matches!(u.failure, Some(ArchiveError::Unreadable(_))));
}

#[test]
fn extraction_path_format() {
    assert_eq!(extraction_path_of("x/y.txt"), "./watched/x/y.txt");
}

#[test]
fn stripped_path_joins_back_onto_base() {
    for (full, base) in [("/srv/w/a/b.txt", "/srv/w"), ("/srv/w", "/srv/w"), ("/x", "/"), ("d/e/f", "d")] {
        let rel = relative_path(full, base).expect("base is a prefix");
        let joined = std::path::Path::new(base).join(&rel);
        assert_eq!(path_components(&joined.to_string_lossy()), path_components(full));
        assert_eq!(is_absolute_path(&joined.to_string_lossy()), is_absolute_path(full));
    }
}

#[test]
fn trimming_twice_changes_nothing() {
    for s in ["  a b  ", "\n\t", "x", "\u{2028}y\u{2029}"] {
        let once = trim(s);
        assert_eq!(trim(&once), once);
        assert!(!once.starts_with(char::is_whitespace));
        assert!(!once.ends_with(char::is_whitespace));
    }
}

fn handle_once(state: &mut SyncState, paths: &Vec<String>, contents: &dyn Fn(&str) -> String) -> usize {
    let mut sent = 0;
    let mut from = 0;
    while let Some(j) = next_upload_candidate(paths, from) {
        if decide_upload(state, &paths[j], contents(&paths[j])) == UploadDecision::Upload {
            sent += 1;
        }
        from = j + 1;
    }
    sent
}

#[test]
fn rehandling_an_unchanged_event_sends_nothing() {
    let paths = vec!["/w/a".to_string(), "/w/b.meta".to_string(), "/w/c".to_string(), "/w/a".to_string()];
    let contents = |p: &str| hellforge::digest::content_hash(p.as_bytes());
    let mut state = SyncState::new();
    assert_eq!(handle_once(&mut state, &paths, &contents), 2);
    let before = state.pairs();
    assert_eq!(handle_once(&mut state, &paths, &contents), 0);
    let mut after = state.pairs();
    let mut b = before.clone();
    b.sort();
    after.sort();
    assert_eq!(after, b);
    assert_eq!(state.hash_of("/w/b.meta"), None);
}

#[test]
fn damaged_entry_is_written_as_copied_then_unpacking_stops() {
    let mut bytes = zip_with(
        &[("a.txt", b"first entry"), ("b.txt", b"second entry!"), ("c.txt", b"third")],
        zip::CompressionMethod::Stored,
    );
    let at = bytes.windows(13).position(|w| w == b"second entry!").unwrap();
    bytes[at] = b'S';
    let u = unpack_archive(bytes);
    assert_eq!(u.files.len(), 2);
    assert_eq!(u.files[0].contents, b"first entry");
    assert_eq!(u.files[1].path, "./watched/b.txt");
    assert_eq!(u.files[1].contents, b"Second entry!");
    assert!(matches!(u.failure, Some(ArchiveError::Copy(1, _))));
}
