use hellforge::config::{mode_from_name, poll_schedule, Config, Mode, PollSchedule};
use hellforge::digest::{content_hash, to_hex_lower, ContentHasher};
use hellforge::sync_state::SyncState;

#[test]
fn default_config_values() {
    let c = Config::default();
    assert_eq!(c.watched_path, "./watched");
    assert_eq!(c.server_ip, "192.168.125");
    assert_eq!(c.mode, "instant");
    assert_eq!(c.interval_in_secs, 10);
}

#[test]
fn mode_names() {
    assert_eq!(mode_from_name("instant"), Some(Mode::Instant));
    assert_eq!(mode_from_name("auto"), Some(Mode::Auto));
    assert_eq!(mode_from_name("manual"), Some(Mode::Manual));
    assert_eq!(mode_from_name("Auto"), None);
    assert_eq!(mode_from_name(""), None);
}

#[test]
fn schedule_per_mode() {
    let mut c = Config::default();
    assert_eq!(poll_schedule(&c), PollSchedule::Every(5));
    c.mode = "auto".to_string();
    c.interval_in_secs = 42;
    assert_eq!(poll_schedule(&c), PollSchedule::Every(42));
    c.mode = "manual".to_string();
    assert_eq!(poll_schedule(&c), PollSchedule::OnFetchCommand);
    c.mode = "sometimes".to_string();
    assert_eq!(poll_schedule(&c), PollSchedule::UnknownMode);
}

#[test]
fn first_sight_of_a_file_uploads() {
    let mut s = SyncState::new();
    assert_eq!(s.hash_of("a.txt"), None);
    assert!(s.should_upload("a.txt", "h1".to_string()));
    assert_eq!(s.hash_of("a.txt"), Some("h1".to_string()));
}

#[test]
fn unchanged_file_is_skipped_once_recorded() {
    let mut s = SyncState::new();
    assert!(s.should_upload("a.txt", "h1".to_string()));
    assert!(!s.should_upload("a.txt", "h1".to_string()));
    assert!(!s.should_upload("a.txt", "h1".to_string()));
    assert_eq!(s.hash_of("a.txt"), Some("h1".to_string()));
}

#[test]
fn changed_file_uploads_and_records_new_hash() {
    let mut s = SyncState::new();
    assert!(s.should_upload("a.txt", "h1".to_string()));
    assert!(s.should_upload("b.txt", "h9".to_string()));
    assert!(s.should_upload("a.txt", "h2".to_string()));
    assert_eq!(s.hash_of("a.txt"), Some("h2".to_string()));
    assert_eq!(s.hash_of("b.txt"), Some("h9".to_string()));
    assert!(!s.should_upload("a.txt", "h2".to_string()));
}

#[test]
fn from_pairs_later_pair_wins() {
    let s = SyncState::from_pairs(vec![
        ("a".to_string(), "1".to_string()),
        ("b".to_string(), "2".to_string()),
        ("a".to_string(), "3".to_string()),
    ]);
    assert_eq!(s.hash_of("a"), Some("3".to_string()));
    assert_eq!(s.hash_of("b"), Some("2".to_string()));
    assert_eq!(s.hash_of("c"), None);
    assert_eq!(s.pairs().len(), 2);
}

#[test]
fn pairs_load_back_in_any_order() {
    let mut s = SyncState::new();
    s.record("x".to_string(), "1".to_string());
    s.record("y".to_string(), "2".to_string());
    s.record("z".to_string(), "3".to_string());
    let mut p = s.pairs();
    p.reverse();
    let t = SyncState::from_pairs(p);
    for k in ["x", "y", "z", "w"] {
        assert_eq!(t.hash_of(k), s.hash_of(k));
    }
    let mut sorted = t.pairs();
    sorted.sort();
    assert_eq!(
        sorted,
        vec![
            ("x".to_string(), "1".to_string()),
            ("y".to_string(), "2".to_string()),
            ("z".to_string(), "3".to_string())
        ]
    );
}

#[test]
fn hex_of_bytes() {
    assert_eq!(to_hex_lower(&[10, 20, 30]), "0a141e");
    assert_eq!(to_hex_lower(&[]), "");
    assert_eq!(to_hex_lower(&[0x00, 0xff, 0x9a]), "00ff9a");
}

#[test]
fn sha256_known_values() {
    assert_eq!(
        content_hash(b""),
        "e3b0c44298fc1c149afbf4c8996fb92427ae41e4649b934ca495991b7852b855"
    );
    assert_eq!(
        content_hash(b"abc"),
        "ba7816bf8f01cfea414140de5dae2223b00361a396177a9cb410ff61f20015ad"
    );
}

#[test]
fn chunked_hash_equals_whole_hash() {
    let data: Vec<u8> = (0..10000u32).map(|i| (i % 251) as u8).collect();
    let mut h = ContentHasher::new();
    for chunk in data.chunks(4096) {
        h.update(chunk);
    }
    let chunked = h.finish();
    assert_eq!(chunked, content_hash(&data));
    assert_eq!(chunked.len(), 64);
    assert_ne!(chunked, content_hash(&data[1..]));
}

#[test]
fn different_contents_give_different_hash_texts() {
    assert_ne!(content_hash(b"a"), content_hash(b"b"));
    assert_ne!(to_hex_lower(&[1, 2]), to_hex_lower(&[1, 3]));
    assert_ne!(to_hex_lower(&[0x12]), to_hex_lower(&[0x21]));
}

#[test]
fn check_leaves_other_paths_alone() {
    let mut s = SyncState::from_pairs(vec![("keep".to_string(), "k".to_string())]);
    assert!(s.should_upload("new", "n".to_string()));
    assert_eq!(s.hash_of("keep"), Some("k".to_string()));
    assert!(!s.should_upload("keep", "k".to_string()));
}

#[test]
fn upload_again_only_when_digest_changes() {
    let mut s = SyncState::new();
    assert!(s.should_upload("f", content_hash(b"v1")));
    assert!(!s.should_upload("f", content_hash(b"v1")));
    assert!(s.should_upload("f", content_hash(b"v2")));
    assert!(!s.should_upload("f", content_hash(b"v2")));
}
