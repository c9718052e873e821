use playlist_migrate::export::{extract_songs, find, songs_from_entries, text_field, ExtractError, Node};
use playlist_migrate::pipeline::{batches, collect_ids, Submission, MAX_BATCH};
use playlist_migrate::song::Song;

fn text(s: &str) -> Node {
    Node::Text(s.to_string())
}

fn track(artist: &str, name: &str, album: &str) -> Node {
    Node::Dict(vec![
        ("Artist".to_string(), text(artist)),
        ("Name".to_string(), text(name)),
        ("Album".to_string(), text(album)),
    ])
}

fn export_of(tracks: Vec<(String, Node)>) -> Node {
    Node::Dict(vec![
        ("Major Version".to_string(), Node::Other),
        ("Tracks".to_string(), Node::Dict(tracks)),
    ])
}

fn ids(n: usize) -> Vec<String> {
    (0..n).map(|i| format!("id{}", i)).collect()
}

#[test]
fn search_term_is_title_artist_album() {
    let s = Song::new("The Beatles".to_string(), "Yesterday".to_string(), "Help!".to_string());
    assert_eq!(s.as_search_term(), "Yesterday The Beatles Help!");
}

#[test]
fn search_term_keeps_text_verbatim() {
    let s = Song::new("  a ".to_string(), "".to_string(), "C\"d".to_string());
    assert_eq!(s.as_search_term(), "   a  C\"d");
}

#[test]
fn new_song_is_unmatched() {
    let s = Song::new("A".to_string(), "B".to_string(), "C".to_string());
    assert_eq!(s.artist, "A");
    assert_eq!(s.name, "B");
    assert_eq!(s.album, "C");
    assert!(s.uri.is_none());
}

#[test]
fn one_track_end_to_end() {
    let root = export_of(vec![("1".to_string(), track("A", "B", "C"))]);
    let songs = extract_songs(&root).unwrap();
    assert_eq!(songs.len(), 1);
    assert_eq!(songs[0].artist, "A");
    assert_eq!(songs[0].name, "B");
    assert_eq!(songs[0].album, "C");
    let tops: Vec<Option<String>> = songs.iter().map(|_| Some("id1".to_string())).collect();
    let found = collect_ids(&tops);
    assert_eq!(found, vec!["id1".to_string()]);
    let b = batches(&found, MAX_BATCH);
    assert_eq!(b, vec![vec!["id1".to_string()]]);
}

#[test]
fn hundred_fifty_ids_make_two_batches() {
    let all = ids(150);
    let b = batches(&all, 75);
    assert_eq!(b.len(), 2);
    assert_eq!(b[0], all[0..75].to_vec());
    assert_eq!(b[1], all[75..150].to_vec());
}

#[test]
fn no_tracks_key_gives_no_songs() {
    let root = Node::Dict(vec![("Playlists".to_string(), Node::Dict(vec![]))]);
    let songs = extract_songs(&root).unwrap();
    assert!(songs.is_empty());
    let tops: Vec<Option<String>> = Vec::new();
    let found = collect_ids(&tops);
    assert!(found.is_empty());
    assert!(batches(&found, MAX_BATCH).is_empty());
}

#[test]
fn root_that_is_not_a_map_gives_no_songs() {
    assert!(extract_songs(&Node::Other).unwrap().is_empty());
    assert!(extract_songs(&text("x")).unwrap().is_empty());
}

#[test]
fn tracks_that_is_not_a_map_gives_no_songs() {
    let root = Node::Dict(vec![("Tracks".to_string(), text("none"))]);
    assert!(extract_songs(&root).unwrap().is_empty());
}

#[test]
fn songs_keep_map_order() {
    let root = export_of(vec![
        ("9".to_string(), track("a9", "n9", "b9")),
        ("2".to_string(), Node::Other),
        ("5".to_string(), track("a5", "n5", "b5")),
    ]);
    let songs = extract_songs(&root).unwrap();
    let names: Vec<&str> = songs.iter().map(|s| s.name.as_str()).collect();
    assert_eq!(names, vec!["n9", "n5"]);
}

#[test]
fn missing_field_is_malformed_entry() {
    let bad = Node::Dict(vec![
        ("Artist".to_string(), text("A")),
        ("Name".to_string(), text("B")),
    ]);
    let root = export_of(vec![
        ("1".to_string(), track("A", "B", "C")),
        ("7".to_string(), bad),
        ("8".to_string(), track("D", "E", "F")),
    ]);
    match extract_songs(&root) {
        Err(ExtractError::MalformedEntry { key }) => assert_eq!(key, "7"),
        Ok(_) => panic!("expected an error"),
    }
}

#[test]
fn field_that_is_not_text_is_malformed_entry() {
    let bad = Node::Dict(vec![
        ("Artist".to_string(), text("A")),
        ("Name".to_string(), Node::Other),
        ("Album".to_string(), text("C")),
    ]);
    match songs_from_entries(&vec![("42".to_string(), bad)]) {
        Err(ExtractError::MalformedEntry { key }) => assert_eq!(key, "42"),
        Ok(_) => panic!("expected an error"),
    }
}

#[test]
fn find_takes_first_entry_of_a_key() {
    let entries = vec![
        ("k".to_string(), text("first")),
        ("k".to_string(), text("second")),
    ];
    match find(&entries, &"k".to_string()) {
        Some(Node::Text(s)) => assert_eq!(s, "first"),
        _ => panic!("expected the first entry"),
    }
    assert!(find(&entries, &"x".to_string()).is_none());
    assert_eq!(text_field(&entries, &"k".to_string()), Some("first".to_string()));
}

#[test]
fn unmatched_tracks_are_dropped_in_order() {
    let tops = vec![
        Some("a".to_string()),
        None,
        Some("b".to_string()),
        None,
        Some("c".to_string()),
    ];
    assert_eq!(collect_ids(&tops), vec!["a".to_string(), "b".to_string(), "c".to_string()]);
}

#[test]
fn no_match_at_all_sends_nothing() {
    let tops: Vec<Option<String>> = vec![None, None, None];
    let found = collect_ids(&tops);
    assert!(found.is_empty());
    assert!(batches(&found, MAX_BATCH).is_empty());
}

#[test]
fn batches_partition_in_order() {
    let all = ids(10);
    let b = batches(&all, 3);
    assert_eq!(b.len(), 4);
    assert_eq!(b.iter().map(|v| v.len()).collect::<Vec<_>>(), vec![3, 3, 3, 1]);
    assert_eq!(b.concat(), all);
}

#[test]
fn batch_edges() {
    assert_eq!(batches(&ids(75), 75).len(), 1);
    assert_eq!(batches(&ids(76), 75).len(), 2);
    assert_eq!(batches(&ids(76), 75)[1], vec!["id75".to_string()]);
    assert_eq!(batches(&ids(3), 1).len(), 3);
}

#[test]
fn failed_batch_does_not_stop_the_next() {
    let mut s = Submission::start(3);
    assert_eq!(s.pending(), Some(0));
    s.record(false);
    assert_eq!(s.pending(), Some(1));
    s.record(true);
    assert_eq!(s.pending(), Some(2));
    s.record(false);
    assert_eq!(s.pending(), None);
    assert_eq!(s.failed, 2);
    assert_eq!(s.accepted(), 1);
}

#[test]
fn no_batches_means_nothing_pending() {
    let s = Submission::start(0);
    assert_eq!(s.pending(), None);
    assert_eq!(s.accepted(), 0);
}
