use batcher::diff::{check_comparable, diff, DiffEvent, DiffLine};
use batcher::display::{added_by, join_artists, playlist_rows};
use batcher::spotify::{
    cache_file_path, clone_target, clone_target_from_match, on_selection, parse_spotigit_args,
    search_offset, selection_labels, track_choice_label, track_link, CloneTarget,
    PlaylistSummary, SelectionAction, SpotigitCommand,
};
use batcher::track::{compare_items, get_playable_item_name, is_comparable, lazy_eval, Comparison, EpisodeInfo, ItemName, PlayableInfo, TrackInfo};

fn track(name: &str, artists: &[&str], album: &str, secs: i64) -> TrackInfo {
    TrackInfo {
        name: name.to_string(),
        artists: artists.iter().map(|s| s.to_string()).collect(),
        album: album.to_string(),
        duration_secs: secs,
        duration_nanos: 0,
    }
}

fn item(name: &str, secs: i64) -> Option<PlayableInfo> {
    Some(PlayableInfo::Track(track(name, &["Artist"], "Album", secs)))
}

fn episode(name: &str) -> Option<PlayableInfo> {
    Some(PlayableInfo::Episode(EpisodeInfo { name: name.to_string() }))
}

fn events(list: &[DiffLine]) -> Vec<(char, usize, usize)> {
    list.iter()
        .filter_map(|line| match line {
            DiffLine::Event(e) => Some(e),
            DiffLine::Compared { .. } => None,
        })
        .map(|e| match e {
            DiffEvent::Moved { from, to } => ('*', *from, *to),
            DiffEvent::Added { index } => ('>', *index, 0),
            DiffEvent::Removed { index, at } => ('-', *index, *at),
            DiffEvent::New { index } => ('+', *index, 0),
        })
        .collect()
}

#[test]
fn same_song_matches() {
    assert!(lazy_eval(&item("a", 100), &item("a", 100)));
}

#[test]
fn songs_differing_in_any_field_do_not_match() {
    assert!(!lazy_eval(&item("a", 100), &item("b", 100)));
    assert!(!lazy_eval(&item("a", 100), &item("a", 101)));
    let other_album = Some(PlayableInfo::Track(track("a", &["Artist"], "Other", 100)));
    assert!(!lazy_eval(&item("a", 100), &other_album));
    let two_artists = Some(PlayableInfo::Track(track("a", &["Artist", "B"], "Album", 100)));
    assert!(!lazy_eval(&item("a", 100), &two_artists));
    let other_artist = Some(PlayableInfo::Track(track("a", &["Someone"], "Album", 100)));
    assert!(!lazy_eval(&item("a", 100), &other_artist));
}

#[test]
fn empty_entries_and_episodes_on_the_right_never_match() {
    assert!(!lazy_eval(&None, &item("a", 1)));
    assert!(!lazy_eval(&item("a", 1), &None));
    assert!(!lazy_eval(&item("a", 1), &episode("e")));
    assert!(!lazy_eval(&episode("e"), &None));
    assert!(is_comparable(&episode("e"), &None));
    assert!(!is_comparable(&episode("e"), &item("a", 1)));
}

#[test]
fn item_names() {
    let names = get_playable_item_name(&Some(PlayableInfo::Track(track("s", &["x", "y"], "al", 3))));
    assert_eq!(names.song_name, "s");
    assert_eq!(names.artist_name, vec!["x", "y"]);
    assert_eq!(names.album_name, "al");
    let names = get_playable_item_name(&episode("ep"));
    assert_eq!(names.song_name, "ep");
    assert!(names.artist_name.is_empty());
    assert_eq!(names.album_name, "");
    let names = get_playable_item_name(&None);
    assert_eq!(names.song_name, "");
}

#[test]
fn diff_of_unchanged_playlist_reports_nothing() {
    let list = vec![item("a", 1), item("b", 2), item("c", 3)];
    assert!(events(&diff(&list, &list)).is_empty());
}

#[test]
fn diff_reports_moves_additions_and_new_tracks() {
    let saved = vec![item("a", 1), item("b", 2), item("c", 3)];
    let current = vec![item("b", 2), item("a", 1), item("d", 4)];
    assert_eq!(
        events(&diff(&saved, &current)),
        vec![('*', 0, 1), ('*', 1, 0), ('>', 2, 0), ('+', 2, 0)]
    );
}

#[test]
fn diff_reports_empty_entries_on_both_sides() {
    let saved = vec![None, item("a", 1)];
    let current = vec![item("a", 1), None];
    assert_eq!(
        events(&diff(&saved, &current)),
        vec![('>', 0, 0), ('*', 1, 0), ('+', 1, 0)]
    );
}

#[test]
fn diff_needs_comparable_entries() {
    let saved = vec![episode("e")];
    assert!(!check_comparable(&saved, &vec![item("a", 1)]));
    assert!(check_comparable(&saved, &vec![None]));
    assert_eq!(events(&diff(&saved, &vec![None])), vec![('>', 0, 0), ('+', 0, 0)]);
}

#[test]
fn rows_are_aligned() {
    let names = vec![
        ItemName { song_name: "ab".to_string(), artist_name: vec!["x".to_string()], album_name: "long album".to_string() },
        ItemName { song_name: "abcdef".to_string(), artist_name: vec!["x".to_string(), "yz".to_string()], album_name: "al".to_string() },
    ];
    let rows = playlist_rows(&names);
    assert_eq!(rows.len(), 2);
    assert_eq!(rows[0].song, "ab        ");
    assert_eq!(rows[1].song, "abcdef    ");
    assert_eq!(rows[0].artists, "x    ");
    assert_eq!(rows[1].artists, "x, yz");
    assert_eq!(rows[0].album, "long album");
    assert_eq!(join_artists(&names[1]), "x, yz");
}

#[test]
fn playlist_identifiers_need_22_letters_or_digits_in_a_row() {
    assert!(matches!(clone_target("abc"), Some(CloneTarget::Search { .. })));
    assert!(matches!(clone_target("37i9dQZF1DX-cBWIGoYBM5M"), Some(CloneTarget::Search { .. })));
    match clone_target("see 37i9dQZF1DXcBWIGoYBM5M here") {
        Some(CloneTarget::Playlist { uri }) => assert_eq!(uri, "spotify:playlist:see 37i9dQZF1DXcBWIGoYBM5M here"),
        _ => panic!("expected a playlist"),
    }
}

#[test]
fn clone_targets() {
    let id = "37i9dQZF1DXcBWIGoYBM5M";
    match clone_target(id) {
        Some(CloneTarget::Playlist { uri }) => assert_eq!(uri, "spotify:playlist:37i9dQZF1DXcBWIGoYBM5M"),
        _ => panic!("expected a playlist"),
    }
    match clone_target("chill songs") {
        Some(CloneTarget::Search { query }) => assert_eq!(query, "chill songs"),
        _ => panic!("expected a search"),
    }
    assert!(matches!(clone_target_from_match("q", false), CloneTarget::Search { .. }));
}

#[test]
fn search_pages_and_choices() {
    assert_eq!(search_offset(0), 0);
    assert_eq!(search_offset(3), 30);
    let found = vec![
        PlaylistSummary { name: "Mix".to_string(), owner: Some("Ann".to_string()) },
        PlaylistSummary { name: "Other".to_string(), owner: None },
    ];
    assert_eq!(selection_labels(&found), vec!["Continue", "1. 'Mix' by Ann", "2. 'Other' by "]);
    assert!(matches!(on_selection(2, 0, 3), SelectionAction::NextPage { page: 3 }));
    assert!(matches!(on_selection(2, 2, 3), SelectionAction::Clone { index: 1 }));
    assert!(matches!(on_selection(2, 4, 3), SelectionAction::OutOfRange));
}

#[test]
fn track_labels_and_links() {
    let t = track("Song", &["A", "B"], "Record", 1);
    assert_eq!(track_choice_label(&t), "Song - Record | A, B");
    assert_eq!(track_link(&Some("p".to_string()), &Some("h".to_string())), "p");
    assert_eq!(track_link(&None, &Some("h".to_string())), "h");
    assert_eq!(track_link(&None, &None), "");
    assert_eq!(cache_file_path("My list"), "./My list.json");
}

#[test]
fn spotigit_command_lines() {
    let a = |l: &[&str]| l.iter().map(|s| s.to_string()).collect::<Vec<String>>();
    assert!(parse_spotigit_args(&a(&["spotigit", "show"])).is_none());
    match parse_spotigit_args(&a(&["spotigit", "show", "my", "list"])) {
        Some(SpotigitCommand::Show { query }) => assert_eq!(query, "my list"),
        _ => panic!("expected show"),
    }
    match parse_spotigit_args(&a(&["spotigit", "clone", "my", "list"])) {
        Some(SpotigitCommand::Clone { query }) => assert_eq!(query, "my"),
        _ => panic!("expected clone"),
    }
    assert!(matches!(parse_spotigit_args(&a(&["spotigit", "", "x"])), Some(SpotigitCommand::Empty)));
    assert!(matches!(parse_spotigit_args(&a(&["spotigit", "what", "x"])), Some(SpotigitCommand::Unrecognized)));
    assert!(matches!(parse_spotigit_args(&a(&["spotigit", "album", "x"])), Some(SpotigitCommand::Album)));
}

#[test]
fn comparisons_name_the_first_difference() {
    assert!(matches!(compare_items(&item("a", 1), &item("a", 1)), Comparison::Same));
    assert!(matches!(compare_items(&item("a", 1), &item("b", 2)), Comparison::DifferentName));
    assert!(matches!(compare_items(&item("a", 1), &item("a", 2)), Comparison::DifferentDuration));
    let other_album = Some(PlayableInfo::Track(track("a", &["Artist"], "Other", 1)));
    assert!(matches!(compare_items(&item("a", 1), &other_album), Comparison::DifferentAlbum));
    let two = Some(PlayableInfo::Track(track("a", &["Artist", "B"], "Album", 1)));
    assert!(matches!(compare_items(&item("a", 1), &two), Comparison::DifferentArtistCount));
    let other = Some(PlayableInfo::Track(track("a", &["Artist", "C"], "Album", 1)));
    assert!(matches!(compare_items(&two, &other), Comparison::DifferentArtist { index: 1 }));
    assert!(matches!(compare_items(&None, &item("a", 1)), Comparison::NotTwoTracks));
}

#[test]
fn diff_reports_each_comparison_before_the_event() {
    let saved = vec![item("a", 1)];
    let current = vec![item("a", 2), item("a", 1)];
    let lines = diff(&saved, &current);
    let shape: Vec<String> = lines
        .iter()
        .map(|line| match line {
            DiffLine::Compared { saved, current, outcome } => format!(
                "c{saved}{current}{}",
                match outcome {
                    Comparison::Same => "=",
                    Comparison::DifferentDuration => "d",
                    _ => "?",
                }
            ),
            DiffLine::Event(DiffEvent::Moved { from, to }) => format!("m{from}{to}"),
            DiffLine::Event(_) => "e".to_string(),
        })
        .collect();
    assert_eq!(shape, vec!["c00d", "c01=", "m01", "c00d", "e", "c01="]);
}

#[test]
fn first_matching_file_name() {
    let names = vec!["a.txt".to_string(), "my list.json".to_string(), "list2.json".to_string()];
    assert_eq!(batcher::spotify::first_match_position("list", &names), Some(Some(1)));
    assert_eq!(batcher::spotify::first_match_position("^list", &names), Some(Some(2)));
    assert_eq!(batcher::spotify::first_match_position("zzz", &names), Some(None));
    assert_eq!(batcher::spotify::first_match_position("(", &names), None);
    assert_eq!(batcher::spotify::first_match_position("x", &Vec::new()), Some(None));
    assert_eq!(batcher::spotify::first_match_position("(", &Vec::new()), None);
}

#[test]
fn added_by_lines() {
    assert_eq!(added_by(Some((5, 3, 2023)), &Some("Ann".to_string())), "added 05/03/2023 by Ann");
    assert_eq!(added_by(None, &None), " by Anonymous");
    assert_eq!(added_by(Some((31, 12, 999)), &None), "added 31/12/0999 by Anonymous");
    assert_eq!(added_by(Some((1, 1, 12345)), &None), "added 01/01/+12345 by Anonymous");
    assert_eq!(added_by(Some((1, 1, -44)), &None), "added 01/01/-0044 by Anonymous");
}
