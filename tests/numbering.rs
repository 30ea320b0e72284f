use std::cmp::Ordering;

use id3::{Encoding, Frame, Tag, TagLike};
use track_numbering::order::{compare_bytes, compare_names, sort_by_name};
use track_numbering::plan::{plan_run, Assignment};
use track_numbering::scan::{is_track_entry, is_track_extension, select_tracks, Candidate, ListingEntry};
use track_numbering::tagging::{number_tag, TagRead, TrackError};

fn file(name: &str) -> ListingEntry {
    let extension = name.rsplit_once('.').map(|(_, e)| e.to_string());
    ListingEntry::Found(Candidate { name: name.to_string(), is_file: true, extension })
}

fn names_in_plan(entries: &[ListingEntry], plan: &[Assignment]) -> Vec<String> {
    plan.iter()
        .map(|a| match &entries[a.entry] {
            ListingEntry::Found(c) => c.name.clone(),
            ListingEntry::Unreadable => panic!("an unreadable entry was numbered"),
        })
        .collect()
}

#[test]
fn embedded_numbers_sort_by_value() {
    let names = vec!["track2.mp3".to_string(), "track10.mp3".to_string(), "track1.mp3".to_string()];
    let order = sort_by_name(&names);
    let sorted: Vec<&str> = order.iter().map(|&i| names[i].as_str()).collect();
    assert_eq!(sorted, vec!["track1.mp3", "track2.mp3", "track10.mp3"]);
}

#[test]
fn natural_comparison_of_numbers() {
    assert_eq!(compare_names("track2.mp3", "track10.mp3"), Ordering::Less);
    assert_eq!(compare_names("track10.mp3", "track2.mp3"), Ordering::Greater);
    assert_eq!(compare_names("a.mp3", "a.mp3"), Ordering::Equal);
}

#[test]
fn ties_in_natural_order_fall_back_to_bytes() {
    // natord skips whitespace, so these two are equal to it
    assert_eq!(natord::compare("a b.mp3", "ab.mp3"), Ordering::Equal);
    assert_eq!(compare_names("a b.mp3", "ab.mp3"), Ordering::Less);
    assert_eq!(compare_names("ab.mp3", "a b.mp3"), Ordering::Greater);
}

#[test]
fn byte_comparison() {
    assert_eq!(compare_bytes(b"abc", b"abd"), Ordering::Less);
    assert_eq!(compare_bytes(b"ab", b"abc"), Ordering::Less);
    assert_eq!(compare_bytes(b"b", b"abc"), Ordering::Greater);
    assert_eq!(compare_bytes(b"", b""), Ordering::Equal);
}

#[test]
fn extensions_match_ignoring_case() {
    assert!(is_track_extension("mp3"));
    assert!(is_track_extension("MP3"));
    assert!(is_track_extension("Mp3"));
    assert!(!is_track_extension("wav"));
    assert!(!is_track_extension("mp4"));
    assert!(!is_track_extension("mp3x"));
    assert!(!is_track_extension(""));
}

#[test]
fn only_regular_files_with_the_extension_are_selected() {
    let dir = ListingEntry::Found(Candidate {
        name: "album.mp3".to_string(),
        is_file: false,
        extension: Some("mp3".to_string()),
    });
    let bare = ListingEntry::Found(Candidate { name: "mp3".to_string(), is_file: true, extension: None });
    assert!(!is_track_entry(&dir));
    assert!(!is_track_entry(&bare));
    assert!(!is_track_entry(&ListingEntry::Unreadable));
    assert!(is_track_entry(&file("x.MP3")));
    let entries = vec![file("a.MP3"), file("b.wav"), dir, bare, file("c.mp3")];
    assert_eq!(select_tracks(&entries), vec![0, 4]);
}

#[test]
fn unreadable_entries_do_not_stop_the_scan() {
    let entries = vec![ListingEntry::Unreadable, file("b.mp3"), ListingEntry::Unreadable, file("a.mp3")];
    assert_eq!(select_tracks(&entries), vec![1, 3]);
    let plan = plan_run(&entries);
    assert_eq!(names_in_plan(&entries, &plan), vec!["a.mp3", "b.mp3"]);
}

#[test]
fn tracks_run_from_one_to_n_with_the_count_as_total() {
    let entries = vec![file("track10.mp3"), file("notes.txt"), file("track2.mp3"), file("track1.MP3")];
    let plan = plan_run(&entries);
    assert_eq!(
        plan,
        vec![
            Assignment { entry: 3, track: 1, total: 3 },
            Assignment { entry: 2, track: 2, total: 3 },
            Assignment { entry: 0, track: 3, total: 3 },
        ]
    );
}

#[test]
fn names_without_numbers_sort_alphabetically() {
    let entries = vec![file("b.mp3"), file("a.mp3"), file("c.mp3")];
    let plan = plan_run(&entries);
    assert_eq!(names_in_plan(&entries, &plan), vec!["a.mp3", "b.mp3", "c.mp3"]);
    assert!(plan.iter().all(|a| a.total == 3));
    assert_eq!(plan.iter().map(|a| a.track).collect::<Vec<_>>(), vec![1, 2, 3]);
}

#[test]
fn empty_listing_gives_empty_plan() {
    assert_eq!(plan_run(&Vec::new()), Vec::new());
    assert_eq!(plan_run(&vec![ListingEntry::Unreadable, file("x.wav")]), Vec::new());
}

#[test]
fn missing_tag_gets_a_new_one_with_only_track_and_total() {
    let tag = number_tag(TagRead::Absent, 2, 5).unwrap();
    assert_eq!(tag.track(), Some(2));
    assert_eq!(tag.total_tracks(), Some(5));
    assert_eq!(tag.frames().count(), 1);
    assert!(tag.frames().all(|f| f.id() == "TRCK"));
}

#[test]
fn existing_tag_keeps_its_other_fields() {
    let mut old = Tag::new();
    old.set_title("Song");
    old.set_artist("Band");
    old.add_frame(Frame::text("TRCK", "7/9"));
    let tag = number_tag(TagRead::Existing(old), 3, 4).unwrap();
    assert_eq!(tag.track(), Some(3));
    assert_eq!(tag.total_tracks(), Some(4));
    assert_eq!(tag.title(), Some("Song"));
    assert_eq!(tag.artist(), Some("Band"));
}

#[test]
fn unreadable_tag_is_reported() {
    let r = number_tag(TagRead::Unreadable("bad header".to_string()), 1, 1);
    assert_eq!(r.err(), Some(TrackError::TagReadFailed("bad header".to_string())));
}

#[test]
fn unreadable_entries_leave_the_count_unchanged() {
    let with_error = vec![file("2.mp3"), ListingEntry::Unreadable, file("1.mp3"), file("x.wav")];
    let without = vec![file("2.mp3"), file("1.mp3"), file("x.wav")];
    let a = plan_run(&with_error);
    let b = plan_run(&without);
    assert_eq!(a.len(), 2);
    assert_eq!(b.len(), 2);
    assert_eq!(names_in_plan(&with_error, &a), names_in_plan(&without, &b));
    assert!(a.iter().all(|x| x.total == 2));
}

#[test]
fn tag_with_two_track_frames_ends_with_one() {
    let mut old = Tag::new();
    old.set_title("Song");
    old.add_frame(Frame::text("TRCK", "7/9").set_encoding(Some(Encoding::Latin1)));
    old.add_frame(Frame::text("TRCK", "3").set_encoding(Some(Encoding::UTF16)));
    assert_eq!(old.frames().filter(|f| f.id() == "TRCK").count(), 2);
    let tag = number_tag(TagRead::Existing(old), 5, 4).unwrap();
    assert_eq!(tag.frames().filter(|f| f.id() == "TRCK").count(), 1);
    assert_eq!(tag.track(), Some(5));
    assert_eq!(tag.total_tracks(), Some(4));
    assert_eq!(tag.title(), Some("Song"));
    assert_eq!(tag.frames().count(), 2);
}

#[test]
fn other_frames_keep_their_order_and_content() {
    let mut old = Tag::new();
    old.set_title("Song");
    old.add_frame(Frame::text("TRCK", "1"));
    old.set_album("Record");
    let before: Vec<Frame> = old.frames().filter(|f| f.id() != "TRCK").cloned().collect();
    let tag = number_tag(TagRead::Existing(old), 2, 2).unwrap();
    let after: Vec<Frame> = tag.frames().filter(|f| f.id() != "TRCK").cloned().collect();
    assert_eq!(before, after);
}
