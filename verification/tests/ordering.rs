use std::cmp::Ordering::{Equal, Greater, Less};

use rustymedia::human_order;
use rustymedia::local::{filter_relevant, sort_objects, Object};

#[test]
fn test_human_order() {
    assert_eq!(human_order("foo", "bar"), Greater);
    assert_eq!(human_order("bar", "foo"), Less);
    assert_eq!(human_order("bar", "bar"), Equal);
    assert_eq!(human_order("bar", "bar 10"), Less);
    assert_eq!(human_order("bar 2", "bar 10"), Less);
    assert_eq!(human_order("bar 20 59", "bar 20 8"), Greater);
    assert_eq!(human_order("bar 07", "bar 02"), Greater);
    assert_eq!(human_order("bar 07", "bar 2"), Greater);
    assert_eq!(human_order("bar 7", "bar 02"), Greater);
}

#[test]
fn test_human_order_antisymmetric_across_kinds() {
    // A digit run against a word: swapping the arguments reverses the
    // answer, so siblings of mixed kinds sort consistently.
    assert_eq!(human_order("77", "x"), Less);
    assert_eq!(human_order("x", "77"), Greater);
    assert_eq!(human_order("2021", "drafts"), Less);
    assert_eq!(human_order("drafts", "2021"), Greater);
}

#[test]
fn test_directory_listing_order_mixed_kinds() {
    // Digit-led names come before letter-led ones, and numbers among
    // themselves still compare as numbers.
    let children = dir_with(&["x.mkv", "77.mkv", "9.mkv"]);
    let sorted = sort_objects(filter_relevant(children));
    let ids: Vec<&str> = sorted.iter().map(|o| o.id()).collect();
    assert_eq!(ids, vec!["Local/9.mkv", "Local/77.mkv", "Local/x.mkv"]);
}

#[test]
fn test_human_order_last_segment_only() {
    // Only the final path segment decides.
    assert_eq!(human_order("z/bar 2", "a/bar 10"), Less);
    assert_eq!(human_order("a/b/clip 3.mkv", "c/d/clip 3.mkv"), Equal);
}

fn dir_with(names: &[&str]) -> Vec<Object> {
    let root = Object::new_root("Local".to_string(), "/media".to_string());
    let entries: Vec<(String, bool)> = names.iter().map(|n| (n.to_string(), false)).collect();
    root.children_from_entries(&entries)
}

#[test]
fn test_directory_listing_order() {
    // Files `clip 2.mkv`, `clip 10.mkv`, `clip 07.mkv`, `clip 7.mkv` list
    // as 2, 7, 07, 10.
    let children = dir_with(&["clip 2.mkv", "clip 10.mkv", "clip 07.mkv", "clip 7.mkv"]);
    let sorted = sort_objects(filter_relevant(children));
    let ids: Vec<&str> = sorted.iter().map(|o| o.id()).collect();
    assert_eq!(
        ids,
        vec![
            "Local/clip 2.mkv",
            "Local/clip 7.mkv",
            "Local/clip 07.mkv",
            "Local/clip 10.mkv"
        ]
    );
}

#[test]
fn test_listing_drops_unclassified() {
    let children = dir_with(&["notes.txt", "clip 1.mkv", "cover.jpg"]);
    let sorted = sort_objects(filter_relevant(children));
    let ids: Vec<&str> = sorted.iter().map(|o| o.id()).collect();
    assert_eq!(ids, vec!["Local/clip 1.mkv", "Local/cover.jpg"]);
}
