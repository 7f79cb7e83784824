use digital_garden::clock::Timestamp;
use digital_garden::note::{contains_text, copy_texts, Note};

fn at(secs: i64) -> Timestamp {
    Timestamp { secs, nanos: 0 }
}

#[test]
fn new_note_is_empty_at_version_one() {
    let note = Note::new("foo".to_string());
    assert_eq!(note.title, "foo");
    assert_eq!(note.content, "");
    assert_eq!(note.version, 1);
    assert!(note.links.is_empty());
    assert!(note.tags.is_empty());
    assert_eq!(note.created_at, note.updated_at);
}

#[test]
fn new_note_is_stamped_by_the_clock() {
    let before = chrono::Utc::now();
    let note = Note::new("foo".to_string());
    let after = chrono::Utc::now();
    let made = chrono::DateTime::from_timestamp(note.created_at.secs, note.created_at.nanos)
        .expect("a reading of the clock is a valid instant");
    assert!(before <= made);
    assert!(made <= after);
}

#[test]
fn new_note_at_takes_the_given_instant() {
    let note = Note::new_at("foo".to_string(), Timestamp { secs: 12, nanos: 34 });
    assert_eq!(note.created_at, Timestamp { secs: 12, nanos: 34 });
    assert_eq!(note.updated_at, Timestamp { secs: 12, nanos: 34 });
    assert_eq!(note.version, 1);
}

#[test]
fn update_content_counts_one_change() {
    let mut note = Note::new_at("foo".to_string(), at(1));
    note.update_content_at("hello".to_string(), at(2));
    assert_eq!(note.content, "hello");
    assert_eq!(note.version, 2);
    assert_eq!(note.created_at, at(1));
    assert_eq!(note.updated_at, at(2));
    note.update_content_at("hello".to_string(), at(3));
    assert_eq!(note.version, 3);
    assert_eq!(note.updated_at, at(3));
}

#[test]
fn update_content_by_the_clock_counts_one_change() {
    let mut note = Note::new("foo".to_string());
    note.update_content("text".to_string());
    assert_eq!(note.content, "text");
    assert_eq!(note.version, 2);
    assert_eq!(note.title, "foo");
}

#[test]
fn add_link_appends_in_order() {
    let mut note = Note::new_at("foo".to_string(), at(1));
    note.add_link_at("bar".to_string(), at(2));
    note.add_link_at("baz".to_string(), at(3));
    assert_eq!(note.links, vec!["bar".to_string(), "baz".to_string()]);
    assert_eq!(note.updated_at, at(3));
    assert_eq!(note.version, 1);
    assert_eq!(note.content, "");
}

#[test]
fn add_link_twice_changes_nothing_the_second_time() {
    let mut note = Note::new_at("foo".to_string(), at(1));
    note.add_link_at("bar".to_string(), at(2));
    note.add_link_at("bar".to_string(), at(9));
    assert_eq!(note.links, vec!["bar".to_string()]);
    assert_eq!(note.updated_at, at(2));
}

#[test]
fn add_link_by_the_clock_is_idempotent() {
    let mut note = Note::new("foo".to_string());
    note.add_link("bar".to_string());
    let updated = note.updated_at;
    note.add_link("bar".to_string());
    assert_eq!(note.links, vec!["bar".to_string()]);
    assert_eq!(note.updated_at, updated);
}

#[test]
fn add_tag_twice_changes_nothing_the_second_time() {
    let mut note = Note::new_at("foo".to_string(), at(1));
    note.add_tag_at("rust".to_string(), at(2));
    note.add_tag_at("rust".to_string(), at(9));
    note.add_tag_at("verus".to_string(), at(10));
    assert_eq!(note.tags, vec!["rust".to_string(), "verus".to_string()]);
    assert_eq!(note.updated_at, at(10));
    assert!(note.links.is_empty());
}

#[test]
fn add_tag_by_the_clock_is_idempotent() {
    let mut note = Note::new("foo".to_string());
    note.add_tag("rust".to_string());
    let updated = note.updated_at;
    note.add_tag("rust".to_string());
    assert_eq!(note.tags, vec!["rust".to_string()]);
    assert_eq!(note.updated_at, updated);
}

#[test]
fn links_and_tags_are_told_apart() {
    let mut note = Note::new_at("foo".to_string(), at(1));
    note.add_link_at("same".to_string(), at(2));
    note.add_tag_at("same".to_string(), at(3));
    assert_eq!(note.links, vec!["same".to_string()]);
    assert_eq!(note.tags, vec!["same".to_string()]);
}

#[test]
fn contains_text_finds_what_is_there() {
    let list = vec!["a".to_string(), "bc".to_string()];
    assert!(contains_text(&list, &"bc".to_string()));
    assert!(!contains_text(&list, &"b".to_string()));
    assert!(!contains_text(&Vec::new(), &"".to_string()));
}

#[test]
fn duplicate_keeps_every_field() {
    let mut note = Note::new_at("foo".to_string(), at(1));
    note.update_content_at("text".to_string(), at(2));
    note.add_link_at("bar".to_string(), at(3));
    note.add_tag_at("t".to_string(), at(4));
    let twin = note.duplicate();
    assert_eq!(twin.title, note.title);
    assert_eq!(twin.content, note.content);
    assert_eq!(twin.created_at, note.created_at);
    assert_eq!(twin.updated_at, note.updated_at);
    assert_eq!(twin.links, note.links);
    assert_eq!(twin.tags, note.tags);
    assert_eq!(twin.version, note.version);
    assert_eq!(copy_texts(&note.links), note.links);
}
