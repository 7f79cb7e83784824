use std::path::{Path, PathBuf};

use digital_garden::storage::{
    add_tag, create_note, garden_path, link_notes, list_notes, listed_title, load_note,
    note_file_name, note_path, note_path_in, save_note, view_note, Garden, GARDEN_PATH,
    NOTE_SUFFIX,
};
use digital_garden::error::GardenError;

#[test]
fn the_garden_lives_in_its_directory() {
    assert_eq!(GARDEN_PATH, "digital_garden");
    assert_eq!(garden_path(), PathBuf::from("digital_garden"));
    assert_eq!(garden_path(), Path::new("digital_garden").to_path_buf());
}

#[test]
fn a_note_is_kept_in_a_file_named_after_its_title() {
    assert_eq!(NOTE_SUFFIX, ".json");
    assert_eq!(note_file_name("foo"), "foo.json");
    assert_eq!(note_file_name(""), ".json");
    assert_eq!(note_path("foo"), Path::new("digital_garden").join("foo.json"));
    assert_eq!(note_path("a b"), garden_path().join("a b.json"));
    assert_ne!(note_path("foo"), PathBuf::from("foo.json"));
    assert_ne!(note_path("foo"), garden_path());
}

#[test]
fn a_garden_can_be_kept_in_any_directory() {
    assert_eq!(note_path_in("elsewhere", "foo"), Path::new("elsewhere").join("foo.json"));
    assert_eq!(note_path_in("digital_garden", "foo"), note_path("foo"));
    assert_eq!(note_path_in("", "foo"), PathBuf::from("foo.json"));
}

#[test]
fn a_title_that_is_a_path_of_its_own_is_joined_as_paths_are() {
    assert_eq!(note_path("sub/foo"), Path::new("digital_garden").join("sub/foo.json"));
    assert_eq!(note_path("/foo"), Path::new("digital_garden").join("/foo.json"));
}

#[test]
fn files_of_notes_are_listed_without_their_suffix() {
    assert_eq!(listed_title("foo.json"), Some("foo".to_string()));
    assert_eq!(listed_title("caf\u{e9}.json"), Some("caf\u{e9}".to_string()));
    assert_eq!(listed_title(".json"), Some(String::new()));
}

#[test]
fn a_repeated_suffix_is_cut_as_often_as_it_stands() {
    assert_eq!(listed_title("foo.json.json"), Some("foo".to_string()));
    assert_eq!(listed_title(".json.json.json"), Some(String::new()));
    assert_eq!(listed_title("a.jsonb.json"), Some("a.jsonb".to_string()));
}

#[test]
fn other_files_are_not_listed() {
    assert_eq!(listed_title("note_graph.dot"), None);
    assert_eq!(listed_title("search_index"), None);
    assert_eq!(listed_title("foo.JSON"), None);
    assert_eq!(listed_title("json"), None);
    assert_eq!(listed_title(""), None);
}

#[test]
fn creating_a_note_twice_leaves_the_first_as_it_is() {
    let mut garden = Garden::new();
    assert!(create_note(&mut garden, "foo"));
    assert_eq!(garden.notes.len(), 1);
    garden.notes[0].update_content("kept".to_string());
    let version = garden.notes[0].version;
    let updated = garden.notes[0].updated_at;
    assert_eq!(version, 2);
    assert!(!create_note(&mut garden, "foo"));
    assert_eq!(garden.notes.len(), 1);
    assert_eq!(garden.notes[0].version, version);
    assert_eq!(garden.notes[0].content, "kept");
    assert_eq!(garden.notes[0].updated_at, updated);
}

#[test]
fn a_created_note_is_new() {
    let mut garden = Garden::new();
    assert!(create_note(&mut garden, "foo"));
    assert!(create_note(&mut garden, "bar"));
    assert_eq!(list_notes(&garden), vec!["foo".to_string(), "bar".to_string()]);
    let note = view_note(&garden, "bar").expect("the note was made");
    assert_eq!(note.title, "bar");
    assert_eq!(note.content, "");
    assert_eq!(note.version, 1);
    assert!(note.links.is_empty());
    assert!(note.tags.is_empty());
    assert_eq!(note.created_at, note.updated_at);
}

#[test]
fn linking_two_notes_links_each_to_the_other() {
    let mut garden = Garden::new();
    create_note(&mut garden, "foo");
    create_note(&mut garden, "bar");
    assert!(link_notes(&mut garden, "foo", "bar"));
    assert_eq!(view_note(&garden, "foo").unwrap().links, vec!["bar".to_string()]);
    assert_eq!(view_note(&garden, "bar").unwrap().links, vec!["foo".to_string()]);
}

#[test]
fn linking_two_notes_again_changes_nothing() {
    let mut garden = Garden::new();
    create_note(&mut garden, "foo");
    create_note(&mut garden, "bar");
    assert!(link_notes(&mut garden, "foo", "bar"));
    let foo_updated = view_note(&garden, "foo").unwrap().updated_at;
    let bar_updated = view_note(&garden, "bar").unwrap().updated_at;
    assert!(link_notes(&mut garden, "foo", "bar"));
    assert!(link_notes(&mut garden, "bar", "foo"));
    let foo = view_note(&garden, "foo").unwrap();
    let bar = view_note(&garden, "bar").unwrap();
    assert_eq!(foo.links, vec!["bar".to_string()]);
    assert_eq!(bar.links, vec!["foo".to_string()]);
    assert_eq!(foo.updated_at, foo_updated);
    assert_eq!(bar.updated_at, bar_updated);
    assert_eq!(foo.version, 1);
    assert_eq!(bar.version, 1);
}

#[test]
fn linking_needs_both_notes() {
    let mut garden = Garden::new();
    create_note(&mut garden, "foo");
    assert!(!link_notes(&mut garden, "foo", "bar"));
    assert!(!link_notes(&mut garden, "bar", "foo"));
    assert!(!link_notes(&mut garden, "bar", "baz"));
    assert!(view_note(&garden, "foo").unwrap().links.is_empty());
    assert_eq!(garden.notes.len(), 1);
}

#[test]
fn a_note_can_link_to_itself() {
    let mut garden = Garden::new();
    create_note(&mut garden, "foo");
    assert!(link_notes(&mut garden, "foo", "foo"));
    assert_eq!(view_note(&garden, "foo").unwrap().links, vec!["foo".to_string()]);
}

#[test]
fn links_leave_other_notes_alone() {
    let mut garden = Garden::new();
    create_note(&mut garden, "a");
    create_note(&mut garden, "b");
    create_note(&mut garden, "c");
    link_notes(&mut garden, "a", "c");
    link_notes(&mut garden, "b", "a");
    assert_eq!(view_note(&garden, "a").unwrap().links, vec!["c".to_string(), "b".to_string()]);
    assert_eq!(view_note(&garden, "b").unwrap().links, vec!["a".to_string()]);
    assert_eq!(view_note(&garden, "c").unwrap().links, vec!["a".to_string()]);
    assert_eq!(list_notes(&garden), vec!["a".to_string(), "b".to_string(), "c".to_string()]);
}

#[test]
fn a_tag_is_added_once() {
    let mut garden = Garden::new();
    create_note(&mut garden, "foo");
    assert!(add_tag(&mut garden, "foo", "rust"));
    let updated = view_note(&garden, "foo").unwrap().updated_at;
    assert!(add_tag(&mut garden, "foo", "rust"));
    let foo = view_note(&garden, "foo").unwrap();
    assert_eq!(foo.tags, vec!["rust".to_string()]);
    assert_eq!(foo.updated_at, updated);
    assert!(foo.links.is_empty());
    assert_eq!(foo.version, 1);
}

#[test]
fn a_tag_needs_its_note() {
    let mut garden = Garden::new();
    create_note(&mut garden, "foo");
    assert!(!add_tag(&mut garden, "bar", "rust"));
    assert!(view_note(&garden, "foo").unwrap().tags.is_empty());
}

#[test]
fn loading_a_missing_note_is_an_error() {
    let mut garden = Garden::new();
    assert_eq!(load_note(&garden, "foo").err(), Some(GardenError::NotFound));
    create_note(&mut garden, "foo");
    assert_eq!(load_note(&garden, "fo").err(), Some(GardenError::NotFound));
    assert!(view_note(&garden, "fo").is_none());
}

#[test]
fn a_loaded_note_is_a_copy() {
    let mut garden = Garden::new();
    create_note(&mut garden, "foo");
    add_tag(&mut garden, "foo", "t");
    let mut copy = load_note(&garden, "foo").expect("the note is there");
    assert_eq!(copy.title, "foo");
    assert_eq!(copy.tags, vec!["t".to_string()]);
    copy.update_content("changed".to_string());
    assert_eq!(view_note(&garden, "foo").unwrap().content, "");
    assert_eq!(view_note(&garden, "foo").unwrap().version, 1);
}

#[test]
fn saving_overwrites_the_whole_note() {
    let mut garden = Garden::new();
    create_note(&mut garden, "foo");
    create_note(&mut garden, "bar");
    let mut copy = load_note(&garden, "foo").unwrap();
    copy.update_content("changed".to_string());
    copy.add_link("bar".to_string());
    save_note(&mut garden, copy);
    assert_eq!(garden.notes.len(), 2);
    let foo = view_note(&garden, "foo").unwrap();
    assert_eq!(foo.content, "changed");
    assert_eq!(foo.version, 2);
    assert_eq!(foo.links, vec!["bar".to_string()]);
    assert_eq!(list_notes(&garden), vec!["foo".to_string(), "bar".to_string()]);
    assert!(view_note(&garden, "bar").unwrap().links.is_empty());
}

#[test]
fn saving_a_note_of_a_new_title_adds_it() {
    let mut garden = Garden::new();
    create_note(&mut garden, "foo");
    let other = digital_garden::note::Note::new("bar".to_string());
    save_note(&mut garden, other);
    assert_eq!(list_notes(&garden), vec!["foo".to_string(), "bar".to_string()]);
}

#[test]
fn an_empty_garden_lists_nothing() {
    let garden = Garden::new();
    assert!(list_notes(&garden).is_empty());
    assert_eq!(garden.find("foo"), None);
}

#[test]
fn find_gives_the_place_of_a_title() {
    let mut garden = Garden::new();
    create_note(&mut garden, "a");
    create_note(&mut garden, "b");
    assert_eq!(garden.find("a"), Some(0));
    assert_eq!(garden.find("b"), Some(1));
    assert_eq!(garden.find("c"), None);
    assert_eq!(garden.find(""), None);
}
