use digital_garden::cli::{Cli, Outcome};
use digital_garden::editor::Status;
use digital_garden::storage::{create_note, view_note, Garden};
use digital_garden::error::GardenError;

fn new(title: &str) -> Cli {
    Cli::New { title: title.to_string() }
}

fn link(from: &str, to: &str) -> Cli {
    Cli::Link { from: from.to_string(), to: to.to_string() }
}

fn garden_of(titles: &[&str]) -> Garden {
    let mut garden = Garden::new();
    for title in titles {
        create_note(&mut garden, title);
    }
    garden
}

#[test]
fn new_creates_a_note_once() {
    let mut garden = Garden::new();
    let outcome = new("foo").run(&mut garden).expect("creating cannot fail");
    assert!(matches!(&outcome, Outcome::Created { title } if title == "foo"));
    assert_eq!(outcome.message(), Some("Note 'foo' created successfully.".to_string()));
    assert_eq!(garden.notes.len(), 1);
    assert_eq!(garden.notes[0].title, "foo");
    assert_eq!(garden.notes[0].version, 1);

    garden.notes[0].update_content("kept".to_string());
    let outcome = new("foo").run(&mut garden).expect("creating cannot fail");
    assert!(matches!(outcome, Outcome::AlreadyExists));
    assert_eq!(outcome.message(), Some("Note with this title already exists.".to_string()));
    assert_eq!(garden.notes.len(), 1);
    assert_eq!(garden.notes[0].version, 2);
    assert_eq!(garden.notes[0].content, "kept");
}

#[test]
fn list_gives_the_titles_in_order() {
    let mut garden = garden_of(&["foo", "bar"]);
    match Cli::List.run(&mut garden) {
        Ok(Outcome::Listed { titles }) => {
            assert_eq!(titles, vec!["foo".to_string(), "bar".to_string()])
        }
        _ => panic!("a list was asked for"),
    }
    let outcome = Cli::List.run(&mut Garden::new()).unwrap();
    assert!(matches!(&outcome, Outcome::Listed { titles } if titles.is_empty()));
    assert_eq!(outcome.message(), None);
}

#[test]
fn view_shows_a_copy_of_the_note() {
    let mut garden = garden_of(&["foo"]);
    garden.notes[0].update_content("text".to_string());
    match (Cli::View { title: "foo".to_string() }).run(&mut garden) {
        Ok(Outcome::Viewed { note }) => {
            assert_eq!(note.title, "foo");
            assert_eq!(note.content, "text");
            assert_eq!(note.version, 2);
        }
        _ => panic!("the note is there"),
    }
    let outcome = (Cli::View { title: "bar".to_string() }).run(&mut garden).unwrap();
    assert!(matches!(outcome, Outcome::NotFound));
    assert_eq!(outcome.message(), Some("Note not found.".to_string()));
}

#[test]
fn edit_opens_a_session_on_the_note() {
    let mut garden = garden_of(&["foo"]);
    garden.notes[0].update_content("ab\ncd".to_string());
    match (Cli::Edit { title: "foo".to_string() }).run(&mut garden) {
        Ok(Outcome::Editing { session }) => {
            assert_eq!(session.cursor(), 5);
            assert_eq!(session.status(), Status::Editing);
            assert_eq!(session.note().content, "ab\ncd");
            assert_eq!(session.note().title, "foo");
        }
        _ => panic!("the note is there"),
    }
    assert_eq!(garden.notes[0].version, 2);
}

#[test]
fn edit_of_a_missing_note_fails() {
    let mut garden = garden_of(&["foo"]);
    let result = (Cli::Edit { title: "bar".to_string() }).run(&mut garden);
    assert_eq!(result.err(), Some(GardenError::NotFound));
    assert_eq!(garden.notes.len(), 1);
}

#[test]
fn link_links_both_ways() {
    let mut garden = garden_of(&["foo", "bar"]);
    let outcome = link("foo", "bar").run(&mut garden).unwrap();
    assert!(matches!(&outcome, Outcome::Linked { from, to } if from == "foo" && to == "bar"));
    assert_eq!(outcome.message(), Some("Link created between 'foo' and 'bar'.".to_string()));
    assert_eq!(view_note(&garden, "foo").unwrap().links, vec!["bar".to_string()]);
    assert_eq!(view_note(&garden, "bar").unwrap().links, vec!["foo".to_string()]);

    let outcome = link("foo", "bar").run(&mut garden).unwrap();
    assert!(matches!(outcome, Outcome::Linked { .. }));
    assert_eq!(view_note(&garden, "foo").unwrap().links, vec!["bar".to_string()]);
    assert_eq!(view_note(&garden, "bar").unwrap().links, vec!["foo".to_string()]);
}

#[test]
fn link_needs_both_notes() {
    let mut garden = garden_of(&["foo"]);
    let outcome = link("foo", "bar").run(&mut garden).unwrap();
    assert!(matches!(outcome, Outcome::PairNotFound));
    assert_eq!(outcome.message(), Some("One or both notes not found.".to_string()));
    assert!(garden.notes[0].links.is_empty());
}

#[test]
fn tag_tags_the_note() {
    let mut garden = garden_of(&["foo"]);
    let tag = Cli::Tag { title: "foo".to_string(), tag: "rust".to_string() };
    let outcome = tag.run(&mut garden).unwrap();
    assert!(matches!(&outcome, Outcome::Tagged { title, tag } if title == "foo" && tag == "rust"));
    assert_eq!(outcome.message(), Some("Tag 'rust' added to note 'foo'.".to_string()));
    assert_eq!(garden.notes[0].tags, vec!["rust".to_string()]);
    let outcome = tag.run(&mut garden).unwrap();
    assert!(matches!(outcome, Outcome::Tagged { .. }));
    assert_eq!(garden.notes[0].tags, vec!["rust".to_string()]);

    let missing = Cli::Tag { title: "bar".to_string(), tag: "rust".to_string() };
    let outcome = missing.run(&mut garden).unwrap();
    assert!(matches!(outcome, Outcome::NotFound));
    assert_eq!(outcome.message(), Some("Note not found.".to_string()));
}

#[test]
fn visualize_draws_the_graph() {
    let mut garden = garden_of(&["foo", "bar"]);
    link("bar", "foo").run(&mut garden).unwrap();
    match Cli::Visualize.run(&mut garden) {
        Ok(Outcome::Drawn { dot }) => assert_eq!(
            dot,
            "digraph {\n    0 [ label = \"\\\"foo\\\"\" ]\n    1 [ label = \"\\\"bar\\\"\" ]\n    0 -> 1 [ ]\n    1 -> 0 [ ]\n}\n"
        ),
        _ => panic!("two notes fit a graph"),
    }
}

#[test]
fn search_and_sync_are_handed_to_the_caller() {
    let mut garden = garden_of(&["foo"]);
    let outcome = (Cli::Search { query: "rust AND verus".to_string() }).run(&mut garden).unwrap();
    assert!(matches!(&outcome, Outcome::Search { query } if query == "rust AND verus"));
    assert_eq!(outcome.message(), None);
    let outcome = Cli::Sync.run(&mut garden).unwrap();
    assert!(matches!(outcome, Outcome::Sync));
    assert_eq!(outcome.message(), None);
    assert_eq!(garden.notes.len(), 1);
    assert_eq!(garden.notes[0].version, 1);
}
