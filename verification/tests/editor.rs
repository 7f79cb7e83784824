use digital_garden::clock::Timestamp;
use digital_garden::editor::{
    decode_key, edit_note, Action, Command, KeyCode, KeyPress, Session, Status,
};
use digital_garden::note::Note;
use digital_garden::error::GardenError;

fn at(secs: i64) -> Timestamp {
    Timestamp { secs, nanos: 0 }
}

fn key(code: KeyCode) -> KeyPress {
    KeyPress { code, control: false }
}

fn ch(c: char) -> KeyPress {
    key(KeyCode::Char(c))
}

fn note_with(content: &str) -> Note {
    let mut note = Note::new_at("foo".to_string(), at(1));
    note.content = content.to_string();
    note
}

#[test]
fn keys_decode_to_commands() {
    assert_eq!(decode_key(key(KeyCode::Esc)), Command::Save);
    assert_eq!(decode_key(ch('x')), Command::Insert('x'));
    assert_eq!(decode_key(ch('c')), Command::Insert('c'));
    assert_eq!(decode_key(key(KeyCode::Backspace)), Command::DeleteBefore);
    assert_eq!(decode_key(key(KeyCode::Delete)), Command::DeleteAt);
    assert_eq!(decode_key(key(KeyCode::Left)), Command::MoveLeft);
    assert_eq!(decode_key(key(KeyCode::Right)), Command::MoveRight);
    assert_eq!(decode_key(key(KeyCode::Up)), Command::MoveUp);
    assert_eq!(decode_key(key(KeyCode::Down)), Command::MoveDown);
    assert_eq!(decode_key(key(KeyCode::Enter)), Command::Insert('\n'));
    assert_eq!(decode_key(key(KeyCode::Other)), Command::Ignore);
}

#[test]
fn control_c_aborts_and_other_control_characters_are_typed() {
    assert_eq!(decode_key(KeyPress { code: KeyCode::Char('c'), control: true }), Command::Abort);
    assert_eq!(
        decode_key(KeyPress { code: KeyCode::Char('x'), control: true }),
        Command::Insert('x')
    );
    assert_eq!(
        decode_key(KeyPress { code: KeyCode::Char('C'), control: true }),
        Command::Insert('C')
    );
    assert_eq!(decode_key(KeyPress { code: KeyCode::Esc, control: true }), Command::Save);
    assert_eq!(
        decode_key(KeyPress { code: KeyCode::Enter, control: true }),
        Command::Insert('\n')
    );
}

#[test]
fn a_session_opens_at_the_end_of_the_content() {
    let session = Session::open(note_with("ab\ncde\nf"));
    assert_eq!(session.cursor(), 8);
    assert_eq!(session.status(), Status::Editing);
    assert_eq!(session.note().content, "ab\ncde\nf");
    let empty = Session::open(note_with(""));
    assert_eq!(empty.cursor(), 0);
}

#[test]
fn open_at_keeps_a_valid_offset() {
    let (session, anomaly) = Session::open_at(note_with("a\u{e9}b"), 1);
    assert_eq!(session.cursor(), 1);
    assert_eq!(anomaly, None);
    let (session, anomaly) = Session::open_at(note_with("a\u{e9}b"), 4);
    assert_eq!(session.cursor(), 4);
    assert_eq!(anomaly, None);
}

#[test]
fn open_at_clamps_an_invalid_offset_and_reports_it() {
    let (session, anomaly) = Session::open_at(note_with("a\u{e9}b"), 2);
    assert_eq!(session.cursor(), 1);
    assert_eq!(anomaly, Some(GardenError::InvalidOffset));
    let (session, anomaly) = Session::open_at(note_with("a\u{e9}b"), 40);
    assert_eq!(session.cursor(), 4);
    assert_eq!(anomaly, Some(GardenError::InvalidOffset));
    assert_eq!(session.note().version, 1);
}

#[test]
fn typing_inserts_at_the_cursor_and_counts_each_change() {
    let mut session = Session::open(note_with("ac"));
    assert_eq!(session.handle_key_at(key(KeyCode::Left), at(2)), Action::Render);
    assert_eq!(session.cursor(), 1);
    assert_eq!(session.note().version, 1);
    assert_eq!(session.note().updated_at, at(1));
    assert_eq!(session.handle_key_at(ch('b'), at(3)), Action::Render);
    assert_eq!(session.note().content, "abc");
    assert_eq!(session.cursor(), 2);
    assert_eq!(session.note().version, 2);
    assert_eq!(session.note().updated_at, at(3));
    assert_eq!(session.note().created_at, at(1));
    assert_eq!(session.handle_key_at(ch('\u{1f600}'), at(4)), Action::Render);
    assert_eq!(session.note().content, "ab\u{1f600}c");
    assert_eq!(session.cursor(), 6);
    assert_eq!(session.note().version, 3);
}

#[test]
fn enter_types_a_line_feed() {
    let mut session = Session::open(note_with("ab"));
    session.handle_key_at(key(KeyCode::Left), at(2));
    session.handle_key_at(key(KeyCode::Enter), at(3));
    assert_eq!(session.note().content, "a\nb");
    assert_eq!(session.cursor(), 2);
    assert_eq!(session.note().version, 2);
}

#[test]
fn backspace_removes_the_character_before_the_cursor() {
    let mut session = Session::open(note_with("a\u{e9}"));
    assert_eq!(session.handle_key_at(key(KeyCode::Backspace), at(2)), Action::Render);
    assert_eq!(session.note().content, "a");
    assert_eq!(session.cursor(), 1);
    assert_eq!(session.note().version, 2);
    assert_eq!(session.note().updated_at, at(2));
}

#[test]
fn backspace_at_the_start_changes_nothing() {
    let mut session = Session::open(note_with(""));
    assert_eq!(session.handle_key_at(key(KeyCode::Backspace), at(2)), Action::Render);
    assert_eq!(session.note().content, "");
    assert_eq!(session.cursor(), 0);
    assert_eq!(session.note().version, 1);
    assert_eq!(session.note().updated_at, at(1));
}

#[test]
fn delete_removes_the_character_at_the_cursor() {
    let (mut session, _) = Session::open_at(note_with("a\u{e9}b"), 1);
    assert_eq!(session.handle_key_at(key(KeyCode::Delete), at(2)), Action::Render);
    assert_eq!(session.note().content, "ab");
    assert_eq!(session.cursor(), 1);
    assert_eq!(session.note().version, 2);
    assert_eq!(session.note().updated_at, at(2));
}

#[test]
fn the_delete_key_at_the_end_changes_nothing() {
    let mut session = Session::open(note_with("ab"));
    assert_eq!(session.handle_key_at(key(KeyCode::Delete), at(2)), Action::Render);
    assert_eq!(session.note().content, "ab");
    assert_eq!(session.cursor(), 2);
    assert_eq!(session.note().version, 1);
    assert_eq!(session.note().updated_at, at(1));
}

#[test]
fn navigation_changes_neither_version_nor_update_instant() {
    let (mut session, _) = Session::open_at(note_with("ab\ncde\nf"), 4);
    for code in [
        KeyCode::Left,
        KeyCode::Right,
        KeyCode::Up,
        KeyCode::Down,
        KeyCode::Down,
        KeyCode::Up,
        KeyCode::Other,
    ] {
        assert_eq!(session.handle_key_at(key(code), at(7)), Action::Render);
        assert_eq!(session.note().version, 1);
        assert_eq!(session.note().updated_at, at(1));
        assert_eq!(session.note().content, "ab\ncde\nf");
    }
}

#[test]
fn the_cursor_moves_down_twice_from_the_first_line() {
    let (mut session, anomaly) = Session::open_at(note_with("ab\ncde\nf"), 1);
    assert_eq!(anomaly, None);
    session.handle_key_at(key(KeyCode::Down), at(2));
    assert_eq!(session.cursor(), 4);
    session.handle_key_at(key(KeyCode::Down), at(2));
    assert_eq!(session.cursor(), 8);
    session.handle_key_at(key(KeyCode::Down), at(2));
    assert_eq!(session.cursor(), 8);
    session.handle_key_at(key(KeyCode::Up), at(2));
    assert_eq!(session.cursor(), 4);
}

#[test]
fn escape_saves_and_ends_the_session() {
    let mut session = Session::open(note_with("ab"));
    session.handle_key_at(ch('c'), at(2));
    assert_eq!(session.handle_key_at(key(KeyCode::Esc), at(3)), Action::Save);
    assert_eq!(session.status(), Status::Saved);
    assert_eq!(session.note().version, 2);
    let (note, saved) = session.close();
    assert!(saved);
    assert_eq!(note.content, "abc");
    assert_eq!(note.updated_at, at(2));
}

#[test]
fn control_c_discards_and_ends_the_session() {
    let mut session = Session::open(note_with("ab"));
    session.handle_key_at(ch('c'), at(2));
    let abort = KeyPress { code: KeyCode::Char('c'), control: true };
    assert_eq!(session.handle_key_at(abort, at(3)), Action::Quit);
    assert_eq!(session.status(), Status::Discarded);
    let (note, saved) = session.close();
    assert!(!saved);
    assert_eq!(note.content, "abc");
    assert_eq!(note.version, 2);
}

#[test]
fn an_ended_session_ignores_keys() {
    let mut session = Session::open(note_with("ab"));
    session.handle_key_at(key(KeyCode::Esc), at(2));
    assert_eq!(session.handle_key_at(ch('x'), at(3)), Action::Quit);
    assert_eq!(session.handle_key_at(key(KeyCode::Left), at(3)), Action::Quit);
    let abort = KeyPress { code: KeyCode::Char('c'), control: true };
    assert_eq!(session.handle_key_at(abort, at(3)), Action::Quit);
    assert_eq!(session.status(), Status::Saved);
    assert_eq!(session.cursor(), 2);
    assert_eq!(session.note().content, "ab");
    assert_eq!(session.note().version, 1);
}

#[test]
fn a_session_closed_while_editing_is_not_saved() {
    let session = Session::open(note_with("ab"));
    let (note, saved) = session.close();
    assert!(!saved);
    assert_eq!(note.content, "ab");
}

#[test]
fn handle_key_reads_the_clock_for_a_change() {
    let mut session = Session::open(note_with("ab"));
    let before = chrono::Utc::now().timestamp();
    assert_eq!(session.handle_key(ch('c')), Action::Render);
    let after = chrono::Utc::now().timestamp();
    assert_eq!(session.note().content, "abc");
    assert_eq!(session.note().version, 2);
    assert!(before <= session.note().updated_at.secs);
    assert!(session.note().updated_at.secs <= after);
    let updated = session.note().updated_at;
    assert_eq!(session.handle_key(key(KeyCode::Left)), Action::Render);
    assert_eq!(session.note().updated_at, updated);
    assert_eq!(session.note().version, 2);
}

#[test]
fn render_shows_title_content_line_and_column() {
    let (session, _) = Session::open_at(note_with("ab\ncde\nf"), 5);
    let shown = session.render();
    assert_eq!(shown.title, "foo");
    assert_eq!(shown.content, "ab\ncde\nf");
    assert_eq!(shown.line, 1);
    assert_eq!(shown.column, 2);
    let shown = Session::open(note_with("")).render();
    assert_eq!(shown.line, 0);
    assert_eq!(shown.column, 0);
}

#[test]
fn render_does_not_change_the_session() {
    let (session, _) = Session::open_at(note_with("ab\ncde\nf"), 5);
    session.render();
    session.render();
    assert_eq!(session.cursor(), 5);
    assert_eq!(session.note().version, 1);
    assert_eq!(session.note().updated_at, at(1));
}

#[test]
fn edit_note_runs_a_script_to_its_end() {
    let keys = vec![
        ch('h'),
        ch('i'),
        key(KeyCode::Enter),
        ch('x'),
        key(KeyCode::Backspace),
        key(KeyCode::Up),
        key(KeyCode::Delete),
        key(KeyCode::Esc),
    ];
    let (note, saved) = edit_note(note_with(""), &keys);
    assert!(saved);
    assert_eq!(note.content, "i\n");
    assert_eq!(note.version, 1 + 6);
    assert_eq!(note.title, "foo");
    assert_eq!(note.created_at, at(1));
}

#[test]
fn edit_note_stops_changing_at_the_key_that_ends_it() {
    let abort = KeyPress { code: KeyCode::Char('c'), control: true };
    let keys = vec![ch('a'), abort, ch('b'), key(KeyCode::Esc)];
    let (note, saved) = edit_note(note_with(""), &keys);
    assert!(!saved);
    assert_eq!(note.content, "a");
    assert_eq!(note.version, 2);
}

#[test]
fn edit_note_without_an_ending_key_is_not_saved() {
    let (note, saved) = edit_note(note_with("ab"), &vec![ch('c')]);
    assert!(!saved);
    assert_eq!(note.content, "abc");
    let (note, saved) = edit_note(note_with("ab"), &Vec::new());
    assert!(!saved);
    assert_eq!(note.content, "ab");
    assert_eq!(note.version, 1);
}
