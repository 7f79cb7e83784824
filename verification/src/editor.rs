//! The editing session: one note, a cursor in its content, and the keys that
//! change them until the session ends.

use vstd::prelude::*;
use vstd::utf8::*;
use crate::clock::{current_time, Timestamp};
use crate::note::{Note, NoteView};
use crate::error::GardenError;
use crate::cursor::{
    above, below, clamp_cursor, column, cursor_column, cursor_line, delete_at, delete_before,
    down_target, erased, insert_char, left_of, lemma_erased, lemma_line_end, lemma_line_start,
    lemma_typed, line_end, line_number, line_start, move_down, move_left, move_right, move_up,
    right_of, typed, up_target,
};
use crate::text::{floor_boundary, lemma_ceil_boundary, lemma_floor_boundary};

verus! {

/// The key of a key press.
#[derive(Clone, Copy, Debug, PartialEq, Eq, Structural)]
pub enum KeyCode {
    Esc,
    Char(char),
    Backspace,
    Delete,
    Left,
    Right,
    Up,
    Down,
    Enter,
    /// Any key that the editor does not use.
    Other,
}

/// A key press: the key, and whether Control was held.
#[derive(Clone, Copy, Debug, PartialEq, Eq, Structural)]
pub struct KeyPress {
    pub code: KeyCode,
    pub control: bool,
}

/// What a key press asks of the editor.
#[derive(Clone, Copy, Debug, PartialEq, Eq, Structural)]
pub enum Command {
    /// Keep the note and end the session.
    Save,
    /// End the session without keeping the note.
    Abort,
    Insert(char),
    DeleteBefore,
    DeleteAt,
    MoveLeft,
    MoveRight,
    MoveUp,
    MoveDown,
    Ignore,
}

/// Where a session stands.
#[derive(Clone, Copy, Debug, PartialEq, Eq, Structural)]
pub enum Status {
    Editing,
    Saved,
    Discarded,
}

/// What the driver of a session does after a key press.
#[derive(Clone, Copy, Debug, PartialEq, Eq, Structural)]
pub enum Action {
    /// Draw the session again and wait for the next key.
    Render,
    /// Store the note, then stop.
    Save,
    /// Stop.
    Quit,
}

/// The command of a key press. Escape saves, and Control with `c` aborts;
/// any other character is typed, with or without Control; Enter types a line
/// feed.
pub open spec fn command_of(key: KeyPress) -> Command {
    match key.code {
        KeyCode::Esc => Command::Save,
        KeyCode::Char(c) => if c == 'c' && key.control {
            Command::Abort
        } else {
            Command::Insert(c)
        },
        KeyCode::Backspace => Command::DeleteBefore,
        KeyCode::Delete => Command::DeleteAt,
        KeyCode::Left => Command::MoveLeft,
        KeyCode::Right => Command::MoveRight,
        KeyCode::Up => Command::MoveUp,
        KeyCode::Down => Command::MoveDown,
        KeyCode::Enter => Command::Insert('\n'),
        KeyCode::Other => Command::Ignore,
    }
}

/// The command of a key press.
pub fn decode_key(key: KeyPress) -> (command: Command)
    ensures
        command == command_of(key),
{
    match key.code {
        KeyCode::Esc => Command::Save,
        KeyCode::Char(c) => if c == 'c' && key.control {
            Command::Abort
        } else {
            Command::Insert(c)
        },
        KeyCode::Backspace => Command::DeleteBefore,
        KeyCode::Delete => Command::DeleteAt,
        KeyCode::Left => Command::MoveLeft,
        KeyCode::Right => Command::MoveRight,
        KeyCode::Up => Command::MoveUp,
        KeyCode::Down => Command::MoveDown,
        KeyCode::Enter => Command::Insert('\n'),
        KeyCode::Other => Command::Ignore,
    }
}

/// A session, to the contracts.
pub struct SessionView {
    pub note: NoteView,
    /// The cursor, a byte offset into the content of the note.
    pub cursor: int,
    pub status: Status,
}

impl SessionView {
    /// The cursor splits no character of the content.
    pub open spec fn wf(self) -> bool {
        is_char_boundary(encode_utf8(self.note.content), self.cursor)
    }

    /// The session that opens on `note`: editing, the cursor at the end.
    pub open spec fn opened(note: NoteView) -> SessionView {
        SessionView {
            note,
            cursor: encode_utf8(note.content).len() as int,
            status: Status::Editing,
        }
    }

    /// Whether `command` changes the content of the note of this session.
    pub open spec fn edits(self, command: Command) -> bool {
        self.status == Status::Editing && match command {
            Command::Insert(_) => true,
            Command::DeleteBefore => self.cursor > 0,
            Command::DeleteAt => self.cursor < encode_utf8(self.note.content).len(),
            _ => false,
        }
    }

    /// The session after `command`, carried out at the instant `now`. A
    /// session that has ended stays as it is.
    pub open spec fn step(self, command: Command, now: Timestamp) -> SessionView {
        let text = self.note.content;
        let bytes = encode_utf8(text);
        if self.status != Status::Editing {
            self
        } else {
            match command {
                Command::Save => SessionView { status: Status::Saved, ..self },
                Command::Abort => SessionView { status: Status::Discarded, ..self },
                Command::Insert(c) => SessionView {
                    note: self.note.with_content(typed(text, self.cursor, c), now),
                    cursor: self.cursor + encode_scalar(c as u32).len(),
                    ..self
                },
                Command::DeleteBefore => if self.cursor > 0 {
                    SessionView {
                        note: self.note.with_content(
                            erased(text, left_of(bytes, self.cursor), self.cursor),
                            now,
                        ),
                        cursor: left_of(bytes, self.cursor),
                        ..self
                    }
                } else {
                    self
                },
                Command::DeleteAt => if self.cursor < bytes.len() {
                    SessionView {
                        note: self.note.with_content(
                            erased(text, self.cursor, right_of(bytes, self.cursor)),
                            now,
                        ),
                        ..self
                    }
                } else {
                    self
                },
                Command::MoveLeft => SessionView { cursor: left_of(bytes, self.cursor), ..self },
                Command::MoveRight => SessionView { cursor: right_of(bytes, self.cursor), ..self },
                Command::MoveUp => SessionView { cursor: above(bytes, self.cursor), ..self },
                Command::MoveDown => SessionView { cursor: below(bytes, self.cursor), ..self },
                Command::Ignore => self,
            }
        }
    }

    /// The session after the key presses `keys`, the first first, each
    /// carried out at the instant that `times` holds for it.
    pub open spec fn run(self, keys: Seq<KeyPress>, times: Seq<Timestamp>) -> SessionView
        decreases keys.len(),
    {
        if keys.len() == 0 {
            self
        } else {
            self.run(keys.drop_last(), times.drop_last()).step(
                command_of(keys.last()),
                times.last(),
            )
        }
    }

    /// What the driver does after `command`.
    pub open spec fn action(self, command: Command) -> Action {
        if self.status != Status::Editing {
            Action::Quit
        } else {
            match command {
                Command::Save => Action::Save,
                Command::Abort => Action::Quit,
                _ => Action::Render,
            }
        }
    }
}

/// An editing session on one note.
#[derive(Debug)]
pub struct Session {
    note: Note,
    cursor: usize,
    status: Status,
}

impl View for Session {
    type V = SessionView;

    closed spec fn view(&self) -> SessionView {
        SessionView { note: self.note@, cursor: self.cursor as int, status: self.status }
    }
}

impl Session {
    #[verifier::type_invariant]
    spec fn cursor_on_boundary(self) -> bool {
        is_char_boundary(encode_utf8(self.note.content@), self.cursor as int)
    }

    /// Opens a session on `note`, the cursor at the end of its content.
    pub fn open(note: Note) -> (session: Session)
        ensures
            session@ == SessionView::opened(note@),
            session@.wf(),
    {
        let cursor = note.content.as_str().as_bytes().len();
        proof {
            encode_utf8_valid_utf8(note.content@);
            is_char_boundary_start_end_of_seq(encode_utf8(note.content@));
        }
        Session { note, cursor, status: Status::Editing }
    }

    /// Opens a session on `note` with the cursor at `offset`. An offset that
    /// lies beyond the content or inside one of its characters is no cursor:
    /// the session then opens at the nearest cursor before it, and the offset
    /// is reported as invalid for the caller to log.
    pub fn open_at(note: Note, offset: usize) -> (opened: (Session, Option<GardenError>))
        ensures
            opened.0@ == (SessionView {
                cursor: floor_boundary(encode_utf8(note@.content), offset as int),
                ..SessionView::opened(note@)
            }),
            opened.0@.wf(),
            match opened.1 {
                None => is_char_boundary(encode_utf8(note@.content), offset as int)
                    && opened.0@.cursor == offset,
                Some(why) => !is_char_boundary(encode_utf8(note@.content), offset as int) && why
                    == GardenError::InvalidOffset,
            },
    {
        let cursor = clamp_cursor(note.content.as_str(), offset);
        let anomaly = if cursor == offset {
            None
        } else {
            Some(GardenError::InvalidOffset)
        };
        (Session { note, cursor, status: Status::Editing }, anomaly)
    }

    /// The note of the session.
    pub fn note(&self) -> (note: &Note)
        ensures
            note@ == self@.note,
    {
        &self.note
    }

    /// The cursor: a byte offset into the content, never inside a character.
    pub fn cursor(&self) -> (cursor: usize)
        ensures
            cursor == self@.cursor,
            self@.wf(),
    {
        proof {
            use_type_invariant(self);
        }
        self.cursor
    }

    /// Where the session stands.
    pub fn status(&self) -> (status: Status)
        ensures
            status == self@.status,
    {
        self.status
    }

    /// Carries out a key press at the instant `now` and says what the driver
    /// does next.
    pub fn handle_key_at(&mut self, key: KeyPress, now: Timestamp) -> (action: Action)
        requires
            old(self)@.note.version < u32::MAX,
        ensures
            final(self)@ == old(self)@.step(command_of(key), now),
            action == old(self)@.action(command_of(key)),
            final(self)@.wf(),
    {
        proof {
            use_type_invariant(&*self);
        }
        let command = decode_key(key);
        match self.status {
            Status::Editing => {},
            _ => {
                return Action::Quit;
            },
        }
        match command {
            Command::Save => {
                self.status = Status::Saved;
                Action::Save
            },
            Command::Abort => {
                self.status = Status::Discarded;
                Action::Quit
            },
            Command::Insert(c) => {
                let mut text = self.note.content.clone();
                let moved = insert_char(&mut text, self.cursor, c);
                self.note.update_content_at(text, now);
                self.cursor = moved;
                Action::Render
            },
            Command::DeleteBefore => {
                if self.cursor > 0 {
                    let mut text = self.note.content.clone();
                    let moved = delete_before(&mut text, self.cursor);
                    self.cursor = moved;
                    self.note.update_content_at(text, now);
                }
                Action::Render
            },
            Command::DeleteAt => {
                let mut text = self.note.content.clone();
                let removed = delete_at(&mut text, self.cursor);
                if removed {
                    self.note.update_content_at(text, now);
                }
                Action::Render
            },
            Command::MoveLeft => {
                self.cursor = move_left(self.note.content.as_str(), self.cursor);
                Action::Render
            },
            Command::MoveRight => {
                self.cursor = move_right(self.note.content.as_str(), self.cursor);
                Action::Render
            },
            Command::MoveUp => {
                self.cursor = move_up(self.note.content.as_str(), self.cursor);
                Action::Render
            },
            Command::MoveDown => {
                self.cursor = move_down(self.note.content.as_str(), self.cursor);
                Action::Render
            },
            Command::Ignore => Action::Render,
        }
    }

    /// Carries out a key press and says what the driver does next. A key
    /// that changes the content updates the note at the instant the clock
    /// gives, whatever it is.
    pub fn handle_key(&mut self, key: KeyPress) -> (action: Action)
        requires
            old(self)@.note.version < u32::MAX,
        ensures
            final(self)@ == old(self)@.step(command_of(key), final(self)@.note.updated_at),
            action == old(self)@.action(command_of(key)),
            final(self)@.wf(),
    {
        let now = current_time();
        self.handle_key_at(key, now)
    }

    /// What there is to draw: the title, the content, and the line and
    /// column of the cursor.
    pub fn render(&self) -> (shown: ViewState)
        ensures
            shown.title@ == self@.note.title,
            shown.content@ == self@.note.content,
            shown.line == line_number(encode_utf8(self@.note.content), self@.cursor),
            shown.column == column(encode_utf8(self@.note.content), self@.cursor),
    {
        proof {
            use_type_invariant(self);
            encode_utf8_valid_utf8(self.note.content@);
        }
        let content = self.note.content.as_str();
        ViewState {
            title: self.note.title.clone(),
            content: self.note.content.clone(),
            line: cursor_line(content, self.cursor),
            column: cursor_column(content, self.cursor),
        }
    }

    /// Ends the session: the note as it stands, and whether it is to be kept.
    pub fn close(self) -> (outcome: (Note, bool))
        ensures
            outcome.0@ == self@.note,
            outcome.1 == (self@.status == Status::Saved),
    {
        let saved = match self.status {
            Status::Saved => true,
            _ => false,
        };
        (self.note, saved)
    }
}

/// What a session shows.
#[derive(Debug)]
pub struct ViewState {
    pub title: String,
    pub content: String,
    /// The line of the cursor, counted from 0.
    pub line: usize,
    /// The distance of the cursor from the start of its line, in bytes.
    pub column: usize,
}

/// Edits `note` by the key presses `keys`, the first first, until one of them
/// ends the session or none is left, and returns the note as it then stands
/// and whether the session ended by saving. The keys after the one that ends
/// the session do nothing. Each key that changes the content updates the note
/// at the instant the clock gives.
pub fn edit_note(note: Note, keys: &Vec<KeyPress>) -> (outcome: (Note, bool))
    requires
        note.version + keys.len() <= u32::MAX,
    ensures
        exists|times: Seq<Timestamp>|
            {
                let end = #[trigger] SessionView::opened(note@).run(keys@, times);
                &&& times.len() == keys@.len()
                &&& outcome.0@ == end.note
                &&& outcome.1 == (end.status == Status::Saved)
            },
{
    let ghost start = SessionView::opened(note@);
    let ghost mut times: Seq<Timestamp> = Seq::empty();
    let mut session = Session::open(note);
    let mut editing = true;
    let mut i: usize = 0;
    while editing && i < keys.len()
        invariant
            i <= keys.len(),
            times.len() == i,
            session@ == start.run(keys@.take(i as int), times),
            !editing ==> session@.status != Status::Editing,
            session@.note.version <= start.note.version + i,
            start.note.version + keys.len() <= u32::MAX,
        decreases keys.len() - i,
    {
        let ghost before = session@;
        let action = session.handle_key(keys[i]);
        proof {
            let now = session@.note.updated_at;
            let sofar = keys@.take(i + 1);
            assert(sofar.drop_last() =~= keys@.take(i as int));
            assert(times.push(now).drop_last() =~= times);
            times = times.push(now);
            lemma_step_version(before, command_of(keys@[i as int]), now);
        }
        editing = match action {
            Action::Render => true,
            _ => false,
        };
        i += 1;
    }
    proof {
        // The keys that are left find the session ended, whenever they come.
        let rest = Seq::new((keys@.len() - i) as nat, |k: int| session@.note.updated_at);
        let all = times + rest;
        assert(all.take(i as int) =~= times);
        if i < keys.len() {
            lemma_run_past_end(start, keys@, all, i as int);
        } else {
            assert(keys@.take(i as int) =~= keys@);
            assert(all =~= times);
        }
        assert(session@ == start.run(keys@, all));
    }
    session.close()
}

/// Keys that come after the end of a session change nothing.
pub proof fn lemma_run_past_end(
    session: SessionView,
    keys: Seq<KeyPress>,
    times: Seq<Timestamp>,
    count: int,
)
    requires
        0 <= count <= keys.len(),
        times.len() == keys.len(),
        session.run(keys.take(count), times.take(count)).status != Status::Editing,
    ensures
        session.run(keys, times) == session.run(keys.take(count), times.take(count)),
    decreases keys.len() - count,
{
    if count == keys.len() {
        assert(keys.take(count) =~= keys);
        assert(times.take(count) =~= times);
    } else {
        assert(keys.take(count + 1).drop_last() =~= keys.take(count));
        assert(times.take(count + 1).drop_last() =~= times.take(count));
        lemma_run_past_end(session, keys, times, count + 1);
    }
}

/// A command that changes the content raises the version by exactly 1; any
/// other leaves the note as it is, its version and the instant of its last
/// update with it.
pub proof fn lemma_step_version(session: SessionView, command: Command, now: Timestamp)
    requires
        session.note.version < u32::MAX,
    ensures
        session.edits(command) ==> session.step(command, now).note.version
            == session.note.version + 1,
        !session.edits(command) ==> session.step(command, now).note == session.note,
        session.step(command, now).note.version >= session.note.version,
{
}

/// Over any key presses the version of the note never falls, and rises by at
/// most 1 for each.
pub proof fn lemma_run_version(session: SessionView, keys: Seq<KeyPress>, times: Seq<Timestamp>)
    requires
        session.note.version + keys.len() <= u32::MAX,
    ensures
        session.note.version <= session.run(keys, times).note.version <= session.note.version
            + keys.len(),
    decreases keys.len(),
{
    if keys.len() > 0 {
        lemma_run_version(session, keys.drop_last(), times.drop_last());
        lemma_step_version(
            session.run(keys.drop_last(), times.drop_last()),
            command_of(keys.last()),
            times.last(),
        );
    }
}

/// A step keeps the cursor off the inside of every character.
pub proof fn lemma_step_keeps_cursor(session: SessionView, command: Command, now: Timestamp)
    requires
        session.wf(),
    ensures
        session.step(command, now).wf(),
{
    let text = session.note.content;
    let bytes = encode_utf8(text);
    let cursor = session.cursor;
    encode_utf8_valid_utf8(text);
    if session.status == Status::Editing {
        match command {
            Command::Insert(c) => {
                lemma_typed(text, cursor, c);
            },
            Command::DeleteBefore => {
                if cursor > 0 {
                    lemma_floor_boundary(bytes, cursor - 1);
                    lemma_erased(text, left_of(bytes, cursor), cursor);
                }
            },
            Command::DeleteAt => {
                if cursor < bytes.len() {
                    lemma_ceil_boundary(bytes, cursor + 1);
                    lemma_erased(text, cursor, right_of(bytes, cursor));
                }
            },
            Command::MoveLeft => {
                lemma_floor_boundary(bytes, cursor - 1);
            },
            Command::MoveRight => {
                lemma_ceil_boundary(bytes, cursor + 1);
            },
            Command::MoveUp => {
                lemma_line_start(bytes, cursor);
                if line_start(bytes, cursor) > 0 {
                    lemma_line_start(bytes, line_start(bytes, cursor) - 1);
                }
                lemma_floor_boundary(bytes, up_target(bytes, cursor));
            },
            Command::MoveDown => {
                lemma_line_end(bytes, cursor);
                lemma_line_start(bytes, cursor);
                if line_end(bytes, cursor) < bytes.len() {
                    lemma_line_end(bytes, line_end(bytes, cursor) + 1);
                }
                lemma_floor_boundary(bytes, down_target(bytes, cursor));
            },
            _ => {},
        }
    }
}

} // verus!
