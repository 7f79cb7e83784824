//! A digital garden: plain-text notes with links, tags and versions, and the
//! text-editing engine that drives an interactive session over one note.
//!
//! - [`note`] holds the note itself and the changes that keep its links and
//!   tags free of duplicates.
//! - [`text`] and [`cursor`] hold the editing engine: UTF-8 text, the cursor
//!   as a byte offset that splits no character, its moves over characters and
//!   lines, and the edits made at it.
//! - [`editor`] holds the session: a note, a cursor, and the keys that change
//!   them until the session is saved or discarded.
//! - [`storage`] names the files of the notes and holds the garden, the notes
//!   in memory, with the operations that create, link and tag them.
//! - [`visualizer`] draws the notes and their links as a graph.
//! - [`cli`] holds the commands and carries them out on a garden.
//!
//! Nothing here reads or writes files or the terminal: a program around the
//! library reads the notes, hands them over, and writes back what changed.

pub mod clock;
pub mod error;
pub mod note;
pub mod text;
pub mod cursor;
pub mod editor;
pub mod storage;
pub mod visualizer;
pub mod cli;
