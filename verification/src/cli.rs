//! The commands of the garden, and what each of them does to the notes.

use vstd::prelude::*;
use vstd::string::StringExecFns;
use crate::editor::{Session, SessionView};
use crate::error::GardenError;
use crate::note::{Note, NoteView};
use crate::storage::{
    add_tag, create_note, created, link_notes, linked, list_notes, load_note, place_of, tagged,
    view_note, Garden,
};
use crate::visualizer::{dot_text, graph_fits, link_edges, titles_of, visualize_notes};

verus! {

/// A command of the garden.
#[derive(Debug)]
pub enum Cli {
    /// Create a new note.
    New { title: String },
    /// List all notes.
    List,
    /// View a specific note.
    View { title: String },
    /// Edit a note.
    Edit { title: String },
    /// Create a link between two notes.
    Link { from: String, to: String },
    /// Add a tag to a note.
    Tag { title: String, tag: String },
    /// Search notes.
    Search { query: String },
    /// Visualize note connections.
    Visualize,
    /// Sync notes with a repository.
    Sync,
}

/// What a command came to.
#[derive(Debug)]
pub enum Outcome {
    /// The note was made.
    Created { title: String },
    /// A note of that title was there already; nothing was made.
    AlreadyExists,
    /// The titles of the notes.
    Listed { titles: Vec<String> },
    /// The note that was asked for.
    Viewed { note: Note },
    /// No note has the title that was asked for.
    NotFound,
    /// The two notes link to each other.
    Linked { from: String, to: String },
    /// One of the two notes, or both, are missing; nothing was linked.
    PairNotFound,
    /// The note has the tag.
    Tagged { title: String, tag: String },
    /// A session on a copy of the note, for the caller to drive with keys.
    Editing { session: Session },
    /// The graph of the notes, in the DOT language.
    Drawn { dot: String },
    /// The caller is to look `query` up in its index of the notes.
    Search { query: String },
    /// The caller is to bring the stored notes in line with its repository.
    Sync,
}

impl Cli {
    /// Whether `result` and the notes `after` are what this command makes
    /// of the notes `before`.
    pub open spec fn ran(
        self,
        before: Seq<NoteView>,
        after: Seq<NoteView>,
        result: Result<Outcome, GardenError>,
    ) -> bool {
        match self {
            Cli::New { title } => {
                if place_of(before, title@) is Some {
                    after == before && result matches Ok(Outcome::AlreadyExists)
                } else {
                    &&& after == created(before, title@, after.last().created_at)
                    &&& result matches Ok(Outcome::Created { title: made })
                    &&& made@ == title@
                }
            },
            Cli::List => {
                &&& after == before
                &&& result matches Ok(Outcome::Listed { titles })
                &&& titles@.len() == before.len()
                &&& forall|i: int|
                    0 <= i < titles@.len() ==> (#[trigger] titles@[i])@ == before[i].title
            },
            Cli::View { title } => {
                &&& after == before
                &&& match place_of(before, title@) {
                    Some(i) => result matches Ok(Outcome::Viewed { note }) && note@ == before[i],
                    None => result matches Ok(Outcome::NotFound),
                }
            },
            Cli::Edit { title } => {
                &&& after == before
                &&& match place_of(before, title@) {
                    Some(i) => result matches Ok(Outcome::Editing { session }) && session@
                        == SessionView::opened(before[i]),
                    None => result == Err::<Outcome, GardenError>(GardenError::NotFound),
                }
            },
            Cli::Link { from, to } => {
                match (place_of(before, from@), place_of(before, to@)) {
                    (Some(i), Some(j)) => {
                        &&& after == linked(
                            before,
                            from@,
                            to@,
                            after[i].updated_at,
                            after[j].updated_at,
                        )
                        &&& result matches Ok(Outcome::Linked { from: first, to: second })
                        &&& first@ == from@
                        &&& second@ == to@
                    },
                    _ => after == before && result matches Ok(Outcome::PairNotFound),
                }
            },
            Cli::Tag { title, tag } => {
                match place_of(before, title@) {
                    Some(i) => {
                        &&& after == tagged(before, title@, tag@, after[i].updated_at)
                        &&& result matches Ok(Outcome::Tagged { title: whose, tag: what })
                        &&& whose@ == title@
                        &&& what@ == tag@
                    },
                    None => after == before && result matches Ok(Outcome::NotFound),
                }
            },
            Cli::Search { query } => {
                &&& after == before
                &&& result matches Ok(Outcome::Search { query: asked })
                &&& asked@ == query@
            },
            Cli::Visualize => {
                &&& after == before
                &&& if graph_fits(before) {
                    result matches Ok(Outcome::Drawn { dot }) && dot@ == dot_text(
                        titles_of(before),
                        link_edges(before),
                    )
                } else {
                    result == Err::<Outcome, GardenError>(GardenError::TooLarge)
                }
            },
            Cli::Sync => after == before && result matches Ok(Outcome::Sync),
        }
    }

    /// Carries the command out on the notes of the garden, as far as the
    /// notes alone decide it, and says what it came to. A session, a search
    /// and a sync are handed to the caller.
    pub fn run(&self, garden: &mut Garden) -> (result: Result<Outcome, GardenError>)
        ensures
            self.ran(old(garden)@, final(garden)@, result),
    {
        match self {
            Cli::New { title } => {
                if create_note(garden, title.as_str()) {
                    Ok(Outcome::Created { title: title.clone() })
                } else {
                    Ok(Outcome::AlreadyExists)
                }
            },
            Cli::List => Ok(Outcome::Listed { titles: list_notes(garden) }),
            Cli::View { title } => match view_note(garden, title.as_str()) {
                Some(note) => Ok(Outcome::Viewed { note: note.duplicate() }),
                None => Ok(Outcome::NotFound),
            },
            Cli::Edit { title } => match load_note(garden, title.as_str()) {
                Ok(note) => Ok(Outcome::Editing { session: Session::open(note) }),
                Err(why) => Err(why),
            },
            Cli::Link { from, to } => {
                if link_notes(garden, from.as_str(), to.as_str()) {
                    Ok(Outcome::Linked { from: from.clone(), to: to.clone() })
                } else {
                    Ok(Outcome::PairNotFound)
                }
            },
            Cli::Tag { title, tag } => {
                if add_tag(garden, title.as_str(), tag.as_str()) {
                    Ok(Outcome::Tagged { title: title.clone(), tag: tag.clone() })
                } else {
                    Ok(Outcome::NotFound)
                }
            },
            Cli::Search { query } => Ok(Outcome::Search { query: query.clone() }),
            Cli::Visualize => match visualize_notes(garden) {
                Some(dot) => Ok(Outcome::Drawn { dot }),
                None => Err(GardenError::TooLarge),
            },
            Cli::Sync => Ok(Outcome::Sync),
        }
    }
}

impl Outcome {
    /// What there is to say of the outcome in one line, where one line says
    /// it.
    pub open spec fn line(self) -> Option<Seq<char>> {
        match self {
            Outcome::Created { title } => Some(
                "Note '"@ + title@ + "' created successfully."@,
            ),
            Outcome::AlreadyExists => Some("Note with this title already exists."@),
            Outcome::NotFound => Some("Note not found."@),
            Outcome::Linked { from, to } => Some(
                "Link created between '"@ + from@ + "' and '"@ + to@ + "'."@,
            ),
            Outcome::PairNotFound => Some("One or both notes not found."@),
            Outcome::Tagged { title, tag } => Some(
                "Tag '"@ + tag@ + "' added to note '"@ + title@ + "'."@,
            ),
            _ => None,
        }
    }

    /// The line that tells the user of the outcome, where one line says it.
    pub fn message(&self) -> (text: Option<String>)
        ensures
            match text {
                Some(text) => self.line() == Some(text@),
                None => self.line() is None,
            },
    {
        match self {
            Outcome::Created { title } => {
                let mut text = String::from_str("Note '");
                text.append(title.as_str());
                text.append("' created successfully.");
                Some(text)
            },
            Outcome::AlreadyExists => Some(String::from_str("Note with this title already exists.")),
            Outcome::NotFound => Some(String::from_str("Note not found.")),
            Outcome::Linked { from, to } => {
                let mut text = String::from_str("Link created between '");
                text.append(from.as_str());
                text.append("' and '");
                text.append(to.as_str());
                text.append("'.");
                Some(text)
            },
            Outcome::PairNotFound => Some(String::from_str("One or both notes not found.")),
            Outcome::Tagged { title, tag } => {
                let mut text = String::from_str("Tag '");
                text.append(tag.as_str());
                text.append("' added to note '");
                text.append(title.as_str());
                text.append("'.");
                Some(text)
            },
            _ => None,
        }
    }
}

} // verus!
