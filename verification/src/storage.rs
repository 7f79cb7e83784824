//! Where the notes are kept, and the garden: the notes as they are held in
//! memory between reading and writing them.

use std::path::PathBuf;
use vstd::prelude::*;
use vstd::string::StringExecFns;
use crate::clock::Timestamp;
use crate::error::GardenError;
use crate::note::{lemma_link_twice, Note, NoteView};
use crate::text::{ends_with, same_text, strip_suffix, trimmed_end};

verus! {

/// The directory that holds the garden, relative to where the program runs.
pub const GARDEN_PATH: &'static str = "digital_garden";

/// What ends the name of the file of every note.
pub const NOTE_SUFFIX: &'static str = ".json";

/// `std::path::PathBuf`, taken as it is: of a path the contracts know only
/// which text, or which directory and name, it was made of.
#[verifier::external_type_specification]
#[verifier::external_body]
pub struct ExPathBuf(PathBuf);

/// The path that `PathBuf::from` makes of a text.
pub uninterp spec fn path_from(text: Seq<char>) -> PathBuf;

/// The path that `Path::join` makes of the path of `base` and the name `name`.
pub uninterp spec fn path_joined(base: Seq<char>, name: Seq<char>) -> PathBuf;

/// The path that a text names, by `PathBuf::from`.
///
/// Trusted: the result is a function of the text alone.
#[verifier::external_body]
fn path_of(text: &str) -> (path: PathBuf)
    ensures
        path == path_from(text@),
{
    PathBuf::from(text)
}

/// The path of `name` under the directory `base`, by `Path::join`.
///
/// Trusted: the result is a function of the two texts alone.
#[verifier::external_body]
fn path_under(base: &str, name: &str) -> (path: PathBuf)
    ensures
        path == path_joined(base@, name@),
{
    std::path::Path::new(base).join(name)
}

/// The directory of the garden.
pub fn garden_path() -> (path: PathBuf)
    ensures
        path == path_from(GARDEN_PATH@),
{
    path_of(GARDEN_PATH)
}

/// The name of the file that holds the note titled `title`.
pub fn note_file_name(title: &str) -> (name: String)
    ensures
        name@ == title@ + NOTE_SUFFIX@,
{
    let mut name = String::from_str(title);
    name.append(NOTE_SUFFIX);
    name
}

/// The file that holds the note titled `title` of the garden kept in the
/// directory `root`: named after the title, in that directory.
pub fn note_path_in(root: &str, title: &str) -> (path: PathBuf)
    ensures
        path == path_joined(root@, title@ + NOTE_SUFFIX@),
{
    let name = note_file_name(title);
    path_under(root, name.as_str())
}

/// The file that holds the note titled `title`: named after the title, in
/// the directory of the garden.
pub fn note_path(title: &str) -> (path: PathBuf)
    ensures
        path == path_joined(GARDEN_PATH@, title@ + NOTE_SUFFIX@),
{
    note_path_in(GARDEN_PATH, title)
}

/// The title under which a file of the garden's directory is listed: the
/// name of the file without the suffix of the notes at its end, as often as it
/// stands there. A file whose name does not end with that suffix holds no
/// note and is not listed.
pub fn listed_title(file_name: &str) -> (title: Option<String>)
    ensures
        match title {
            Some(title) => ends_with(file_name@, NOTE_SUFFIX@) && title@ == trimmed_end(
                file_name@,
                NOTE_SUFFIX@,
            ),
            None => !ends_with(file_name@, NOTE_SUFFIX@),
        },
{
    proof {
        reveal_strlit(".json");
    }
    let mut rest: &str = match strip_suffix(file_name, NOTE_SUFFIX) {
        Some(rest) => rest,
        None => {
            return None;
        },
    };
    loop
        invariant
            NOTE_SUFFIX@.len() == 5,
            trimmed_end(rest@, NOTE_SUFFIX@) == trimmed_end(file_name@, NOTE_SUFFIX@),
        ensures
            rest@ == trimmed_end(file_name@, NOTE_SUFFIX@),
        decreases rest@.len(),
    {
        match strip_suffix(rest, NOTE_SUFFIX) {
            Some(shorter) => {
                rest = shorter;
            },
            None => {
                break;
            },
        }
    }
    Some(String::from_str(rest))
}

/// The notes of a garden as they are held in memory, in the order in which
/// they came.
#[derive(Debug)]
pub struct Garden {
    pub notes: Vec<Note>,
}

impl View for Garden {
    type V = Seq<NoteView>;

    open spec fn view(&self) -> Seq<NoteView> {
        self.notes@.map_values(|note: Note| note@)
    }
}

/// The place of the first of `notes` that is titled `title`, if there is one.
pub open spec fn place_of(notes: Seq<NoteView>, title: Seq<char>) -> Option<int>
    decreases notes.len(),
{
    if notes.len() == 0 {
        None
    } else {
        match place_of(notes.drop_last(), title) {
            Some(i) => Some(i),
            None => if notes.last().title == title {
                Some(notes.len() - 1)
            } else {
                None
            },
        }
    }
}

/// No two of `notes` have the same title.
pub open spec fn distinct_titles(notes: Seq<NoteView>) -> bool {
    forall|i: int, j: int|
        0 <= i < j < notes.len() ==> (#[trigger] notes[i]).title != (#[trigger] notes[j]).title
}

/// What `place_of` finds: a note of that title with none of that title before
/// it, or nothing where no note has that title.
pub proof fn lemma_place_of(notes: Seq<NoteView>, title: Seq<char>)
    ensures
        match place_of(notes, title) {
            Some(i) => {
                &&& 0 <= i < notes.len()
                &&& notes[i].title == title
                &&& forall|j: int| 0 <= j < i ==> notes[j].title != title
            },
            None => forall|j: int| 0 <= j < notes.len() ==> notes[j].title != title,
        },
    decreases notes.len(),
{
    if notes.len() > 0 {
        let front = notes.drop_last();
        lemma_place_of(front, title);
        assert(forall|j: int| 0 <= j < front.len() ==> front[j] == notes[j]);
    }
}

/// The place of a title is the place of any note of that title that has none
/// of that title before it.
pub proof fn lemma_place_is(notes: Seq<NoteView>, title: Seq<char>, i: int)
    requires
        0 <= i < notes.len(),
        notes[i].title == title,
        forall|j: int| 0 <= j < i ==> notes[j].title != title,
    ensures
        place_of(notes, title) == Some(i),
{
    lemma_place_of(notes, title);
}

impl Garden {
    /// A garden without notes.
    pub fn new() -> (garden: Garden)
        ensures
            garden@ == Seq::<NoteView>::empty(),
    {
        let garden = Garden { notes: Vec::new() };
        proof {
            assert(garden@ =~= Seq::<NoteView>::empty());
        }
        garden
    }

    /// The place of the first note titled `title`, if there is one.
    pub fn find(&self, title: &str) -> (place: Option<usize>)
        ensures
            match place {
                Some(i) => place_of(self@, title@) == Some(i as int) && i < self.notes.len(),
                None => place_of(self@, title@) is None,
            },
    {
        let mut i: usize = 0;
        while i < self.notes.len()
            invariant
                i <= self.notes.len(),
                forall|j: int| 0 <= j < i ==> self@[j].title != title@,
            decreases self.notes.len() - i,
        {
            if same_text(self.notes[i].title.as_str(), title) {
                proof {
                    lemma_place_is(self@, title@, i as int);
                }
                return Some(i);
            }
            i += 1;
        }
        proof {
            lemma_place_of(self@, title@);
        }
        None
    }
}

/// The notes after a note titled `title` was made at the instant `now`:
/// with a new, empty note at their end, or as they were where one of them has
/// that title already.
pub open spec fn created(notes: Seq<NoteView>, title: Seq<char>, now: Timestamp) -> Seq<NoteView> {
    if place_of(notes, title) is Some {
        notes
    } else {
        notes.push(NoteView::fresh(title, now))
    }
}

/// The notes after `note` was saved: in the place of the first note of its
/// title, or at their end where none has that title.
pub open spec fn saved(notes: Seq<NoteView>, note: NoteView) -> Seq<NoteView> {
    match place_of(notes, note.title) {
        Some(i) => notes.update(i, note),
        None => notes.push(note),
    }
}

/// The notes after the notes titled `from` and `to` were linked to each
/// other, the one at the instant `first` and the other at `second`; as they
/// were where one of the two titles is missing. Both notes are read before
/// either is written, so a note that is linked to itself is written as the
/// second writing leaves it.
pub open spec fn linked(
    notes: Seq<NoteView>,
    from: Seq<char>,
    to: Seq<char>,
    first: Timestamp,
    second: Timestamp,
) -> Seq<NoteView> {
    match (place_of(notes, from), place_of(notes, to)) {
        (Some(i), Some(j)) => notes.update(i, notes[i].with_link(to, first)).update(
            j,
            notes[j].with_link(from, second),
        ),
        _ => notes,
    }
}

/// The notes after the note titled `title` was given the tag `tag` at the
/// instant `now`; as they were where no note has that title.
pub open spec fn tagged(
    notes: Seq<NoteView>,
    title: Seq<char>,
    tag: Seq<char>,
    now: Timestamp,
) -> Seq<NoteView> {
    match place_of(notes, title) {
        Some(i) => notes.update(i, notes[i].with_tag(tag, now)),
        None => notes,
    }
}

/// Makes a new, empty note titled `title`, unless the garden has a note of
/// that title: then the garden stays as it is. Returns whether the note was
/// made.
pub fn create_note(garden: &mut Garden, title: &str) -> (made: bool)
    ensures
        made == (place_of(old(garden)@, title@) is None),
        !made ==> *final(garden) == *old(garden),
        made ==> final(garden)@ == created(
            old(garden)@,
            title@,
            final(garden)@.last().created_at,
        ),
        distinct_titles(old(garden)@) ==> distinct_titles(final(garden)@),
{
    if garden.find(title).is_some() {
        return false;
    }
    let note = Note::new(String::from_str(title));
    proof {
        lemma_place_of(garden@, title@);
        assert(garden.notes@.push(note).map_values(|n: Note| n@) =~= garden@.push(note@));
    }
    garden.notes.push(note);
    true
}

/// Saves `note` as a whole: over the first note of its title, or as a new
/// note where the garden has none of that title.
pub fn save_note(garden: &mut Garden, note: Note)
    ensures
        final(garden)@ == saved(old(garden)@, note@),
        distinct_titles(old(garden)@) ==> distinct_titles(final(garden)@),
{
    proof {
        lemma_place_of(garden@, note@.title);
    }
    match garden.find(note.title.as_str()) {
        Some(i) => {
            proof {
                assert(garden.notes@.update(i as int, note).map_values(|n: Note| n@)
                    =~= garden@.update(i as int, note@));
            }
            garden.notes[i] = note;
        },
        None => {
            proof {
                assert(garden.notes@.push(note).map_values(|n: Note| n@) =~= garden@.push(note@));
            }
            garden.notes.push(note);
        },
    }
}

/// A copy of the first note titled `title`, or `NotFound` where the garden
/// has no note of that title.
pub fn load_note(garden: &Garden, title: &str) -> (loaded: Result<Note, GardenError>)
    ensures
        match loaded {
            Ok(note) => place_of(garden@, title@) is Some && note@ == garden@[place_of(
                garden@,
                title@,
            )->0],
            Err(why) => place_of(garden@, title@) is None && why == GardenError::NotFound,
        },
{
    match garden.find(title) {
        Some(i) => Ok(garden.notes[i].duplicate()),
        None => Err(GardenError::NotFound),
    }
}

/// The first note titled `title`, if the garden has one.
pub fn view_note<'a>(garden: &'a Garden, title: &str) -> (found: Option<&'a Note>)
    ensures
        match found {
            Some(note) => place_of(garden@, title@) is Some && note@ == garden@[place_of(
                garden@,
                title@,
            )->0],
            None => place_of(garden@, title@) is None,
        },
{
    match garden.find(title) {
        Some(i) => Some(&garden.notes[i]),
        None => None,
    }
}

/// The titles of the notes of the garden, in their order.
pub fn list_notes(garden: &Garden) -> (titles: Vec<String>)
    ensures
        titles@.len() == garden@.len(),
        forall|i: int| 0 <= i < titles@.len() ==> (#[trigger] titles@[i])@ == garden@[i].title,
{
    let mut titles: Vec<String> = Vec::new();
    let mut i: usize = 0;
    while i < garden.notes.len()
        invariant
            i <= garden.notes.len(),
            titles@.len() == i,
            forall|k: int| 0 <= k < i ==> (#[trigger] titles@[k])@ == garden@[k].title,
        decreases garden.notes.len() - i,
    {
        titles.push(garden.notes[i].title.clone());
        i += 1;
    }
    titles
}

/// Links the notes titled `from` and `to` to each other. Where the garden
/// lacks one of them nothing changes. Returns whether both were there. A
/// note that changed is updated at the instant the clock gives.
pub fn link_notes(garden: &mut Garden, from: &str, to: &str) -> (done: bool)
    ensures
        done == (place_of(old(garden)@, from@) is Some && place_of(old(garden)@, to@) is Some),
        !done ==> *final(garden) == *old(garden),
        done ==> final(garden)@ == linked(
            old(garden)@,
            from@,
            to@,
            final(garden)@[place_of(old(garden)@, from@)->0].updated_at,
            final(garden)@[place_of(old(garden)@, to@)->0].updated_at,
        ),
        distinct_titles(old(garden)@) ==> distinct_titles(final(garden)@),
{
    let i = match garden.find(from) {
        Some(i) => i,
        None => {
            return false;
        },
    };
    let j = match garden.find(to) {
        Some(j) => j,
        None => {
            return false;
        },
    };
    let ghost before = garden@;
    if i != j {
        garden.notes[i].add_link(String::from_str(to));
    }
    garden.notes[j].add_link(String::from_str(from));
    proof {
        let i = i as int;
        let j = j as int;
        let first = garden@[i].updated_at;
        let second = garden@[j].updated_at;
        assert(garden@ =~= before.update(i, before[i].with_link(to@, first)).update(
            j,
            before[j].with_link(from@, second),
        ));
    }
    true
}

/// Gives the note titled `title` the tag `tag`. Where the garden has no note
/// of that title nothing changes. Returns whether the note was there. A note
/// that changed is updated at the instant the clock gives.
pub fn add_tag(garden: &mut Garden, title: &str, tag: &str) -> (done: bool)
    ensures
        done == (place_of(old(garden)@, title@) is Some),
        !done ==> *final(garden) == *old(garden),
        done ==> final(garden)@ == tagged(
            old(garden)@,
            title@,
            tag@,
            final(garden)@[place_of(old(garden)@, title@)->0].updated_at,
        ),
        distinct_titles(old(garden)@) ==> distinct_titles(final(garden)@),
{
    let i = match garden.find(title) {
        Some(i) => i,
        None => {
            return false;
        },
    };
    let ghost before = garden@;
    garden.notes[i].add_tag(String::from_str(tag));
    proof {
        let i = i as int;
        assert(garden@ =~= before.update(i, before[i].with_tag(tag@, garden@[i].updated_at)));
    }
    true
}

/// Every link has its counterpart: a note that links to the title of
/// another is linked to from that other.
pub open spec fn symmetric_links(notes: Seq<NoteView>) -> bool {
    forall|a: int, b: int|
        0 <= a < notes.len() && 0 <= b < notes.len() && (#[trigger] notes[a]).links.contains(
            (#[trigger] notes[b]).title,
        ) ==> notes[b].links.contains(notes[a].title)
}

/// The place of a title depends on the titles of the notes alone.
pub proof fn lemma_place_by_titles(a: Seq<NoteView>, b: Seq<NoteView>, title: Seq<char>)
    requires
        a.len() == b.len(),
        forall|k: int| 0 <= k < a.len() ==> a[k].title == b[k].title,
    ensures
        place_of(a, title) == place_of(b, title),
{
    lemma_place_of(a, title);
    lemma_place_of(b, title);
    match place_of(a, title) {
        Some(i) => {
            lemma_place_is(b, title, i);
        },
        None => {},
    }
}

/// Linking two notes that the garden has leaves each with a link to the
/// other, keeps the titles distinct, and keeps every link matched by its
/// counterpart.
pub proof fn lemma_link_keeps_symmetry(
    notes: Seq<NoteView>,
    from: Seq<char>,
    to: Seq<char>,
    first: Timestamp,
    second: Timestamp,
)
    requires
        distinct_titles(notes),
        symmetric_links(notes),
    ensures
        distinct_titles(linked(notes, from, to, first, second)),
        symmetric_links(linked(notes, from, to, first, second)),
        place_of(notes, from) is Some && place_of(notes, to) is Some ==> {
            let after = linked(notes, from, to, first, second);
            &&& after[place_of(notes, from)->0].links.contains(to)
            &&& after[place_of(notes, to)->0].links.contains(from)
        },
{
    lemma_place_of(notes, from);
    lemma_place_of(notes, to);
    let after = linked(notes, from, to, first, second);
    if place_of(notes, from) is Some && place_of(notes, to) is Some {
        let i = place_of(notes, from)->0;
        let j = place_of(notes, to)->0;
        lemma_link_twice(notes[i], to, first, first);
        lemma_link_twice(notes[j], from, second, second);
        assert forall|k: int| 0 <= k < notes.len() implies (#[trigger] after[k]).title
            == notes[k].title && (forall|link: Seq<char>|
            notes[k].links.contains(link) ==> after[k].links.contains(link)) by {
            assert forall|link: Seq<char>| notes[k].links.contains(link) implies after[k].links.contains(link) by {
                let at = choose|at: int| 0 <= at < notes[k].links.len() && notes[k].links[at] == link;
                if after[k].links != notes[k].links {
                    assert(after[k].links[at] == link);
                }
            }
        }
        assert forall|a: int, b: int|
            0 <= a < after.len() && 0 <= b < after.len() && (#[trigger] after[a]).links.contains(
                (#[trigger] after[b]).title,
            ) implies after[b].links.contains(after[a].title) by {
            let wanted = after[b].title;
            if notes[a].links.contains(wanted) {
                assert(notes[a].links.contains(notes[b].title));
                assert(notes[b].links.contains(notes[a].title));
            } else {
                // The link is one of the two that were added.
                let at = choose|at: int| 0 <= at < after[a].links.len() && after[a].links[at] == wanted;
                if a == j {
                    assert(after[a].links == notes[j].links.push(from));
                    assert(wanted == from);
                    assert(b == i);
                } else {
                    assert(a == i);
                    assert(after[a].links == notes[i].links.push(to));
                    assert(wanted == to);
                    assert(b == j);
                }
            }
        }
    }
}

/// Linking two notes a second time changes nothing.
pub proof fn lemma_link_notes_twice(
    notes: Seq<NoteView>,
    from: Seq<char>,
    to: Seq<char>,
    first: Timestamp,
    second: Timestamp,
    third: Timestamp,
    fourth: Timestamp,
)
    ensures
        linked(linked(notes, from, to, first, second), from, to, third, fourth) == linked(
            notes,
            from,
            to,
            first,
            second,
        ),
{
    lemma_place_of(notes, from);
    lemma_place_of(notes, to);
    let once = linked(notes, from, to, first, second);
    if place_of(notes, from) is Some && place_of(notes, to) is Some {
        let i = place_of(notes, from)->0;
        let j = place_of(notes, to)->0;
        lemma_place_by_titles(notes, once, from);
        lemma_place_by_titles(notes, once, to);
        lemma_link_twice(notes[i], to, first, third);
        lemma_link_twice(notes[j], from, second, fourth);
        assert(linked(once, from, to, third, fourth) =~= once);
    }
}

/// Saving the two notes of a link, the one titled `from` first, brings the
/// stored notes to what linking made of them.
pub proof fn lemma_link_saved_in_two_steps(
    stored: Seq<NoteView>,
    from: Seq<char>,
    to: Seq<char>,
    first: Timestamp,
    second: Timestamp,
)
    requires
        place_of(stored, from) is Some,
        place_of(stored, to) is Some,
    ensures
        ({
            let after = linked(stored, from, to, first, second);
            let i = place_of(stored, from)->0;
            let j = place_of(stored, to)->0;
            saved(saved(stored, after[i]), after[j]) == after
        }),
{
    lemma_place_of(stored, from);
    lemma_place_of(stored, to);
    let after = linked(stored, from, to, first, second);
    let i = place_of(stored, from)->0;
    let j = place_of(stored, to)->0;
    let half = saved(stored, after[i]);
    assert(half =~= stored.update(i, after[i]));
    lemma_place_by_titles(stored, half, to);
    assert(saved(half, after[j]) =~= after);
}

/// The two savings of a link are not one: where only the first of them
/// happens, the note titled `from` links to the other, and the other, unless
/// it did so before, does not link back.
pub proof fn lemma_link_half_saved(
    stored: Seq<NoteView>,
    from: Seq<char>,
    to: Seq<char>,
    first: Timestamp,
    second: Timestamp,
)
    requires
        place_of(stored, from) is Some,
        place_of(stored, to) is Some,
        place_of(stored, from) != place_of(stored, to),
        !stored[place_of(stored, to)->0].links.contains(from),
    ensures
        ({
            let after = linked(stored, from, to, first, second);
            let i = place_of(stored, from)->0;
            let j = place_of(stored, to)->0;
            let half = saved(stored, after[i]);
            &&& half[i].links.contains(to)
            &&& !half[j].links.contains(from)
            &&& !symmetric_links(half)
        }),
{
    lemma_place_of(stored, from);
    lemma_place_of(stored, to);
    let after = linked(stored, from, to, first, second);
    let i = place_of(stored, from)->0;
    let j = place_of(stored, to)->0;
    let half = saved(stored, after[i]);
    assert(half =~= stored.update(i, after[i]));
    lemma_link_twice(stored[i], to, first, first);
    assert(half[i].links.contains(half[j].title));
    assert(!half[j].links.contains(half[i].title));
}

/// Making a note of a title that the garden has changes nothing, whenever it
/// happens.
pub proof fn lemma_create_twice(
    notes: Seq<NoteView>,
    title: Seq<char>,
    first: Timestamp,
    second: Timestamp,
)
    ensures
        created(created(notes, title, first), title, second) == created(notes, title, first),
        place_of(created(notes, title, first), title) is Some,
{
    lemma_place_of(notes, title);
    let once = created(notes, title, first);
    if place_of(notes, title) is None {
        assert(once.drop_last() =~= notes);
    }
}

} // verus!
