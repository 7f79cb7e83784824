//! The note: a titled, versioned text with links and tags.

use vstd::prelude::*;
use crate::clock::{current_time, Timestamp};

verus! {

/// A single note of the garden.
#[derive(Debug)]
pub struct Note {
    /// The name of the note, and the key it is stored under.
    pub title: String,
    /// The text of the note, lines separated by line feeds.
    pub content: String,
    pub created_at: Timestamp,
    /// The instant of the last change of content, links or tags.
    pub updated_at: Timestamp,
    /// Titles of the notes this one links to, in the order they were added.
    pub links: Vec<String>,
    /// The tags of this note, in the order they were added.
    pub tags: Vec<String>,
    /// Counts the changes of content, starting at 1.
    pub version: u32,
}

/// What a note is, to the contracts: its texts as sequences of characters.
pub struct NoteView {
    pub title: Seq<char>,
    pub content: Seq<char>,
    pub created_at: Timestamp,
    pub updated_at: Timestamp,
    pub links: Seq<Seq<char>>,
    pub tags: Seq<Seq<char>>,
    pub version: u32,
}

/// The texts that a list of strings holds, in order.
pub open spec fn texts(list: Seq<String>) -> Seq<Seq<char>> {
    list.map_values(|s: String| s@)
}

impl View for Note {
    type V = NoteView;

    open spec fn view(&self) -> NoteView {
        NoteView {
            title: self.title@,
            content: self.content@,
            created_at: self.created_at,
            updated_at: self.updated_at,
            links: texts(self.links@),
            tags: texts(self.tags@),
            version: self.version,
        }
    }
}

impl NoteView {
    /// No link and no tag occurs twice, and the version is at least 1.
    pub open spec fn wf(self) -> bool {
        &&& self.links.no_duplicates()
        &&& self.tags.no_duplicates()
        &&& self.version >= 1
    }

    /// The note as `Note::new` makes it at the instant `now`.
    pub open spec fn fresh(title: Seq<char>, now: Timestamp) -> NoteView {
        NoteView {
            title,
            content: Seq::empty(),
            created_at: now,
            updated_at: now,
            links: Seq::empty(),
            tags: Seq::empty(),
            version: 1,
        }
    }

    /// The note after its content was replaced at the instant `now`.
    pub open spec fn with_content(self, content: Seq<char>, now: Timestamp) -> NoteView {
        NoteView { content, updated_at: now, version: (self.version + 1) as u32, ..self }
    }

    /// The note after `link` was added at the instant `now`: unchanged if it
    /// has that link already.
    pub open spec fn with_link(self, link: Seq<char>, now: Timestamp) -> NoteView {
        if self.links.contains(link) {
            self
        } else {
            NoteView { links: self.links.push(link), updated_at: now, ..self }
        }
    }

    /// The note after `tag` was added at the instant `now`: unchanged if it
    /// has that tag already.
    pub open spec fn with_tag(self, tag: Seq<char>, now: Timestamp) -> NoteView {
        if self.tags.contains(tag) {
            self
        } else {
            NoteView { tags: self.tags.push(tag), updated_at: now, ..self }
        }
    }
}

/// Whether `list` holds the text of `item`.
pub fn contains_text(list: &Vec<String>, item: &String) -> (found: bool)
    ensures
        found == texts(list@).contains(item@),
{
    let mut i: usize = 0;
    while i < list.len()
        invariant
            i <= list.len(),
            forall|j: int| 0 <= j < i ==> texts(list@)[j] != item@,
        decreases list.len() - i,
    {
        if list[i] == *item {
            assert(texts(list@)[i as int] == item@);
            return true;
        }
        i += 1;
    }
    false
}

impl Note {
    /// A new note with the given title, made at the instant `now`: empty, at
    /// version 1.
    pub fn new_at(title: String, now: Timestamp) -> (note: Note)
        ensures
            note@ == NoteView::fresh(title@, now),
            note@.wf(),
    {
        let note = Note {
            title,
            content: String::new(),
            created_at: now,
            updated_at: now,
            links: Vec::new(),
            tags: Vec::new(),
            version: 1,
        };
        proof {
            assert(texts(note.links@) =~= Seq::empty());
            assert(texts(note.tags@) =~= Seq::empty());
        }
        note
    }

    /// A new note with the given title, made now: empty, at version 1, created
    /// and updated at the same instant.
    pub fn new(title: String) -> (note: Note)
        ensures
            note@ == NoteView::fresh(title@, note.created_at),
            note@.wf(),
    {
        let now = current_time();
        Note::new_at(title, now)
    }

    /// Replaces the content at the instant `now` and counts the change.
    pub fn update_content_at(&mut self, content: String, now: Timestamp)
        requires
            old(self).version < u32::MAX,
        ensures
            final(self)@ == old(self)@.with_content(content@, now),
            old(self)@.wf() ==> final(self)@.wf(),
        no_unwind
    {
        self.content = content;
        self.updated_at = now;
        self.version += 1;
    }

    /// Replaces the content and counts the change; the note is updated at the
    /// instant the clock gives, whatever it is.
    pub fn update_content(&mut self, content: String)
        requires
            old(self).version < u32::MAX,
        ensures
            final(self)@ == old(self)@.with_content(content@, final(self).updated_at),
            old(self)@.wf() ==> final(self)@.wf(),
    {
        let now = current_time();
        self.update_content_at(content, now);
    }

    /// Adds a link to the note titled `link` at the instant `now`, unless the
    /// note has it already; then nothing changes.
    pub fn add_link_at(&mut self, link: String, now: Timestamp)
        ensures
            final(self)@ == old(self)@.with_link(link@, now),
            old(self)@.links.contains(link@) ==> *final(self) == *old(self),
            old(self)@.wf() ==> final(self)@.wf(),
    {
        if !contains_text(&self.links, &link) {
            proof {
                assert(texts(self.links@.push(link)) =~= texts(self.links@).push(link@));
            }
            self.links.push(link);
            self.updated_at = now;
        }
    }

    /// Adds a link to the note titled `link`, unless the note has it already;
    /// then nothing changes. A note that changed is updated at the instant the
    /// clock gives, whatever it is.
    pub fn add_link(&mut self, link: String)
        ensures
            final(self)@ == old(self)@.with_link(link@, final(self).updated_at),
            old(self)@.links.contains(link@) ==> *final(self) == *old(self),
            old(self)@.wf() ==> final(self)@.wf(),
    {
        if !contains_text(&self.links, &link) {
            let now = current_time();
            self.add_link_at(link, now);
        }
    }

    /// Adds a tag at the instant `now`, unless the note has it already; then
    /// nothing changes.
    pub fn add_tag_at(&mut self, tag: String, now: Timestamp)
        ensures
            final(self)@ == old(self)@.with_tag(tag@, now),
            old(self)@.tags.contains(tag@) ==> *final(self) == *old(self),
            old(self)@.wf() ==> final(self)@.wf(),
    {
        if !contains_text(&self.tags, &tag) {
            proof {
                assert(texts(self.tags@.push(tag)) =~= texts(self.tags@).push(tag@));
            }
            self.tags.push(tag);
            self.updated_at = now;
        }
    }

    /// Adds a tag, unless the note has it already; then nothing changes. A
    /// note that changed is updated at the instant the clock gives, whatever
    /// it is.
    pub fn add_tag(&mut self, tag: String)
        ensures
            final(self)@ == old(self)@.with_tag(tag@, final(self).updated_at),
            old(self)@.tags.contains(tag@) ==> *final(self) == *old(self),
            old(self)@.wf() ==> final(self)@.wf(),
    {
        if !contains_text(&self.tags, &tag) {
            let now = current_time();
            self.add_tag_at(tag, now);
        }
    }

    /// A second note with the same texts, instants and version.
    pub fn duplicate(&self) -> (twin: Note)
        ensures
            twin@ == self@,
    {
        Note {
            title: self.title.clone(),
            content: self.content.clone(),
            created_at: self.created_at,
            updated_at: self.updated_at,
            links: copy_texts(&self.links),
            tags: copy_texts(&self.tags),
            version: self.version,
        }
    }
}

/// A second list with the same texts in the same order.
pub fn copy_texts(list: &Vec<String>) -> (twin: Vec<String>)
    ensures
        texts(twin@) == texts(list@),
{
    let mut twin: Vec<String> = Vec::new();
    let mut i: usize = 0;
    while i < list.len()
        invariant
            i <= list.len(),
            texts(twin@) == texts(list@.take(i as int)),
        decreases list.len() - i,
    {
        proof {
            assert(list@.take(i + 1) =~= list@.take(i as int).push(list@[i as int]));
            assert(texts(list@.take(i as int).push(list@[i as int])) =~= texts(
                list@.take(i as int),
            ).push(list@[i as int]@));
            assert(texts(twin@.push(list@[i as int])) =~= texts(twin@).push(list@[i as int]@));
        }
        twin.push(list[i].clone());
        i += 1;
    }
    proof {
        assert(list@.take(i as int) =~= list@);
    }
    twin
}

/// Adding a link a second time changes nothing: not the links, and not the
/// instant of the last update, whenever the second adding happens.
pub proof fn lemma_link_twice(note: NoteView, link: Seq<char>, first: Timestamp, second: Timestamp)
    ensures
        note.with_link(link, first).with_link(link, second) == note.with_link(link, first),
        note.with_link(link, first).links.contains(link),
{
    if !note.links.contains(link) {
        let grown = note.links.push(link);
        assert(grown[grown.len() - 1] == link);
    }
}

/// Adding a tag a second time changes nothing: not the tags, and not the
/// instant of the last update, whenever the second adding happens.
pub proof fn lemma_tag_twice(note: NoteView, tag: Seq<char>, first: Timestamp, second: Timestamp)
    ensures
        note.with_tag(tag, first).with_tag(tag, second) == note.with_tag(tag, first),
        note.with_tag(tag, first).tags.contains(tag),
{
    if !note.tags.contains(tag) {
        let grown = note.tags.push(tag);
        assert(grown[grown.len() - 1] == tag);
    }
}

/// Links and tags change neither the content nor the version of a note, and
/// keep a well-formed note well-formed.
pub proof fn lemma_link_and_tag_keep(note: NoteView, text: Seq<char>, now: Timestamp)
    ensures
        note.with_link(text, now).content == note.content,
        note.with_link(text, now).version == note.version,
        note.with_tag(text, now).content == note.content,
        note.with_tag(text, now).version == note.version,
        note.wf() ==> note.with_link(text, now).wf() && note.with_tag(text, now).wf(),
{
}

} // verus!
