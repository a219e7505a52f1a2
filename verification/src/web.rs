//! What the HTTP API serves: the content indexes it reads from, the note
//! page size it accepts, and the Micropub reply it gives.

use vstd::prelude::*;
use crate::content::note::{
    first_group_with_slug, is_note_page, is_thread_list, Note, NoteGroup, NoteIndex, NotePage,
    NoteSummary,
};
use crate::content::now::{NowEntry, NowIndex};
use crate::content::page::PageIndex;
use crate::content::post::PostIndex;
use crate::sync_mastodon::yaml::string_views;

verus! {

/// Does the summary carry the note's front matter and slug?
pub open spec fn summarizes_note(summary: NoteSummary, note: Note) -> bool {
    &&& summary.front_matter.deep_view() == note.front_matter.deep_view()
    &&& summary.slug@ == note.slug@
}

/// The content the server answers from.
#[derive(Clone, Debug)]
pub struct AppState {
    pub post_index: PostIndex,
    pub note_index: NoteIndex,
    pub page_index: PageIndex,
    pub now_index: NowIndex,
}

impl AppState {
    /// The summaries of all notes, newest first.
    pub fn notes(&self) -> (r: Vec<NoteSummary>)
        ensures
            r@.len() == self.note_index@.len(),
            forall|k: int| 0 <= k < r@.len() ==> #[trigger] summarizes_note(r@[k], self.note_index@[k]),
    {
        self.note_index.notes()
    }

    /// A page of note threads after the thread with the cursor note.
    pub fn note_page(&self, after: Option<&str>, limit: usize) -> (r: NotePage)
        ensures
            exists|groups: Seq<NoteGroup>| #[trigger] is_thread_list(self.note_index@, groups)
                && is_note_page(groups, match after {
                    Some(cursor) => Some(cursor@),
                    None => None,
                }, limit, r),
    {
        self.note_index.note_page(after, limit)
    }

    /// The thread that holds the note with the slug.
    pub fn note_group(&self, slug: &str) -> (r: Option<NoteGroup>)
        ensures
            exists|groups: Seq<NoteGroup>| #[trigger] is_thread_list(self.note_index@, groups)
                && r == match first_group_with_slug(groups, slug@) {
                    Some(k) => Some(groups[k]),
                    None => None,
                },
    {
        self.note_index.note_group(slug)
    }

    /// All now entries, newest first.
    pub fn now_entries(&self) -> (r: Vec<NowEntry>)
        ensures
            r.deep_view() == self.now_index@.map_values(|e: NowEntry| e.deep_view()),
    {
        self.now_index.entries()
    }

    /// The first now entry with the slug.
    pub fn now_entry(&self, slug: &str) -> (r: Option<NowEntry>)
        ensures
            r is None <==> forall|i: int| 0 <= i < self.now_index@.len() ==> #[trigger] self.now_index@[i].slug@ != slug@,
            r matches Some(entry) ==> exists|i: int|
                0 <= i < self.now_index@.len() && #[trigger] self.now_index@[i].slug@ == slug@
                && (forall|j: int| 0 <= j < i ==> #[trigger] self.now_index@[j].slug@ != slug@)
                && entry.deep_view() == self.now_index@[i].deep_view(),
    {
        self.now_index.entry(slug)
    }
}

/// The number of threads on a note page: 25 where none is asked for, and
/// the asked number brought into 1 to 100.
pub open spec fn page_limit_of(limit: Option<usize>) -> usize {
    let asked = match limit {
        Some(l) => l,
        None => 25,
    };
    if asked < 1 {
        1
    } else if asked > 100 {
        100
    } else {
        asked
    }
}

/// The number of threads on a note page.
pub fn note_page_limit(limit: Option<usize>) -> (r: usize)
    ensures
        r == page_limit_of(limit),
        1 <= r <= 100,
{
    let asked = match limit {
        Some(l) => l,
        None => 25,
    };
    if asked < 1 {
        1
    } else if asked > 100 {
        100
    } else {
        asked
    }
}

/// The kind of a Micropub item.
#[derive(Debug, Clone, Copy, PartialEq, Eq, Structural)]
pub enum MicropubType {
    Entry,
}

impl MicropubType {
    /// The kind's name, as its `Display` shows it.
    pub fn label(&self) -> (r: String)
        ensures
            r@ == match self {
                MicropubType::Entry => "entry"@,
            },
    {
        match self {
            MicropubType::Entry => "entry".to_string(),
        }
    }
}

/// A Micropub create request sent as a form.
#[derive(Debug, Clone)]
pub struct MicropubFormRequest {
    pub action: String,
    pub h: MicropubType,
    pub content: String,
}

/// The reply to a Micropub create request: the content, and the item's
/// type (serialized under the name `type`).
#[derive(Debug, Clone)]
pub struct CreatedNoteResponse {
    pub content: String,
    pub item_type: Vec<String>,
}

/// The reply to a Micropub create request: its content, and its kind as the
/// single type `h-` and the kind's name.
pub fn created_note(form: MicropubFormRequest) -> (r: CreatedNoteResponse)
    ensures
        r.content == form.content,
        string_views(r.item_type@) == seq!["h-"@ + match form.h {
            MicropubType::Entry => "entry"@,
        }],
{
    let mut kind = "h-".to_string();
    let name = form.h.label();
    kind.append(name.as_str());
    let mut item_type: Vec<String> = Vec::new();
    item_type.push(kind);
    assert(string_views(item_type@) =~= seq![kind@]);
    CreatedNoteResponse { content: form.content, item_type }
}

} // verus!
