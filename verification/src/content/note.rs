//! Short notes, imported from Mastodon or written by hand, grouped into
//! reply threads and paged.

use vstd::prelude::*;
use crate::content::markdown::{stem_of, ContentFile, Document, FrontMatter, IoFailure, file_stem};
use crate::duplicate::{permute, Duplicate};
use crate::order::{comes_before, is_stable_order, is_stable_sort, stable_order, Instant};
use crate::time::{parse_rfc3339, rfc3339_utc};

verus! {

/// Where a note comes from.
#[derive(Debug, Clone, Copy, PartialEq, Eq, Structural)]
pub enum NoteSource {
    Manual,
    Mastodon,
}

impl DeepView for NoteSource {
    type V = NoteSource;

    open spec fn deep_view(&self) -> NoteSource {
        *self
    }
}

impl Duplicate for NoteSource {
    fn duplicate(&self) -> (r: Self) {
        *self
    }
}

/// Who may see a note.
#[derive(Debug, Clone, Copy, PartialEq, Eq, Structural)]
pub enum NoteVisibility {
    Public,
    Unlisted,
    Private,
    Direct,
}

impl DeepView for NoteVisibility {
    type V = NoteVisibility;

    open spec fn deep_view(&self) -> NoteVisibility {
        *self
    }
}

impl Duplicate for NoteVisibility {
    fn duplicate(&self) -> (r: Self) {
        *self
    }
}

/// A media attachment of a note: its address and its alternative text.
#[derive(Debug, Clone)]
pub struct NoteMedia {
    pub url: String,
    pub alt: String,
}

impl DeepView for NoteMedia {
    type V = (Seq<char>, Seq<char>);

    open spec fn deep_view(&self) -> Self::V {
        (self.url@, self.alt@)
    }
}

impl Duplicate for NoteMedia {
    fn duplicate(&self) -> (r: Self) {
        NoteMedia { url: self.url.duplicate(), alt: self.alt.duplicate() }
    }
}

/// The front matter of a note.
#[derive(Debug, Clone)]
pub struct NoteFrontMatter {
    pub date: String,
    pub source: NoteSource,
    pub source_id: String,
    pub source_url: String,
    pub in_reply_to_id: Option<String>,
    pub in_reply_to_account_id: Option<String>,
    pub visibility: NoteVisibility,
    pub media: Option<Vec<NoteMedia>>,
    pub tags: Option<Vec<String>>,
}

impl DeepView for NoteFrontMatter {
    type V = (
        Seq<char>,
        NoteSource,
        Seq<char>,
        Seq<char>,
        Option<Seq<char>>,
        Option<Seq<char>>,
        NoteVisibility,
        Option<Seq<(Seq<char>, Seq<char>)>>,
        Option<Seq<Seq<char>>>,
    );

    open spec fn deep_view(&self) -> Self::V {
        (
            self.date@,
            self.source,
            self.source_id@,
            self.source_url@,
            self.in_reply_to_id.deep_view(),
            self.in_reply_to_account_id.deep_view(),
            self.visibility,
            self.media.deep_view(),
            self.tags.deep_view(),
        )
    }
}

impl Duplicate for NoteFrontMatter {
    fn duplicate(&self) -> (r: Self) {
        NoteFrontMatter {
            date: self.date.duplicate(),
            source: self.source,
            source_id: self.source_id.duplicate(),
            source_url: self.source_url.duplicate(),
            in_reply_to_id: self.in_reply_to_id.duplicate(),
            in_reply_to_account_id: self.in_reply_to_account_id.duplicate(),
            visibility: self.visibility,
            media: self.media.duplicate(),
            tags: self.tags.duplicate(),
        }
    }
}

/// A note without its body.
#[derive(Debug, Clone)]
pub struct NoteSummary {
    pub front_matter: NoteFrontMatter,
    pub slug: String,
}

/// A note.
#[derive(Debug, Clone)]
pub struct Note {
    pub front_matter: NoteFrontMatter,
    pub slug: String,
    pub body: String,
}

impl DeepView for Note {
    type V = (<NoteFrontMatter as DeepView>::V, Seq<char>, Seq<char>);

    open spec fn deep_view(&self) -> Self::V {
        (self.front_matter.deep_view(), self.slug@, self.body@)
    }
}

impl Duplicate for Note {
    fn duplicate(&self) -> (r: Self) {
        Note {
            front_matter: self.front_matter.duplicate(),
            slug: self.slug.duplicate(),
            body: self.body.duplicate(),
        }
    }
}

impl From<Note> for NoteSummary {
    fn from(note: Note) -> (r: Self) {
        NoteSummary { front_matter: note.front_matter, slug: note.slug }
    }
}

impl vstd::std_specs::convert::FromSpecImpl<Note> for NoteSummary {
    open spec fn obeys_from_spec() -> bool {
        true
    }

    open spec fn from_spec(note: Note) -> Self {
        NoteSummary { front_matter: note.front_matter, slug: note.slug }
    }
}

/// The notes of a thread, oldest first.
#[derive(Debug, Clone)]
pub struct NoteGroup {
    pub notes: Vec<Note>,
}

/// A page of note threads, with the cursors of the neighbouring pages.
#[derive(Debug, Clone)]
pub struct NotePage {
    pub items: Vec<NoteGroup>,
    pub next_cursor: Option<String>,
    pub previous_cursor: Option<String>,
}

/// Why loading notes failed.
#[derive(Debug)]
pub enum NoteLoadError {
    ReadDirectory { path: String, source: IoFailure },
    ReadFile { path: String, source: IoFailure },
    MissingFrontMatter { path: String },
    InvalidFrontMatter { path: String, message: String },
    InvalidDate { path: String, date: String },
    MissingFileStem { path: String },
}

impl NoteLoadError {
    /// The error's text, as its `Display` shows it.
    pub fn message(&self) -> (r: String)
        ensures
            r@ == match self {
                NoteLoadError::ReadDirectory { path, source } => "unable to read notes directory "@
                    + path@ + ": "@ + source.message@,
                NoteLoadError::ReadFile { path, source } => "unable to read note "@ + path@ + ": "@
                    + source.message@,
                NoteLoadError::MissingFrontMatter { path } => "missing front matter in "@ + path@,
                NoteLoadError::InvalidFrontMatter { path, message } => "invalid front matter in "@
                    + path@ + ": "@ + message@,
                NoteLoadError::InvalidDate { path, date } => "invalid date '"@ + date@ + "' in "@
                    + path@,
                NoteLoadError::MissingFileStem { path } => "missing file stem for "@ + path@,
            },
    {
        match self {
            NoteLoadError::ReadDirectory { path, source } => {
                let mut r = "unable to read notes directory ".to_string();
                r.append(path.as_str());
                r.append(": ");
                r.append(source.message.as_str());
                r
            },
            NoteLoadError::ReadFile { path, source } => {
                let mut r = "unable to read note ".to_string();
                r.append(path.as_str());
                r.append(": ");
                r.append(source.message.as_str());
                r
            },
            NoteLoadError::MissingFrontMatter { path } => {
                let mut r = "missing front matter in ".to_string();
                r.append(path.as_str());
                r
            },
            NoteLoadError::InvalidFrontMatter { path, message } => {
                let mut r = "invalid front matter in ".to_string();
                r.append(path.as_str());
                r.append(": ");
                r.append(message.as_str());
                r
            },
            NoteLoadError::InvalidDate { path, date } => {
                let mut r = "invalid date '".to_string();
                r.append(date.as_str());
                r.append("' in ");
                r.append(path.as_str());
                r
            },
            NoteLoadError::MissingFileStem { path } => {
                let mut r = "missing file stem for ".to_string();
                r.append(path.as_str());
                r
            },
        }
    }
}

/// The moment an RFC 3339 timestamp names, if it is one.
pub open spec fn rfc3339_instant(text: Seq<char>) -> Option<Instant> {
    match rfc3339_utc(text) {
        Some(fields) => Some(Instant { secs: fields.0, nanos: fields.1 }),
        None => None,
    }
}

/// The moment of a note (its date is an RFC 3339 timestamp).
pub open spec fn note_instant(note: Note) -> Instant {
    rfc3339_instant(note.front_matter.date@).unwrap()
}

/// The moments of the notes, in order.
pub open spec fn note_instants(notes: Seq<Note>) -> Seq<Instant> {
    notes.map_values(|n: Note| note_instant(n))
}

/// Why a markdown file does not make a note, if it does not, where
/// `date_ok` tells whether its date is an RFC 3339 timestamp.
pub open spec fn note_file_failure_with(file: ContentFile<NoteFrontMatter>, date_ok: bool) -> Option<NoteLoadError> {
    match file.contents {
        Err(source) => Some(NoteLoadError::ReadFile { path: file.path, source }),
        Ok(document) => match document.front_matter {
            FrontMatter::Missing => Some(NoteLoadError::MissingFrontMatter { path: file.path }),
            FrontMatter::Invalid(message) => Some(
                NoteLoadError::InvalidFrontMatter { path: file.path, message },
            ),
            FrontMatter::Parsed(front_matter) => if !date_ok {
                Some(NoteLoadError::InvalidDate { path: file.path, date: front_matter.date })
            } else if stem_of(file.file_name@) is None {
                Some(NoteLoadError::MissingFileStem { path: file.path })
            } else {
                None
            },
        },
    }
}

/// The moment that the date of the file's front matter names, if it has
/// front matter with such a date.
pub open spec fn file_moment(file: ContentFile<NoteFrontMatter>) -> Option<Instant> {
    match file.contents {
        Ok(document) => match document.front_matter {
            FrontMatter::Parsed(front_matter) => rfc3339_instant(front_matter.date@),
            _ => None,
        },
        Err(_) => None,
    }
}

/// Why a markdown file does not make a note, if it does not.
pub open spec fn note_file_failure(file: ContentFile<NoteFrontMatter>) -> Option<NoteLoadError> {
    note_file_failure_with(file, file_moment(file) is Some)
}

/// `note` is made from the markdown file `file`: its front matter and
/// body, with the file's stem as slug.
pub open spec fn note_made_from(file: ContentFile<NoteFrontMatter>, note: Note) -> bool {
    &&& file.contents matches Ok(document)
    &&& document.front_matter == FrontMatter::Parsed(note.front_matter)
    &&& document.body == note.body
    &&& stem_of(file.file_name@) == Some(note.slug@)
}

/// `note` is the note that the markdown file `file` makes: made from it,
/// with a date that is an RFC 3339 timestamp.
pub open spec fn is_note_of(file: ContentFile<NoteFrontMatter>, note: Note) -> bool {
    &&& note_made_from(file, note)
    &&& rfc3339_instant(note.front_matter.date@) is Some
}

/// `notes` are the notes that `files` make, newest first by their moment;
/// notes of the same moment keep the order of their files.
pub open spec fn notes_loaded_from(files: Seq<ContentFile<NoteFrontMatter>>, notes: Seq<Note>) -> bool {
    exists|made: Seq<Note>|
        #![trigger is_stable_sort(made, note_instants(made), true, notes)]
        {
            &&& made.len() == files.len()
            &&& forall|k: int| 0 <= k < files.len() ==> #[trigger] is_note_of(files[k], made[k])
            &&& is_stable_sort(made, note_instants(made), true, notes)
        }
}

/// Reads the moment of the date of a file's front matter, where it has one.
fn read_file_moment(file: &ContentFile<NoteFrontMatter>) -> (r: Option<Instant>)
    ensures
        r == file_moment(*file),
{
    match &file.contents {
        Ok(document) => match &document.front_matter {
            FrontMatter::Parsed(front_matter) => match parse_rfc3339(front_matter.date.as_str()) {
                Ok(m) => Some(m.instant),
                Err(_) => None,
            },
            _ => None,
        },
        Err(_) => None,
    }
}

/// The note that a markdown file makes with its moment, or why it makes
/// none, where `moment` is the moment its date names (none where the date
/// is not an RFC 3339 timestamp).
pub fn note_from_file(file: ContentFile<NoteFrontMatter>, moment: Option<Instant>) -> (r: Result<(Note, Instant), NoteLoadError>)
    ensures
        note_file_failure_with(file, moment is Some) matches Some(e) ==> r == Err::<(Note, Instant), NoteLoadError>(e),
        note_file_failure_with(file, moment is Some) is None ==> (r matches Ok((note, instant))
            && note_made_from(file, note) && moment == Some(instant)),
{
    let ContentFile { path, file_name, contents } = file;
    let Document { front_matter, body } = match contents {
        Ok(document) => document,
        Err(source) => return Err(NoteLoadError::ReadFile { path, source }),
    };
    let front_matter = match front_matter {
        FrontMatter::Parsed(front_matter) => front_matter,
        FrontMatter::Missing => return Err(NoteLoadError::MissingFrontMatter { path }),
        FrontMatter::Invalid(message) => return Err(NoteLoadError::InvalidFrontMatter { path, message }),
    };
    let instant = match moment {
        Some(instant) => instant,
        None => return Err(NoteLoadError::InvalidDate { path, date: front_matter.date }),
    };
    match file_stem(file_name.as_str()) {
        Some(slug) => Ok((Note { front_matter, slug, body }, instant)),
        None => Err(NoteLoadError::MissingFileStem { path }),
    }
}

/// Position of the last note before `end` whose source id is `id`.
pub open spec fn note_with_source_id_before(notes: Seq<Note>, id: Seq<char>, end: int) -> Option<int>
    decreases end,
{
    if end <= 0 {
        None
    } else if notes[end - 1].front_matter.source_id@ == id {
        Some(end - 1)
    } else {
        note_with_source_id_before(notes, id, end - 1)
    }
}

/// The note that a source id names: the last note with that source id.
pub open spec fn note_with_source_id(notes: Seq<Note>, id: Seq<char>) -> Option<int> {
    note_with_source_id_before(notes, id, notes.len() as int)
}

/// Follows the reply links from note `current`, for at most `steps` links:
/// stops at a note that replies to nothing, to a note that is not there, or
/// to an id already followed (`followed`).
pub open spec fn reply_walk(notes: Seq<Note>, current: int, followed: Seq<Seq<char>>, steps: nat) -> int
    decreases steps,
{
    if steps == 0 {
        current
    } else {
        match notes[current].front_matter.in_reply_to_id {
            None => current,
            Some(parent_id) => if followed.contains(parent_id@) {
                current
            } else {
                match note_with_source_id(notes, parent_id@) {
                    None => current,
                    Some(parent) => reply_walk(notes, parent, followed.push(parent_id@), (steps - 1) as nat),
                }
            },
        }
    }
}

/// The note that starts the thread of note `i`: where its reply links end.
pub open spec fn thread_root(notes: Seq<Note>, i: int) -> int {
    reply_walk(notes, i, Seq::empty(), (notes.len() + 1) as nat)
}

/// The source id of the note that starts the thread of note `i`.
pub open spec fn root_source_id(notes: Seq<Note>, i: int) -> Seq<char> {
    notes[thread_root(notes, i)].front_matter.source_id@
}

proof fn lemma_distinct_positions_bounded(path: Seq<int>, n: int)
    requires
        0 <= n,
        forall|k: int| 0 <= k < path.len() ==> 0 <= #[trigger] path[k] < n,
        forall|a: int, b: int| 0 <= a < b < path.len() ==> path[a] != path[b],
    ensures
        path.len() <= n,
{
    assert(path.no_duplicates());
    path.unique_seq_to_set();
    vstd::set_lib::lemma_int_range(0, n);
    assert forall|x: int| path.to_set().contains(x) implies vstd::set_lib::set_int_range(0, n).contains(x) by {
        assert(path.contains(x));
    }
    vstd::set_lib::lemma_len_subset(path.to_set(), vstd::set_lib::set_int_range(0, n));
}

/// The note that the source id `id` names.
fn find_source_id(notes: &Vec<Note>, id: &String) -> (r: Option<usize>)
    ensures
        r matches Some(i) ==> note_with_source_id(notes@, id@) == Some(i as int),
        r is None ==> note_with_source_id(notes@, id@) is None,
        r matches Some(i) ==> i < notes@.len() && notes@[i as int].front_matter.source_id@ == id@,
{
    let mut end = notes.len();
    while end > 0
        invariant
            end <= notes@.len(),
            note_with_source_id(notes@, id@) == note_with_source_id_before(notes@, id@, end as int),
        decreases end,
    {
        if notes[end - 1].front_matter.source_id == *id {
            return Some(end - 1);
        }
        end -= 1;
    }
    None
}

/// Is `id` among the texts of `list`?
fn contains_text(list: &Vec<String>, id: &String) -> (r: bool)
    ensures
        r == exists|k: int| 0 <= k < list@.len() && #[trigger] list@[k]@ == id@,
{
    let mut i: usize = 0;
    while i < list.len()
        invariant
            i <= list@.len(),
            forall|k: int| 0 <= k < i ==> #[trigger] list@[k]@ != id@,
        decreases list.len() - i,
    {
        if list[i] == *id {
            return true;
        }
        i += 1;
    }
    false
}

/// The source id of the note that starts the thread of note `start`.
#[verifier::spinoff_prover]
fn thread_root_id(notes: &Vec<Note>, start: usize) -> (r: String)
    requires
        start < notes@.len(),
    ensures
        r@ == root_source_id(notes@, start as int),
{
    let n: usize = notes.len();
    let mut current = start;
    let mut followed: Vec<String> = Vec::new();
    let ghost mut ids: Seq<Seq<char>> = Seq::empty();
    let ghost mut path: Seq<int> = Seq::empty();
    loop
        invariant
            n == notes@.len(),
            current < n,
            followed@.len() == ids.len(),
            ids.len() == path.len(),
            path.len() <= n,
            forall|k: int| 0 <= k < ids.len() ==> #[trigger] followed@[k]@ == ids[k],
            forall|k: int| 0 <= k < path.len() ==> 0 <= #[trigger] path[k] < n,
            forall|k: int| 0 <= k < path.len() ==> #[trigger] notes@[path[k]].front_matter.source_id@ == ids[k],
            forall|a: int, b: int| 0 <= a < b < path.len() ==> path[a] != path[b],
            thread_root(notes@, start as int) == reply_walk(notes@, current as int, ids, (n + 1 - ids.len()) as nat),
        ensures
            thread_root(notes@, start as int) == current,
        decreases n - followed@.len(),
    {
        let parent_id = match &notes[current].front_matter.in_reply_to_id {
            None => break,
            Some(parent_id) => parent_id,
        };
        if contains_text(&followed, parent_id) {
            proof {
                let k = choose|k: int| 0 <= k < followed@.len() && #[trigger] followed@[k]@ == parent_id@;
                assert(ids[k] == parent_id@);
                assert(ids.contains(parent_id@));
            }
            break;
        }
        proof {
            assert(!ids.contains(parent_id@)) by {
                if ids.contains(parent_id@) {
                    let k = choose|k: int| 0 <= k < ids.len() && ids[k] == parent_id@;
                    assert(followed@[k]@ == parent_id@);
                }
            }
        }
        match find_source_id(notes, parent_id) {
            None => break,
            Some(parent) => {
                proof {
                    assert forall|k: int| 0 <= k < path.len() implies path[k] != parent as int by {
                        if path[k] == parent as int {
                            assert(ids[k] == parent_id@);
                        }
                    }
                    path = path.push(parent as int);
                    ids = ids.push(parent_id@);
                    lemma_distinct_positions_bounded(path, n as int);
                }
                followed.push(parent_id.duplicate());
                current = parent;
            },
        }
    }
    notes[current].front_matter.source_id.duplicate()
}

/// Index `i` is listed somewhere in `groups`.
pub open spec fn listed_in(groups: Seq<Seq<usize>>, i: int) -> bool {
    exists|k: int, m: int| 0 <= k < groups.len() && 0 <= m < groups[k].len() && #[trigger] groups[k][m] == i
}

/// The notes of `notes`, as index lists, gathered by thread in the order
/// the threads first appear, each list in note order.
spec fn is_gathering(notes: Seq<Note>, keys: Seq<Seq<char>>, groups: Seq<Seq<usize>>, upto: int) -> bool {
    &&& keys.len() == groups.len()
    &&& forall|k: int| 0 <= k < groups.len() ==> #[trigger] groups[k].len() > 0
    &&& forall|k: int, m: int| 0 <= k < groups.len() && 0 <= m < groups[k].len() ==> #[trigger] groups[k][m] < upto
    &&& forall|k: int, m: int| 0 <= k < groups.len() && 0 <= m < groups[k].len()
        ==> root_source_id(notes, #[trigger] groups[k][m] as int) == keys[k]
    &&& forall|k: int, a: int, b: int| 0 <= k < groups.len() && 0 <= a < b < groups[k].len()
        ==> #[trigger] groups[k][a] < #[trigger] groups[k][b]
    &&& forall|a: int, b: int| 0 <= a < b < keys.len() ==> #[trigger] keys[a] != #[trigger] keys[b]
    &&& forall|j: int| 0 <= j < upto ==> #[trigger] listed_in(groups, j)
}

/// Gathers the notes by thread: the root id of each thread, in the order
/// the threads first appear, and the positions of its notes.
fn gather_threads(notes: &Vec<Note>) -> (r: (Vec<String>, Vec<Vec<usize>>))
    ensures
        r.1@.len() == r.0@.len(),
        is_gathering(
            notes@,
            r.0@.map_values(|s: String| s@),
            r.1@.map_values(|v: Vec<usize>| v@),
            notes@.len() as int,
        ),
{
    let n: usize = notes.len();
    let mut keys: Vec<String> = Vec::new();
    let mut members: Vec<Vec<usize>> = Vec::new();
    let ghost mut key_view: Seq<Seq<char>> = Seq::empty();
    let ghost mut groups: Seq<Seq<usize>> = Seq::empty();
    let mut i: usize = 0;
    while i < n
        invariant
            n == notes@.len(),
            i <= n,
            keys@.len() == key_view.len(),
            members@.len() == groups.len(),
            forall|k: int| 0 <= k < keys@.len() ==> #[trigger] keys@[k]@ == key_view[k],
            forall|k: int| 0 <= k < members@.len() ==> #[trigger] members@[k]@ == groups[k],
            is_gathering(notes@, key_view, groups, i as int),
        decreases n - i,
    {
        let root = thread_root_id(notes, i);
        let mut found: Option<usize> = None;
        let mut k: usize = 0;
        while k < keys.len()
            invariant_except_break
                found is None,
            invariant
                keys@.len() == key_view.len(),
                forall|q: int| 0 <= q < keys@.len() ==> #[trigger] keys@[q]@ == key_view[q],
                k <= keys@.len(),
                forall|q: int| 0 <= q < k ==> #[trigger] key_view[q] != root@,
            ensures
                found matches Some(q) ==> q < key_view.len() && key_view[q as int] == root@,
                found is None ==> forall|q: int| 0 <= q < key_view.len() ==> #[trigger] key_view[q] != root@,
            decreases keys.len() - k,
        {
            if keys[k] == root {
                found = Some(k);
                break;
            }
            k += 1;
        }
        let ghost before = groups;
        match found {
            Some(k) => {
                let mut list: Vec<usize> = Vec::new();
                members.set_and_swap(k, &mut list);
                list.push(i);
                proof {
                    groups = groups.update(k as int, groups[k as int].push(i));
                }
                members.set_and_swap(k, &mut list);
                proof {
                    assert(root_source_id(notes@, i as int) == key_view[k as int]);
                    assert forall|q: int, m: int| 0 <= q < groups.len() && 0 <= m < groups[q].len()
                        implies root_source_id(notes@, #[trigger] groups[q][m] as int) == key_view[q] by {
                        if q != k as int || m < before[q].len() {
                            assert(groups[q][m] == before[q][m]);
                        }
                    }
                    assert forall|q: int, a: int, b: int| 0 <= q < groups.len() && 0 <= a < b < groups[q].len()
                        implies #[trigger] groups[q][a] < #[trigger] groups[q][b] by {
                        if q != k as int || b < before[q].len() {
                            assert(groups[q][a] == before[q][a]);
                            assert(groups[q][b] == before[q][b]);
                        } else {
                            assert(groups[q][a] == before[q][a]);
                        }
                    }
                    assert forall|q: int, m: int| 0 <= q < groups.len() && 0 <= m < groups[q].len()
                        implies #[trigger] groups[q][m] < i + 1 by {
                        if q != k as int || m < before[q].len() {
                            assert(groups[q][m] == before[q][m]);
                        }
                    }
                    assert forall|j: int| 0 <= j < i + 1 implies #[trigger] listed_in(groups, j) by {
                        if j == i {
                            assert(groups[k as int][groups[k as int].len() - 1] == i);
                        } else {
                            assert(listed_in(before, j));
                            let (q, m) = choose|q: int, m: int| 0 <= q < before.len() && 0 <= m < before[q].len() && #[trigger] before[q][m] == j;
                            assert(groups[q][m] == j);
                        }
                    }
                }
            },
            None => {
                keys.push(root.duplicate());
                let mut list: Vec<usize> = Vec::new();
                list.push(i);
                members.push(list);
                proof {
                    let old_keys = key_view;
                    key_view = key_view.push(root@);
                    groups = groups.push(seq![i]);
                    assert forall|a: int, b: int| 0 <= a < b < key_view.len() implies #[trigger] key_view[a] != #[trigger] key_view[b] by {
                        if b < old_keys.len() {
                            assert(key_view[a] == old_keys[a] && key_view[b] == old_keys[b]);
                        } else {
                            assert(key_view[a] == old_keys[a]);
                        }
                    }
                    assert forall|q: int, m: int| 0 <= q < groups.len() && 0 <= m < groups[q].len()
                        implies root_source_id(notes@, #[trigger] groups[q][m] as int) == key_view[q] by {
                        if q < before.len() {
                            assert(groups[q] == before[q]);
                        }
                    }
                    assert forall|q: int, a: int, b: int| 0 <= q < groups.len() && 0 <= a < b < groups[q].len()
                        implies #[trigger] groups[q][a] < #[trigger] groups[q][b] by {
                        if q < before.len() {
                            assert(groups[q] == before[q]);
                        }
                    }
                    assert forall|q: int, m: int| 0 <= q < groups.len() && 0 <= m < groups[q].len()
                        implies #[trigger] groups[q][m] < i + 1 by {
                        if q < before.len() {
                            assert(groups[q] == before[q]);
                        }
                    }
                    assert forall|j: int| 0 <= j < i + 1 implies #[trigger] listed_in(groups, j) by {
                        if j == i {
                            assert(groups[groups.len() - 1][0] == i);
                        } else {
                            assert(listed_in(before, j));
                            let (q, m) = choose|q: int, m: int| 0 <= q < before.len() && 0 <= m < before[q].len() && #[trigger] before[q][m] == j;
                            assert(groups[q][m] == j);
                        }
                    }
                }
            },
        }
        i += 1;
    }
    assert(keys@.map_values(|s: String| s@) == key_view);
    assert(members@.map_values(|v: Vec<usize>| v@) == groups);
    (keys, members)
}

/// The positions of the notes of a thread, ordered by moment, oldest first,
/// notes of the same moment in their order.
fn order_thread(members: &Vec<usize>, instants: &Vec<Instant>) -> (r: Vec<usize>)
    requires
        forall|m: int| 0 <= m < members@.len() ==> #[trigger] members@[m] < instants@.len(),
        forall|a: int, b: int| 0 <= a < b < members@.len() ==> #[trigger] members@[a] < #[trigger] members@[b],
    ensures
        r@.len() == members@.len(),
        forall|q: int| 0 <= q < r@.len() ==> members@.contains(#[trigger] r@[q]),
        forall|m: int| 0 <= m < members@.len() ==> r@.contains(#[trigger] members@[m]),
        forall|a: int, b: int| 0 <= a < b < r@.len() ==> r@[a] != r@[b],
        forall|a: int, b: int| 0 <= a < b < r@.len() ==> #[trigger] comes_before(instants@, false, r@[a] as int, r@[b] as int),
{
    let mut keys: Vec<Instant> = Vec::new();
    let mut i: usize = 0;
    while i < members.len()
        invariant
            i <= members@.len(),
            forall|m: int| 0 <= m < members@.len() ==> #[trigger] members@[m] < instants@.len(),
            keys@.len() == i,
            forall|m: int| 0 <= m < i ==> #[trigger] keys@[m] == instants@[members@[m] as int],
        decreases members.len() - i,
    {
        keys.push(instants[members[i]]);
        i += 1;
    }
    let order = stable_order(&keys, false);
    let mut r: Vec<usize> = Vec::new();
    let mut q: usize = 0;
    while q < order.len()
        invariant
            q <= order@.len(),
            order@.len() == members@.len(),
            forall|k: int| 0 <= k < order@.len() ==> #[trigger] order@[k] < members@.len(),
            r@.len() == q,
            forall|k: int| 0 <= k < q ==> #[trigger] r@[k] == members@[order@[k] as int],
        decreases order.len() - q,
    {
        r.push(members[order[q]]);
        q += 1;
    }
    proof {
        assert forall|k: int| 0 <= k < r@.len() implies members@.contains(#[trigger] r@[k]) by {
            assert(members@[order@[k] as int] == r@[k]);
        }
        assert forall|m: int| 0 <= m < members@.len() implies r@.contains(#[trigger] members@[m]) by {
            assert(order@.contains(m as usize));
            let k = choose|k: int| 0 <= k < order@.len() && order@[k] == m as usize;
            assert(r@[k] == members@[m]);
        }
        assert forall|a: int, b: int| 0 <= a < b < r@.len() implies r@[a] != r@[b] by {
            let (x, y) = (order@[a] as int, order@[b] as int);
            assert(x != y);
            if x < y {
                assert(members@[x] < members@[y]);
            } else {
                assert(members@[y] < members@[x]);
            }
        }
        assert forall|a: int, b: int| 0 <= a < b < r@.len() implies #[trigger] comes_before(instants@, false, r@[a] as int, r@[b] as int) by {
            let (x, y) = (order@[a] as int, order@[b] as int);
            assert(comes_before(keys@, false, x, y));
            if x < y {
                assert(members@[x] < members@[y]);
            } else if y < x {
                assert(members@[y] < members@[x]);
            }
        }
    }
    r
}

/// `groups` gathers the notes into threads: every note is listed once;
/// the notes of a group share the root of their thread and different groups
/// have different roots; each group lists its notes oldest first (notes of
/// the same moment in their order), and the groups go from the latest
/// latest note to the earliest.
pub open spec fn is_thread_grouping(notes: Seq<Note>, groups: Seq<Seq<usize>>) -> bool {
    let moments = note_instants(notes);
    &&& forall|k: int| 0 <= k < groups.len() ==> #[trigger] groups[k].len() > 0
    &&& forall|k: int, m: int| 0 <= k < groups.len() && 0 <= m < groups[k].len() ==> #[trigger] groups[k][m] < notes.len()
    &&& forall|j: int| 0 <= j < notes.len() ==> #[trigger] listed_in(groups, j)
    &&& forall|k1: int, m1: int, k2: int, m2: int|
        0 <= k1 < groups.len() && 0 <= k2 < groups.len() && 0 <= m1 < groups[k1].len() && 0 <= m2 < groups[k2].len()
            && #[trigger] groups[k1][m1] == #[trigger] groups[k2][m2] ==> k1 == k2 && m1 == m2
    &&& forall|k: int, m: int| 0 <= k < groups.len() && 0 <= m < groups[k].len()
        ==> root_source_id(notes, #[trigger] groups[k][m] as int) == root_source_id(notes, groups[k][0] as int)
    &&& forall|k1: int, k2: int| 0 <= k1 < k2 < groups.len()
        ==> root_source_id(notes, #[trigger] groups[k1][0] as int) != root_source_id(notes, #[trigger] groups[k2][0] as int)
    &&& forall|k: int, a: int, b: int| 0 <= k < groups.len() && 0 <= a < b < groups[k].len()
        ==> #[trigger] comes_before(moments, false, groups[k][a] as int, groups[k][b] as int)
    &&& forall|k1: int, k2: int| 0 <= k1 < k2 < groups.len()
        ==> !crate::order::instant_lt(moments[#[trigger] groups[k1].last() as int], moments[#[trigger] groups[k2].last() as int])
}

/// `groups` holds copies of the notes at `positions`, group by group.
pub open spec fn holds_groups(notes: Seq<Note>, positions: Seq<Seq<usize>>, groups: Seq<NoteGroup>) -> bool {
    &&& groups.len() == positions.len()
    &&& forall|k: int| 0 <= k < groups.len() ==> (#[trigger] groups[k]).notes@.len() == positions[k].len()
    &&& forall|k: int, m: int| 0 <= k < groups.len() && 0 <= m < positions[k].len()
        ==> (#[trigger] groups[k].notes@[m]).deep_view() == notes[positions[k][m] as int].deep_view()
}

/// `groups` are the notes gathered into threads (see `is_thread_grouping`).
pub open spec fn is_thread_list(notes: Seq<Note>, groups: Seq<NoteGroup>) -> bool {
    exists|positions: Seq<Seq<usize>>| #[trigger] is_thread_grouping(notes, positions) && holds_groups(notes, positions, groups)
}

/// Does the group hold a note with this slug?
pub open spec fn group_has_slug(group: NoteGroup, slug: Seq<char>) -> bool {
    exists|m: int| 0 <= m < group.notes@.len() && #[trigger] group.notes@[m].slug@ == slug
}

/// The first group from `start` on that holds a note with this slug.
pub open spec fn first_group_with_slug_from(groups: Seq<NoteGroup>, slug: Seq<char>, start: int) -> Option<int>
    decreases groups.len() - start,
{
    if start < 0 || start >= groups.len() {
        None
    } else if group_has_slug(groups[start], slug) {
        Some(start)
    } else {
        first_group_with_slug_from(groups, slug, start + 1)
    }
}

/// The first group that holds a note with this slug.
pub open spec fn first_group_with_slug(groups: Seq<NoteGroup>, slug: Seq<char>) -> Option<int> {
    first_group_with_slug_from(groups, slug, 0)
}

proof fn lemma_first_group_with_slug(groups: Seq<NoteGroup>, slug: Seq<char>, start: int)
    requires
        0 <= start <= groups.len(),
    ensures
        first_group_with_slug_from(groups, slug, start) matches Some(k) ==> start <= k < groups.len(),
    decreases groups.len() - start,
{
    if start < groups.len() && !group_has_slug(groups[start], slug) {
        lemma_first_group_with_slug(groups, slug, start + 1);
    }
}

/// The slug of a group's last note: where the next page starts after it.
pub open spec fn thread_cursor(group: NoteGroup) -> Option<Seq<char>> {
    if group.notes@.len() > 0 {
        Some(group.notes@.last().slug@)
    } else {
        None
    }
}

/// The page size asked for, kept between 1 and 100.
pub open spec fn clamped_limit(limit: usize) -> int {
    if limit < 1 {
        1
    } else if limit > 100 {
        100
    } else {
        limit as int
    }
}

/// Where a page starts: right after the group that holds the cursor's note,
/// or at the first group.
pub open spec fn page_start(groups: Seq<NoteGroup>, after: Option<Seq<char>>) -> int {
    match after {
        Some(cursor) => match first_group_with_slug(groups, cursor) {
            Some(k) => k + 1,
            None => 0,
        },
        None => 0,
    }
}

/// `page` is the page of `groups` after the cursor `after`, with at most
/// `limit` groups (kept between 1 and 100), its next cursor when groups
/// follow it, and its previous cursor (empty when the previous page is the
/// first) when groups precede it.
pub open spec fn is_note_page(groups: Seq<NoteGroup>, after: Option<Seq<char>>, limit: usize, page: NotePage) -> bool {
    let size = clamped_limit(limit);
    let start = page_start(groups, after);
    let end = if start + size < groups.len() { start + size } else { groups.len() as int };
    let previous_start = if start > size { start - size } else { 0 };
    &&& page.items@ == groups.subrange(start, end)
    &&& page.next_cursor.deep_view() == if start + size < groups.len() {
        thread_cursor(groups[end - 1])
    } else {
        None
    }
    &&& page.previous_cursor.deep_view() == if start == 0 {
        None
    } else if previous_start == 0 {
        Some(Seq::<char>::empty())
    } else {
        thread_cursor(groups[previous_start - 1])
    }
}

/// No two groups hold notes with the same slug.
pub open spec fn slugs_apart(groups: Seq<NoteGroup>) -> bool {
    forall|k1: int, k2: int, m1: int, m2: int|
        0 <= k1 < groups.len() && 0 <= k2 < groups.len() && k1 != k2 && 0 <= m1 < groups[k1].notes@.len()
            && 0 <= m2 < groups[k2].notes@.len()
            ==> #[trigger] groups[k1].notes@[m1].slug@ != #[trigger] groups[k2].notes@[m2].slug@
}

/// Every group holds at least one note.
pub open spec fn groups_filled(groups: Seq<NoteGroup>) -> bool {
    forall|k: int| 0 <= k < groups.len() ==> (#[trigger] groups[k]).notes@.len() > 0
}

proof fn lemma_only_group_with_slug(groups: Seq<NoteGroup>, slug: Seq<char>, start: int, k: int)
    requires
        0 <= start <= k < groups.len(),
        group_has_slug(groups[k], slug),
        forall|j: int| start <= j < groups.len() && j != k ==> !group_has_slug(#[trigger] groups[j], slug),
    ensures
        first_group_with_slug_from(groups, slug, start) == Some(k),
    decreases k - start,
{
    if start < k {
        lemma_only_group_with_slug(groups, slug, start + 1, k);
    }
}

proof fn lemma_no_group_with_slug(groups: Seq<NoteGroup>, slug: Seq<char>, start: int)
    requires
        0 <= start <= groups.len(),
        forall|j: int| start <= j < groups.len() ==> !group_has_slug(#[trigger] groups[j], slug),
    ensures
        first_group_with_slug_from(groups, slug, start) is None,
    decreases groups.len() - start,
{
    if start < groups.len() {
        lemma_no_group_with_slug(groups, slug, start + 1);
    }
}

/// The cursor of group `k` leads to the page that starts right after it.
proof fn lemma_cursor_leads_after(groups: Seq<NoteGroup>, k: int)
    requires
        0 <= k < groups.len(),
        slugs_apart(groups),
        groups_filled(groups),
    ensures
        page_start(groups, thread_cursor(groups[k])) == k + 1,
{
    let g = groups[k];
    let last = g.notes@.len() - 1;
    let slug = g.notes@[last].slug@;
    assert(group_has_slug(g, slug));
    assert forall|j: int| 0 <= j < groups.len() && j != k implies !group_has_slug(#[trigger] groups[j], slug) by {
        if group_has_slug(groups[j], slug) {
            let m = choose|m: int| 0 <= m < groups[j].notes@.len() && #[trigger] groups[j].notes@[m].slug@ == slug;
            assert(groups[j].notes@[m].slug@ != groups[k].notes@[last].slug@);
        }
    }
    lemma_only_group_with_slug(groups, slug, 0, k);
}

/// Paging goes on without gaps or overlaps: where a page has a next
/// cursor, the page asked for with it starts right after the last thread
/// of this page. (Slugs must tell the threads apart.)
pub proof fn lemma_next_page_follows(groups: Seq<NoteGroup>, after: Option<Seq<char>>, limit: usize, page: NotePage)
    requires
        is_note_page(groups, after, limit, page),
        slugs_apart(groups),
        groups_filled(groups),
        page.next_cursor is Some,
    ensures
        page_start(groups, page.next_cursor.deep_view()) == page_start(groups, after) + page.items@.len(),
        page.items@.len() == clamped_limit(limit),
{
    let size = clamped_limit(limit);
    let start = page_start(groups, after);
    lemma_page_start_bounds(groups, after);
    assert(start + size < groups.len());
    lemma_cursor_leads_after(groups, start + size - 1);
}

/// Paging back works: where a page has a previous cursor, the page asked
/// for with it starts one page size before this page (at the first thread
/// where fewer threads precede), the empty cursor standing for the first
/// page. (Slugs must tell the threads apart, and no slug is empty.)
pub proof fn lemma_previous_page_precedes(groups: Seq<NoteGroup>, after: Option<Seq<char>>, limit: usize, page: NotePage)
    requires
        is_note_page(groups, after, limit, page),
        slugs_apart(groups),
        groups_filled(groups),
        forall|k: int| 0 <= k < groups.len() ==> !group_has_slug(#[trigger] groups[k], Seq::<char>::empty()),
        page.previous_cursor is Some,
    ensures
        page_start(groups, page.previous_cursor.deep_view()) == if page_start(groups, after) > clamped_limit(limit) {
            page_start(groups, after) - clamped_limit(limit)
        } else {
            0
        },
{
    let size = clamped_limit(limit);
    let start = page_start(groups, after);
    lemma_page_start_bounds(groups, after);
    if start > size {
        lemma_cursor_leads_after(groups, start - size - 1);
    } else {
        lemma_no_group_with_slug(groups, Seq::<char>::empty(), 0);
    }
}

/// A page starts within the threads, or right after the last one.
proof fn lemma_page_start_bounds(groups: Seq<NoteGroup>, after: Option<Seq<char>>)
    ensures
        0 <= page_start(groups, after) <= groups.len(),
{
    if let Some(cursor) = after {
        lemma_first_group_with_slug(groups, cursor, 0);
    }
}

/// Is note `i` a latest note of its thread: is no note of its thread later?
pub open spec fn latest_of_thread(notes: Seq<Note>, i: int) -> bool {
    forall|j: int| 0 <= j < notes.len() && root_source_id(notes, j) == root_source_id(notes, i)
        ==> !crate::order::instant_lt(note_instant(notes[i]), #[trigger] note_instant(notes[j]))
}

/// No two threads have their latest notes at the same moment.
pub open spec fn thread_latests_apart(notes: Seq<Note>) -> bool {
    forall|i: int, j: int|
        0 <= i < notes.len() && 0 <= j < notes.len() && root_source_id(notes, i) != root_source_id(notes, j)
            && #[trigger] latest_of_thread(notes, i) && #[trigger] latest_of_thread(notes, j)
            ==> note_instant(notes[i]) != note_instant(notes[j])
}

/// Two sequences of the same items, each in strictly increasing order of a
/// relation that is asymmetric on them, are the same sequence.
proof fn lemma_sorted_unique(s: Seq<usize>, t: Seq<usize>, lt: spec_fn(usize, usize) -> bool)
    requires
        forall|a: int, b: int| 0 <= a < b < s.len() ==> lt(#[trigger] s[a], #[trigger] s[b]),
        forall|a: int, b: int| 0 <= a < b < t.len() ==> lt(#[trigger] t[a], #[trigger] t[b]),
        forall|a: int, b: int| #![trigger s[a], s[b]] 0 <= a < s.len() && 0 <= b < s.len() && lt(s[a], s[b]) ==> !lt(s[b], s[a]),
        forall|x: usize| s.contains(x) <==> t.contains(x),
    ensures
        s == t,
    decreases s.len(),
{
    if s.len() == 0 {
        if t.len() > 0 {
            assert(t.contains(t[0]));
        }
        assert(s =~= t);
    } else {
        assert(s.contains(s[0]));
        let q = choose|q: int| 0 <= q < t.len() && t[q] == s[0];
        assert(t.contains(t[0]));
        let p = choose|p: int| 0 <= p < s.len() && s[p] == t[0];
        assert(!lt(s[0], s[0]));
        if p > 0 && q > 0 {
            assert(lt(s[0], s[p]));
            assert(lt(t[0], t[q]));
        }
        assert(s[0] == t[0]);
        let s2 = s.drop_first();
        let t2 = t.drop_first();
        assert forall|x: usize| s2.contains(x) <==> t2.contains(x) by {
            if s2.contains(x) {
                let a = choose|a: int| 0 <= a < s2.len() && s2[a] == x;
                assert(s[a + 1] == x);
                assert(lt(s[0], s[a + 1]));
                assert(s.contains(x));
                let b = choose|b: int| 0 <= b < t.len() && t[b] == x;
                assert(b != 0);
                assert(t2[b - 1] == x);
            }
            if t2.contains(x) {
                let b = choose|b: int| 0 <= b < t2.len() && t2[b] == x;
                assert(t[b + 1] == x);
                assert(lt(t[0], t[b + 1]));
                assert(t.contains(x));
                let a = choose|a: int| 0 <= a < s.len() && s[a] == x;
                assert(a != 0);
                assert(s2[a - 1] == x);
            }
        }
        assert forall|a: int, b: int| #![trigger s2[a], s2[b]] 0 <= a < s2.len() && 0 <= b < s2.len() && lt(s2[a], s2[b]) implies !lt(s2[b], s2[a]) by {
            assert(s2[a] == s[a + 1] && s2[b] == s[b + 1]);
        }
        assert forall|a: int, b: int| 0 <= a < b < s2.len() implies lt(#[trigger] s2[a], #[trigger] s2[b]) by {
            assert(s2[a] == s[a + 1] && s2[b] == s[b + 1]);
        }
        assert forall|a: int, b: int| 0 <= a < b < t2.len() implies lt(#[trigger] t2[a], #[trigger] t2[b]) by {
            assert(t2[a] == t[a + 1] && t2[b] == t[b + 1]);
        }
        lemma_sorted_unique(s2, t2, lt);
        assert(s =~= seq![s[0]] + s2);
        assert(t =~= seq![t[0]] + t2);
    }
}

/// Every note of the thread of a group of a thread grouping is in that
/// group.
proof fn lemma_group_is_thread(notes: Seq<Note>, p: Seq<Seq<usize>>, k: int)
    requires
        is_thread_grouping(notes, p),
        0 <= k < p.len(),
    ensures
        forall|j: int| 0 <= j < notes.len() && #[trigger] root_source_id(notes, j) == root_source_id(notes, p[k][0] as int)
            ==> exists|m: int| 0 <= m < p[k].len() && p[k][m] == j,
{
    assert(p[k].len() > 0);
    assert forall|j: int| 0 <= j < notes.len() && #[trigger] root_source_id(notes, j) == root_source_id(notes, p[k][0] as int)
        implies exists|m: int| 0 <= m < p[k].len() && p[k][m] == j by {
        assert(listed_in(p, j));
        let (k2, m2) = choose|k2: int, m2: int| 0 <= k2 < p.len() && 0 <= m2 < p[k2].len() && #[trigger] p[k2][m2] == j;
        assert(root_source_id(notes, p[k2][m2] as int) == root_source_id(notes, p[k2][0] as int));
        if k2 < k {
            assert(root_source_id(notes, p[k2][0] as int) != root_source_id(notes, p[k][0] as int));
        } else if k < k2 {
            assert(root_source_id(notes, p[k][0] as int) != root_source_id(notes, p[k2][0] as int));
        }
        assert(p[k][m2] == j);
    }
}

/// Groups of two thread groupings of the same notes that hold the same
/// thread list the same notes in the same order.
proof fn lemma_same_thread_same_group(notes: Seq<Note>, p1: Seq<Seq<usize>>, k1: int, p2: Seq<Seq<usize>>, k2: int)
    requires
        is_thread_grouping(notes, p1),
        is_thread_grouping(notes, p2),
        0 <= k1 < p1.len(),
        0 <= k2 < p2.len(),
        root_source_id(notes, p1[k1][0] as int) == root_source_id(notes, p2[k2][0] as int),
    ensures
        p1[k1] == p2[k2],
{
    let moments = note_instants(notes);
    let s = p1[k1];
    let t = p2[k2];
    lemma_group_is_thread(notes, p1, k1);
    lemma_group_is_thread(notes, p2, k2);
    assert forall|x: usize| s.contains(x) <==> t.contains(x) by {
        if s.contains(x) {
            let m = choose|m: int| 0 <= m < s.len() && s[m] == x;
            assert(p1[k1][m] < notes.len());
            assert(root_source_id(notes, p1[k1][m] as int) == root_source_id(notes, p1[k1][0] as int));
            assert(root_source_id(notes, x as int) == root_source_id(notes, p2[k2][0] as int));
            let m2 = choose|m2: int| 0 <= m2 < p2[k2].len() && p2[k2][m2] == x as int;
            assert(t[m2] == x);
        }
        if t.contains(x) {
            let m = choose|m: int| 0 <= m < t.len() && t[m] == x;
            assert(p2[k2][m] < notes.len());
            assert(root_source_id(notes, p2[k2][m] as int) == root_source_id(notes, p2[k2][0] as int));
            assert(root_source_id(notes, x as int) == root_source_id(notes, p1[k1][0] as int));
            let m1 = choose|m1: int| 0 <= m1 < p1[k1].len() && p1[k1][m1] == x as int;
            assert(s[m1] == x);
        }
    }
    let lt = |a: usize, b: usize| comes_before(moments, false, a as int, b as int);
    assert forall|a: int, b: int| 0 <= a < b < s.len() implies lt(#[trigger] s[a], #[trigger] s[b]) by {
        assert(comes_before(moments, false, p1[k1][a] as int, p1[k1][b] as int));
    }
    assert forall|a: int, b: int| 0 <= a < b < t.len() implies lt(#[trigger] t[a], #[trigger] t[b]) by {
        assert(comes_before(moments, false, p2[k2][a] as int, p2[k2][b] as int));
    }
    assert forall|a: int, b: int| #![trigger s[a], s[b]] 0 <= a < s.len() && 0 <= b < s.len() && lt(s[a], s[b]) implies !lt(s[b], s[a]) by {
        assert(p1[k1][a] < notes.len() && p1[k1][b] < notes.len());
        crate::order::lemma_comes_before(moments, false, s[a] as int, s[b] as int, s[b] as int);
    }
    lemma_sorted_unique(s, t, lt);
}

/// The last note of a group of a thread grouping is a latest note of its
/// thread.
proof fn lemma_group_last_is_latest(notes: Seq<Note>, p: Seq<Seq<usize>>, k: int)
    requires
        is_thread_grouping(notes, p),
        0 <= k < p.len(),
    ensures
        latest_of_thread(notes, p[k].last() as int),
        root_source_id(notes, p[k].last() as int) == root_source_id(notes, p[k][0] as int),
{
    let moments = note_instants(notes);
    let n = p[k].len();
    assert(n > 0);
    let last = p[k][n - 1];
    assert(root_source_id(notes, p[k][n - 1] as int) == root_source_id(notes, p[k][0] as int));
    lemma_group_is_thread(notes, p, k);
    assert forall|j: int| 0 <= j < notes.len() && root_source_id(notes, j) == root_source_id(notes, last as int)
        implies !crate::order::instant_lt(note_instant(notes[last as int]), #[trigger] note_instant(notes[j])) by {
        assert(root_source_id(notes, j) == root_source_id(notes, p[k][0] as int));
        let a = choose|a: int| 0 <= a < p[k].len() && p[k][a] == j;
        assert(last < notes.len());
        assert(moments[j] == note_instant(notes[j]));
        assert(moments[last as int] == note_instant(notes[last as int]));
        if a < n - 1 {
            assert(comes_before(moments, false, p[k][a] as int, p[k][n - 1] as int));
        }
    }
}

/// The last notes of the groups, in order.
pub open spec fn group_lasts(p: Seq<Seq<usize>>) -> Seq<usize> {
    Seq::new(p.len(), |k: int| p[k].last())
}

/// Where no two threads have their latest notes at the same moment, the
/// thread grouping of the notes is unique.
#[verifier::rlimit(40)]
#[verifier::spinoff_prover]
proof fn lemma_thread_grouping_unique(notes: Seq<Note>, p1: Seq<Seq<usize>>, p2: Seq<Seq<usize>>)
    requires
        is_thread_grouping(notes, p1),
        is_thread_grouping(notes, p2),
        thread_latests_apart(notes),
    ensures
        p1 == p2,
{
    let moments = note_instants(notes);
    let l1 = group_lasts(p1);
    let l2 = group_lasts(p2);
    // each group of one grouping is a group of the other
    assert forall|k1: int| #![trigger p1[k1]] 0 <= k1 < p1.len() implies exists|k2: int| 0 <= k2 < p2.len() && #[trigger] p2[k2] == p1[k1] by {
        let j = p1[k1][0];
        assert(p1[k1].len() > 0);
        assert(j < notes.len());
        assert(listed_in(p2, j as int));
        let (k2, m2) = choose|k2: int, m2: int| 0 <= k2 < p2.len() && 0 <= m2 < p2[k2].len() && #[trigger] p2[k2][m2] == j as int;
        assert(root_source_id(notes, p2[k2][m2] as int) == root_source_id(notes, p2[k2][0] as int));
        lemma_same_thread_same_group(notes, p1, k1, p2, k2);
    }
    assert forall|k2: int| #![trigger p2[k2]] 0 <= k2 < p2.len() implies exists|k1: int| 0 <= k1 < p1.len() && #[trigger] p1[k1] == p2[k2] by {
        let j = p2[k2][0];
        assert(p2[k2].len() > 0);
        assert(j < notes.len());
        assert(listed_in(p1, j as int));
        let (k1, m1) = choose|k1: int, m1: int| 0 <= k1 < p1.len() && 0 <= m1 < p1[k1].len() && #[trigger] p1[k1][m1] == j as int;
        assert(root_source_id(notes, p1[k1][m1] as int) == root_source_id(notes, p1[k1][0] as int));
        lemma_same_thread_same_group(notes, p1, k1, p2, k2);
    }
    assert forall|x: usize| l1.contains(x) <==> l2.contains(x) by {
        if l1.contains(x) {
            let k1 = choose|k1: int| 0 <= k1 < l1.len() && l1[k1] == x;
            let k2 = choose|k2: int| 0 <= k2 < p2.len() && #[trigger] p2[k2] == p1[k1];
            assert(l2[k2] == x);
        }
        if l2.contains(x) {
            let k2 = choose|k2: int| 0 <= k2 < l2.len() && l2[k2] == x;
            let k1 = choose|k1: int| 0 <= k1 < p1.len() && #[trigger] p1[k1] == p2[k2];
            assert(l1[k1] == x);
        }
    }
    let later = |a: usize, b: usize| crate::order::instant_lt(moments[b as int], moments[a as int]);
    assert forall|a: int, b: int| 0 <= a < b < l1.len() implies later(#[trigger] l1[a], #[trigger] l1[b]) by {
        lemma_group_last_is_latest(notes, p1, a);
        lemma_group_last_is_latest(notes, p1, b);
        assert(p1[a].len() > 0 && p1[b].len() > 0);
        assert(p1[a].last() < notes.len() && p1[b].last() < notes.len());
        assert(root_source_id(notes, p1[a][0] as int) != root_source_id(notes, p1[b][0] as int));
        assert(moments[l1[a] as int] == note_instant(notes[l1[a] as int]));
        assert(moments[l1[b] as int] == note_instant(notes[l1[b] as int]));
        assert(!crate::order::instant_lt(moments[p1[a].last() as int], moments[p1[b].last() as int]));
    }
    assert forall|a: int, b: int| 0 <= a < b < l2.len() implies later(#[trigger] l2[a], #[trigger] l2[b]) by {
        lemma_group_last_is_latest(notes, p2, a);
        lemma_group_last_is_latest(notes, p2, b);
        assert(p2[a].len() > 0 && p2[b].len() > 0);
        assert(p2[a].last() < notes.len() && p2[b].last() < notes.len());
        assert(root_source_id(notes, p2[a][0] as int) != root_source_id(notes, p2[b][0] as int));
        assert(moments[l2[a] as int] == note_instant(notes[l2[a] as int]));
        assert(moments[l2[b] as int] == note_instant(notes[l2[b] as int]));
        assert(!crate::order::instant_lt(moments[p2[a].last() as int], moments[p2[b].last() as int]));
    }
    lemma_sorted_unique(l1, l2, later);
    assert forall|k: int| 0 <= k < p1.len() implies #[trigger] p1[k] == p2[k] by {
        lemma_group_last_is_latest(notes, p1, k);
        lemma_group_last_is_latest(notes, p2, k);
        assert(l1[k] == l2[k]);
        lemma_same_thread_same_group(notes, p1, k, p2, k);
    }
    assert(p1 =~= p2);
}

/// Two lists of groups hold the same notes, group by group, in the same
/// order.
pub open spec fn same_groups(a: Seq<NoteGroup>, b: Seq<NoteGroup>) -> bool {
    &&& a.len() == b.len()
    &&& forall|k: int| 0 <= k < a.len() ==> (#[trigger] a[k]).notes@.len() == b[k].notes@.len()
    &&& forall|k: int, m: int| 0 <= k < a.len() && 0 <= m < a[k].notes@.len()
        ==> (#[trigger] a[k].notes@[m]).deep_view() == b[k].notes@[m].deep_view()
}

/// Where no two threads have their latest notes at the same moment, every
/// thread list of the notes is the same: separate calls of `note_groups`,
/// `note_group` and `note_page` on one index see the same threads in the
/// same order.
pub proof fn lemma_thread_list_unique(notes: Seq<Note>, g1: Seq<NoteGroup>, g2: Seq<NoteGroup>)
    requires
        is_thread_list(notes, g1),
        is_thread_list(notes, g2),
        thread_latests_apart(notes),
    ensures
        same_groups(g1, g2),
{
    let p1 = choose|p: Seq<Seq<usize>>| #[trigger] is_thread_grouping(notes, p) && holds_groups(notes, p, g1);
    let p2 = choose|p: Seq<Seq<usize>>| #[trigger] is_thread_grouping(notes, p) && holds_groups(notes, p, g2);
    lemma_thread_grouping_unique(notes, p1, p2);
    assert forall|k: int, m: int| 0 <= k < g1.len() && 0 <= m < g1[k].notes@.len()
        implies (#[trigger] g1[k].notes@[m]).deep_view() == g2[k].notes@[m].deep_view() by {
        assert(g1[k].notes@[m].deep_view() == notes[p1[k][m] as int].deep_view());
        assert(g2[k].notes@[m].deep_view() == notes[p2[k][m] as int].deep_view());
    }
    assert forall|k: int| 0 <= k < g1.len() implies (#[trigger] g1[k]).notes@.len() == g2[k].notes@.len() by {
        assert(g1[k].notes@.len() == p1[k].len());
        assert(g2[k].notes@.len() == p2[k].len());
    }
}

/// Lists that hold the same notes find a slug in the same group.
proof fn lemma_same_groups_find_alike(g1: Seq<NoteGroup>, g2: Seq<NoteGroup>, slug: Seq<char>, start: int)
    requires
        same_groups(g1, g2),
        0 <= start <= g1.len(),
    ensures
        first_group_with_slug_from(g1, slug, start) == first_group_with_slug_from(g2, slug, start),
    decreases g1.len() - start,
{
    if start < g1.len() {
        assert(group_has_slug(g1[start], slug) == group_has_slug(g2[start], slug)) by {
            assert(g1[start].notes@.len() == g2[start].notes@.len());
            if group_has_slug(g1[start], slug) {
                let m = choose|m: int| 0 <= m < g1[start].notes@.len() && #[trigger] g1[start].notes@[m].slug@ == slug;
                assert(g1[start].notes@[m].deep_view() == g2[start].notes@[m].deep_view());
                assert(g2[start].notes@[m].slug@ == slug);
            }
            if group_has_slug(g2[start], slug) {
                let m = choose|m: int| 0 <= m < g2[start].notes@.len() && #[trigger] g2[start].notes@[m].slug@ == slug;
                assert(g1[start].notes@[m].deep_view() == g2[start].notes@[m].deep_view());
                assert(g1[start].notes@[m].slug@ == slug);
            }
        }
        lemma_same_groups_find_alike(g1, g2, slug, start + 1);
    }
}

/// Lists that hold the same notes start a page at the same thread.
proof fn lemma_same_groups_page_start(g1: Seq<NoteGroup>, g2: Seq<NoteGroup>, after: Option<Seq<char>>)
    requires
        same_groups(g1, g2),
    ensures
        page_start(g1, after) == page_start(g2, after),
{
    if let Some(cursor) = after {
        lemma_same_groups_find_alike(g1, g2, cursor, 0);
    }
}

/// The groups from `start` up to `end` of the second list hold the same
/// notes as those of the first.
proof fn lemma_same_groups_subrange(g1: Seq<NoteGroup>, g2: Seq<NoteGroup>, start: int, end: int)
    requires
        same_groups(g1, g2),
        0 <= start <= end <= g1.len(),
    ensures
        same_groups(g2.subrange(start, end), g1.subrange(start, end)),
{
    let a = g2.subrange(start, end);
    let b = g1.subrange(start, end);
    assert forall|k: int| 0 <= k < a.len() implies (#[trigger] a[k]).notes@.len() == b[k].notes@.len() by {
        assert(g1[start + k].notes@.len() == g2[start + k].notes@.len());
    }
    assert forall|k: int, m: int| 0 <= k < a.len() && 0 <= m < a[k].notes@.len()
        implies (#[trigger] a[k].notes@[m]).deep_view() == b[k].notes@[m].deep_view() by {
        assert(g1[start + k].notes@.len() == g2[start + k].notes@.len());
        assert(g1[start + k].notes@[m].deep_view() == g2[start + k].notes@[m].deep_view());
    }
}

/// Lists that hold the same notes give each group the same cursor.
proof fn lemma_same_groups_cursor(g1: Seq<NoteGroup>, g2: Seq<NoteGroup>, k: int)
    requires
        same_groups(g1, g2),
        0 <= k < g1.len(),
    ensures
        thread_cursor(g1[k]) == thread_cursor(g2[k]),
{
    let n = g1[k].notes@.len();
    assert(n == g2[k].notes@.len());
    if n > 0 {
        assert(g1[k].notes@[n - 1].deep_view() == g2[k].notes@[n - 1].deep_view());
    }
}

/// Where no two threads have their latest notes at the same moment, a
/// thread found by slug in a thread list of the notes is the thread that
/// any other thread list of them holds at that place, such as the list a
/// separate call of `note_groups` gives.
pub proof fn lemma_thread_found_in_any_list(notes: Seq<Note>, g1: Seq<NoteGroup>, g2: Seq<NoteGroup>, slug: Seq<char>)
    requires
        is_thread_list(notes, g1),
        is_thread_list(notes, g2),
        thread_latests_apart(notes),
    ensures
        first_group_with_slug(g1, slug) == first_group_with_slug(g2, slug),
        first_group_with_slug(g1, slug) matches Some(k) ==> same_groups(seq![g1[k]], seq![g2[k]]),
{
    lemma_thread_list_unique(notes, g1, g2);
    lemma_same_groups_find_alike(g1, g2, slug, 0);
    lemma_first_group_with_slug(g1, slug, 0);
    if let Some(k) = first_group_with_slug(g1, slug) {
        lemma_same_groups_subrange(g1, g2, k, k + 1);
        assert(g2.subrange(k, k + 1) =~= seq![g2[k]]);
        assert(g1.subrange(k, k + 1) =~= seq![g1[k]]);
        assert(g1[k].notes@.len() == g2[k].notes@.len());
        assert forall|i: int, m: int| 0 <= i < 1 && 0 <= m < seq![g1[k]][i].notes@.len()
            implies (#[trigger] seq![g1[k]][i].notes@[m]).deep_view() == seq![g2[k]][i].notes@[m].deep_view() by {
            assert(g1[k].notes@[m].deep_view() == g2[k].notes@[m].deep_view());
        }
    }
}

/// The group found for a slug in a thread grouping holds a note with that
/// slug, and its thread is that note's.
proof fn lemma_found_group_root(
    notes: Seq<Note>,
    p: Seq<Seq<usize>>,
    g: Seq<NoteGroup>,
    slug: Seq<char>,
    k: int,
) -> (j: int)
    requires
        is_thread_grouping(notes, p),
        holds_groups(notes, p, g),
        first_group_with_slug(g, slug) == Some(k),
    ensures
        0 <= k < g.len(),
        0 <= j < notes.len(),
        notes[j].slug@ == slug,
        root_source_id(notes, j) == root_source_id(notes, p[k][0] as int),
{
    lemma_first_group_with_slug(g, slug, 0);
    lemma_first_group_has_slug(g, slug, 0);
    let m = choose|m: int| 0 <= m < g[k].notes@.len() && #[trigger] g[k].notes@[m].slug@ == slug;
    assert(g[k].notes@[m].deep_view() == notes[p[k][m] as int].deep_view());
    assert(root_source_id(notes, p[k][m] as int) == root_source_id(notes, p[k][0] as int));
    p[k][m] as int
}

/// Looking a thread up by slug needs no order between tied threads: where
/// all the notes with the slug are in one thread, any two thread lists of
/// the notes (such as those of a `note_group` call and of a separate
/// `note_groups` call) find a thread for the slug alike, and the threads
/// they find hold the same notes in the same order.
pub proof fn lemma_thread_by_slug_in_any_list(notes: Seq<Note>, g1: Seq<NoteGroup>, g2: Seq<NoteGroup>, slug: Seq<char>)
    requires
        is_thread_list(notes, g1),
        is_thread_list(notes, g2),
        forall|i: int, j: int| 0 <= i < notes.len() && 0 <= j < notes.len() && #[trigger] notes[i].slug@ == slug
            && #[trigger] notes[j].slug@ == slug ==> root_source_id(notes, i) == root_source_id(notes, j),
    ensures
        first_group_with_slug(g1, slug) is Some <==> first_group_with_slug(g2, slug) is Some,
        first_group_with_slug(g1, slug) matches Some(k1) ==> first_group_with_slug(g2, slug) matches Some(k2)
            && same_groups(seq![g1[k1]], seq![g2[k2]]),
{
    lemma_thread_of_note_found(notes, g1, slug);
    lemma_thread_of_note_found(notes, g2, slug);
    let p1 = choose|p: Seq<Seq<usize>>| #[trigger] is_thread_grouping(notes, p) && holds_groups(notes, p, g1);
    let p2 = choose|p: Seq<Seq<usize>>| #[trigger] is_thread_grouping(notes, p) && holds_groups(notes, p, g2);
    if let Some(k1) = first_group_with_slug(g1, slug) {
        let j1 = lemma_found_group_root(notes, p1, g1, slug, k1);
        assert(exists|i: int| 0 <= i < notes.len() && #[trigger] notes[i].slug@ == slug);
        let k2 = first_group_with_slug(g2, slug)->0;
        let j2 = lemma_found_group_root(notes, p2, g2, slug, k2);
        assert(root_source_id(notes, j1) == root_source_id(notes, j2));
        lemma_same_thread_same_group(notes, p1, k1, p2, k2);
        assert(g1[k1].notes@.len() == g2[k2].notes@.len());
        assert forall|i: int, m: int| 0 <= i < 1 && 0 <= m < seq![g1[k1]][i].notes@.len()
            implies (#[trigger] seq![g1[k1]][i].notes@[m]).deep_view() == seq![g2[k2]][i].notes@[m].deep_view() by {
            assert(g1[k1].notes@[m].deep_view() == notes[p1[k1][m] as int].deep_view());
            assert(g2[k2].notes@[m].deep_view() == notes[p2[k2][m] as int].deep_view());
        }
    } else if first_group_with_slug(g2, slug) is Some {
        let k2 = first_group_with_slug(g2, slug)->0;
        let j2 = lemma_found_group_root(notes, p2, g2, slug, k2);
        assert(exists|i: int| 0 <= i < notes.len() && #[trigger] notes[i].slug@ == slug);
    }
}

/// Where no two threads have their latest notes at the same moment, a page
/// of a thread list of the notes is the page of any other thread list of
/// them, such as the list a separate call of `note_groups` gives: the same
/// threads, and the same next and previous cursors.
pub proof fn lemma_page_over_any_list(
    notes: Seq<Note>,
    g1: Seq<NoteGroup>,
    g2: Seq<NoteGroup>,
    after: Option<Seq<char>>,
    limit: usize,
    page: NotePage,
)
    requires
        is_thread_list(notes, g1),
        is_thread_list(notes, g2),
        thread_latests_apart(notes),
        is_note_page(g1, after, limit, page),
    ensures
        ({
            let size = clamped_limit(limit);
            let start = page_start(g2, after);
            let end = if start + size < g2.len() { start + size } else { g2.len() as int };
            let previous_start = if start > size { start - size } else { 0 };
            &&& same_groups(page.items@, g2.subrange(start, end))
            &&& page.next_cursor.deep_view() == if start + size < g2.len() {
                thread_cursor(g2[end - 1])
            } else {
                None
            }
            &&& page.previous_cursor.deep_view() == if start == 0 {
                None
            } else if previous_start == 0 {
                Some(Seq::<char>::empty())
            } else {
                thread_cursor(g2[previous_start - 1])
            }
        }),
{
    lemma_thread_list_unique(notes, g1, g2);
    lemma_same_groups_page_start(g1, g2, after);
    lemma_page_start_bounds(g1, after);
    let size = clamped_limit(limit);
    let start = page_start(g2, after);
    let end = if start + size < g2.len() { start + size } else { g2.len() as int };
    let previous_start = if start > size { start - size } else { 0 };
    lemma_same_groups_subrange(g1, g2, start, end);
    let a = page.items@;
    let b = g2.subrange(start, end);
    let c = g1.subrange(start, end);
    assert(a == c);
    assert forall|k: int| 0 <= k < a.len() implies (#[trigger] a[k]).notes@.len() == b[k].notes@.len() by {
        assert(b[k].notes@.len() == c[k].notes@.len());
    }
    assert forall|k: int, m: int| 0 <= k < a.len() && 0 <= m < a[k].notes@.len()
        implies (#[trigger] a[k].notes@[m]).deep_view() == b[k].notes@[m].deep_view() by {
        assert(b[k].notes@[m].deep_view() == c[k].notes@[m].deep_view());
    }
    if start + size < g2.len() {
        lemma_same_groups_cursor(g1, g2, end - 1);
    }
    if start > 0 && previous_start > 0 {
        lemma_same_groups_cursor(g1, g2, previous_start - 1);
    }
}

/// The same thread list, whatever call made it: where no two threads have
/// their latest notes at the same moment and slugs are distinct, the page
/// asked for with a page's next cursor, by a separate call, holds the
/// threads right after that page, at most one page size of them.
pub proof fn lemma_next_page_follows_across_calls(
    notes: Seq<Note>,
    g1: Seq<NoteGroup>,
    g2: Seq<NoteGroup>,
    after: Option<Seq<char>>,
    limit: usize,
    page: NotePage,
    next: NotePage,
)
    requires
        is_thread_list(notes, g1),
        is_thread_list(notes, g2),
        thread_latests_apart(notes),
        forall|i: int, j: int| 0 <= i < j < notes.len() ==> #[trigger] notes[i].slug@ != #[trigger] notes[j].slug@,
        is_note_page(g1, after, limit, page),
        page.next_cursor is Some,
        is_note_page(g2, page.next_cursor.deep_view(), limit, next),
    ensures
        same_groups(next.items@, g1.subrange(
            page_start(g1, after) + clamped_limit(limit),
            if page_start(g1, after) + 2 * clamped_limit(limit) < g1.len() {
                page_start(g1, after) + 2 * clamped_limit(limit)
            } else {
                g1.len() as int
            },
        )),
{
    lemma_thread_list_unique(notes, g1, g2);
    lemma_threads_of_distinct_slugs(notes, g1);
    lemma_next_page_follows(g1, after, limit, page);
    let c = page.next_cursor.deep_view();
    lemma_same_groups_page_start(g1, g2, c);
    let size = clamped_limit(limit);
    let s = page_start(g1, after) + size;
    lemma_page_start_bounds(g1, c);
    let e = if s + size < g1.len() { s + size } else { g1.len() as int };
    lemma_same_groups_subrange(g1, g2, s, e);
}

/// The same thread list, whatever call made it: where no two threads have
/// their latest notes at the same moment, slugs are distinct and none is
/// empty, the page asked for with a page's previous cursor, by a separate
/// call, starts one page size earlier, or at the first thread.
pub proof fn lemma_previous_page_across_calls(
    notes: Seq<Note>,
    g1: Seq<NoteGroup>,
    g2: Seq<NoteGroup>,
    after: Option<Seq<char>>,
    limit: usize,
    page: NotePage,
    previous: NotePage,
)
    requires
        is_thread_list(notes, g1),
        is_thread_list(notes, g2),
        thread_latests_apart(notes),
        forall|i: int, j: int| 0 <= i < j < notes.len() ==> #[trigger] notes[i].slug@ != #[trigger] notes[j].slug@,
        forall|i: int| 0 <= i < notes.len() ==> (#[trigger] notes[i]).slug@.len() > 0,
        is_note_page(g1, after, limit, page),
        page.previous_cursor is Some,
        is_note_page(g2, page.previous_cursor.deep_view(), limit, previous),
    ensures
        ({
            let t = if page_start(g1, after) > clamped_limit(limit) {
                page_start(g1, after) - clamped_limit(limit)
            } else {
                0
            };
            same_groups(previous.items@, g1.subrange(
                t,
                if t + clamped_limit(limit) < g1.len() { t + clamped_limit(limit) } else { g1.len() as int },
            ))
        }),
{
    lemma_thread_list_unique(notes, g1, g2);
    lemma_threads_of_distinct_slugs(notes, g1);
    let positions = choose|positions: Seq<Seq<usize>>| #[trigger] is_thread_grouping(notes, positions)
        && holds_groups(notes, positions, g1);
    assert forall|k: int| 0 <= k < g1.len() implies !group_has_slug(#[trigger] g1[k], Seq::<char>::empty()) by {
        if group_has_slug(g1[k], Seq::<char>::empty()) {
            let m = choose|m: int| 0 <= m < g1[k].notes@.len() && #[trigger] g1[k].notes@[m].slug@ == Seq::<char>::empty();
            assert(g1[k].notes@[m].deep_view() == notes[positions[k][m] as int].deep_view());
            assert(notes[positions[k][m] as int].slug@.len() > 0);
        }
    }
    lemma_previous_page_precedes(g1, after, limit, page);
    let c = page.previous_cursor.deep_view();
    lemma_same_groups_page_start(g1, g2, c);
    lemma_page_start_bounds(g1, c);
    let size = clamped_limit(limit);
    let t = page_start(g1, c);
    let e = if t + size < g1.len() { t + size } else { g1.len() as int };
    lemma_same_groups_subrange(g1, g2, t, e);
}

/// Threads made from notes with distinct slugs hold at least one note
/// each, and no two of them share a slug: the conditions under which the
/// paging laws hold.
pub proof fn lemma_threads_of_distinct_slugs(notes: Seq<Note>, groups: Seq<NoteGroup>)
    requires
        is_thread_list(notes, groups),
        forall|i: int, j: int| 0 <= i < j < notes.len() ==> #[trigger] notes[i].slug@ != #[trigger] notes[j].slug@,
    ensures
        slugs_apart(groups),
        groups_filled(groups),
{
    let positions = choose|positions: Seq<Seq<usize>>| #[trigger] is_thread_grouping(notes, positions)
        && holds_groups(notes, positions, groups);
    assert forall|k: int| 0 <= k < groups.len() implies (#[trigger] groups[k]).notes@.len() > 0 by {
        assert(positions[k].len() > 0);
    }
    assert forall|k1: int, k2: int, m1: int, m2: int|
        0 <= k1 < groups.len() && 0 <= k2 < groups.len() && k1 != k2 && 0 <= m1 < groups[k1].notes@.len()
            && 0 <= m2 < groups[k2].notes@.len()
        implies #[trigger] groups[k1].notes@[m1].slug@ != #[trigger] groups[k2].notes@[m2].slug@ by {
        let a = positions[k1][m1] as int;
        let b = positions[k2][m2] as int;
        assert(groups[k1].notes@[m1].deep_view() == notes[a].deep_view());
        assert(groups[k2].notes@[m2].deep_view() == notes[b].deep_view());
        assert(a != b);
        if a < b {
            assert(notes[a].slug@ != notes[b].slug@);
        } else {
            assert(notes[b].slug@ != notes[a].slug@);
        }
    }
}

/// Asking for a note's thread finds one whenever a note has that slug, and
/// what is found holds the note.
pub proof fn lemma_thread_of_note_found(notes: Seq<Note>, groups: Seq<NoteGroup>, slug: Seq<char>)
    requires
        is_thread_list(notes, groups),
    ensures
        (exists|i: int| 0 <= i < notes.len() && #[trigger] notes[i].slug@ == slug)
            ==> first_group_with_slug(groups, slug) is Some,
        first_group_with_slug(groups, slug) matches Some(k) ==> 0 <= k < groups.len()
            && group_has_slug(groups[k], slug),
{
    let positions = choose|positions: Seq<Seq<usize>>| #[trigger] is_thread_grouping(notes, positions)
        && holds_groups(notes, positions, groups);
    lemma_first_group_with_slug(groups, slug, 0);
    lemma_first_group_has_slug(groups, slug, 0);
    if exists|i: int| 0 <= i < notes.len() && #[trigger] notes[i].slug@ == slug {
        let i = choose|i: int| 0 <= i < notes.len() && #[trigger] notes[i].slug@ == slug;
        assert(listed_in(positions, i));
        let (k, m) = choose|k: int, m: int| 0 <= k < positions.len() && 0 <= m < positions[k].len()
            && #[trigger] positions[k][m] == i;
        assert(groups[k].notes@[m].deep_view() == notes[positions[k][m] as int].deep_view());
        assert(groups[k].notes@[m].slug@ == slug);
        assert(group_has_slug(groups[k], slug));
        if first_group_with_slug(groups, slug) is None {
            lemma_none_means_no_slug(groups, slug, 0);
        }
    }
}

proof fn lemma_first_group_has_slug(groups: Seq<NoteGroup>, slug: Seq<char>, start: int)
    requires
        0 <= start <= groups.len(),
    ensures
        first_group_with_slug_from(groups, slug, start) matches Some(k) ==> group_has_slug(groups[k], slug),
    decreases groups.len() - start,
{
    if start < groups.len() && !group_has_slug(groups[start], slug) {
        lemma_first_group_has_slug(groups, slug, start + 1);
    }
}

proof fn lemma_none_means_no_slug(groups: Seq<NoteGroup>, slug: Seq<char>, start: int)
    requires
        0 <= start <= groups.len(),
        first_group_with_slug_from(groups, slug, start) is None,
    ensures
        forall|j: int| start <= j < groups.len() ==> !group_has_slug(#[trigger] groups[j], slug),
    decreases groups.len() - start,
{
    if start < groups.len() {
        lemma_none_means_no_slug(groups, slug, start + 1);
    }
}

/// The slug of a group's last note.
fn group_cursor(group: &NoteGroup) -> (r: Option<String>)
    ensures
        r.deep_view() == thread_cursor(*group),
{
    let n: usize = group.notes.len();
    if n > 0 {
        Some(group.notes[n - 1].slug.duplicate())
    } else {
        None
    }
}

/// Does the group hold a note with this slug?
fn group_contains_slug(group: &NoteGroup, slug: &String) -> (r: bool)
    ensures
        r == group_has_slug(*group, slug@),
{
    let mut i: usize = 0;
    while i < group.notes.len()
        invariant
            i <= group.notes@.len(),
            forall|m: int| 0 <= m < i ==> #[trigger] group.notes@[m].slug@ != slug@,
        decreases group.notes.len() - i,
    {
        if group.notes[i].slug == *slug {
            return true;
        }
        i += 1;
    }
    false
}

/// The first group that holds a note with this slug.
fn find_group(groups: &Vec<NoteGroup>, slug: &String) -> (r: Option<usize>)
    ensures
        r matches Some(k) ==> first_group_with_slug(groups@, slug@) == Some(k as int) && k < groups@.len(),
        r is None ==> first_group_with_slug(groups@, slug@) is None,
{
    let mut k: usize = 0;
    while k < groups.len()
        invariant
            k <= groups@.len(),
            first_group_with_slug(groups@, slug@) == first_group_with_slug_from(groups@, slug@, k as int),
        decreases groups.len() - k,
    {
        if group_contains_slug(&groups[k], slug) {
            return Some(k);
        }
        k += 1;
    }
    None
}

/// The notes of the content directory.
#[derive(Debug)]
pub struct NoteIndex {
    notes: Vec<Note>,
    instants: Vec<Instant>,
}

impl Clone for NoteIndex {
    /// A copy of the index: the same notes, in the same order.
    fn clone(&self) -> (r: Self)
        ensures
            r@.len() == self@.len(),
            forall|k: int| 0 <= k < self@.len() ==> #[trigger] r@[k].deep_view() == self@[k].deep_view(),
    {
        self.duplicate()
    }
}

impl View for NoteIndex {
    type V = Seq<Note>;

    closed spec fn view(&self) -> Seq<Note> {
        self.notes@
    }
}

impl NoteIndex {
    /// Every held note has a valid date, and its moment is kept beside it.
    #[verifier::type_invariant]
    closed spec fn dated(self) -> bool {
        &&& self.notes@.len() == self.instants@.len()
        &&& forall|i: int| 0 <= i < self.notes@.len() ==> rfc3339_instant(#[trigger] self.notes@[i].front_matter.date@) == Some(self.instants@[i])
    }

    /// Loads the notes of the notes directory `notes_dir` from its markdown
    /// files in listing order, each with its document or why it could not
    /// be read. A missing directory holds no notes; another unreadable
    /// directory fails, and so does the first file that makes no note;
    /// otherwise the index holds the notes, newest first.
    pub fn load(
        notes_dir: String,
        listing: Result<Vec<ContentFile<NoteFrontMatter>>, IoFailure>,
    ) -> (r: Result<Self, NoteLoadError>)
        ensures
            listing matches Err(source) ==> if source.not_found {
                r matches Ok(index) && index@.len() == 0
            } else {
                r == Err::<Self, NoteLoadError>(NoteLoadError::ReadDirectory { path: notes_dir, source })
            },
            listing matches Ok(files) ==> forall|k: int|
                0 <= k < files@.len() && (forall|j: int| 0 <= j < k ==> #[trigger] note_file_failure(files@[j]) is None)
                    ==> (#[trigger] note_file_failure(files@[k]) matches Some(e) ==> r == Err::<Self, NoteLoadError>(e)),
            listing matches Ok(files) ==> (forall|k: int| 0 <= k < files@.len() ==> #[trigger] note_file_failure(files@[k]) is None)
                ==> (r matches Ok(index) && notes_loaded_from(files@, index@)),
    {
        let files = match listing {
            Ok(files) => files,
            Err(source) => {
                if source.not_found {
                    return Ok(NoteIndex { notes: Vec::new(), instants: Vec::new() });
                }
                return Err(NoteLoadError::ReadDirectory { path: notes_dir, source });
            },
        };
        let ghost all = files@;
        let mut notes: Vec<Note> = Vec::new();
        let mut instants: Vec<Instant> = Vec::new();
        for file in it: files
            invariant
                it.seq() == all,
                listing matches Ok(listed) && listed@ == all,
                notes@.len() == it.index(),
                instants@.len() == it.index(),
                forall|j: int| 0 <= j < it.index() ==> #[trigger] note_file_failure(all[j]) is None,
                forall|j: int| 0 <= j < it.index() ==> #[trigger] is_note_of(all[j], notes@[j]),
                forall|j: int| 0 <= j < it.index() ==> #[trigger] instants@[j] == note_instant(notes@[j]),
        {
            let moment = read_file_moment(&file);
            assert(note_file_failure(file) == note_file_failure_with(file, moment is Some));
            match note_from_file(file, moment) {
                Ok((note, instant)) => {
                    instants.push(instant);
                    notes.push(note);
                },
                Err(e) => {
                    return Err(e);
                },
            }
        }
        let order = stable_order(&instants, true);
        let ghost made = notes@;
        let ghost keys = note_instants(made);
        assert(instants@ == keys);
        let ghost kept_instants = instants@;
        let sorted = permute(notes, &order);
        let sorted_instants = permute(instants, &order);
        assert forall|k: int| 0 <= k < sorted@.len() implies rfc3339_instant(#[trigger] sorted@[k].front_matter.date@) == Some(sorted_instants@[k]) by {
            assert(is_note_of(all[order@[k] as int], made[order@[k] as int]));
        }
        let index = NoteIndex { notes: sorted, instants: sorted_instants };
        assert(is_stable_sort(made, keys, true, index@));
        Ok(index)
    }

    /// A copy of the index.
    pub fn duplicate(&self) -> (r: Self)
        ensures
            r@.len() == self@.len(),
            forall|k: int| 0 <= k < self@.len() ==> #[trigger] r@[k].deep_view() == self@[k].deep_view(),
    {
        proof {
            use_type_invariant(self);
        }
        let notes = self.notes.duplicate();
        let mut instants: Vec<Instant> = Vec::new();
        let mut i: usize = 0;
        while i < self.instants.len()
            invariant
                i <= self.instants@.len(),
                instants@ == self.instants@.take(i as int),
            decreases self.instants.len() - i,
        {
            instants.push(self.instants[i]);
            i += 1;
            assert(instants@ == self.instants@.take(i as int));
        }
        assert(self.instants@.take(self.instants@.len() as int) == self.instants@);
        assert(notes.deep_view().len() == notes@.len());
        assert(self.notes.deep_view().len() == self.notes@.len());
        assert forall|k: int| 0 <= k < notes@.len() implies rfc3339_instant(#[trigger] notes@[k].front_matter.date@) == Some(instants@[k]) by {
            assert(notes.deep_view()[k] == self.notes.deep_view()[k]);
            assert(notes@[k].deep_view() == self.notes@[k].deep_view());
        }
        assert forall|k: int| 0 <= k < self.notes@.len() implies #[trigger] notes@[k].deep_view() == self.notes@[k].deep_view() by {
            assert(notes.deep_view()[k] == self.notes.deep_view()[k]);
        }
        NoteIndex { notes, instants }
    }

    /// The positions of the notes gathered into threads.
    fn thread_positions(&self) -> (r: Vec<Vec<usize>>)
        ensures
            is_thread_grouping(self@, r@.map_values(|v: Vec<usize>| v@)),
    {
        proof {
            use_type_invariant(self);
        }
        let ghost notes = self.notes@;
        let ghost moments = note_instants(notes);
        assert(self.instants@ == moments);
        let (keys, members) = gather_threads(&self.notes);
        let ghost key_view = keys@.map_values(|s: String| s@);
        let ghost gathered = members@.map_values(|v: Vec<usize>| v@);
        let mut ordered: Vec<Vec<usize>> = Vec::new();
        let mut latest: Vec<Instant> = Vec::new();
        let mut k: usize = 0;
        while k < members.len()
            invariant
                self.instants@ == moments,
                notes == self.notes@,
                moments.len() == notes.len(),
                members@.len() == gathered.len(),
                forall|q: int| 0 <= q < members@.len() ==> #[trigger] members@[q]@ == gathered[q],
                is_gathering(notes, key_view, gathered, notes.len() as int),
                k <= members@.len(),
                ordered@.len() == k,
                latest@.len() == k,
                forall|q: int| 0 <= q < k ==> (#[trigger] ordered@[q])@.len() == gathered[q].len(),
                forall|q: int, x: int| 0 <= q < k && 0 <= x < ordered@[q]@.len() ==> gathered[q].contains(#[trigger] ordered@[q]@[x]),
                forall|q: int, m: int| 0 <= q < k && 0 <= m < gathered[q].len() ==> ordered@[q]@.contains(#[trigger] gathered[q][m]),
                forall|q: int, a: int, b: int| 0 <= q < k && 0 <= a < b < ordered@[q]@.len() ==> #[trigger] ordered@[q]@[a] != #[trigger] ordered@[q]@[b],
                forall|q: int, a: int, b: int| 0 <= q < k && 0 <= a < b < ordered@[q]@.len()
                    ==> #[trigger] comes_before(moments, false, ordered@[q]@[a] as int, ordered@[q]@[b] as int),
                forall|q: int| 0 <= q < k ==> #[trigger] latest@[q] == moments[ordered@[q]@.last() as int],
            decreases members.len() - k,
        {
            assert(gathered[k as int].len() > 0);
            proof {
                assert forall|m: int| 0 <= m < members@[k as int]@.len() implies #[trigger] members@[k as int]@[m] < self.instants@.len() by {
                    assert(gathered[k as int][m] < notes.len());
                }
                assert forall|a: int, b: int| 0 <= a < b < members@[k as int]@.len() implies #[trigger] members@[k as int]@[a] < #[trigger] members@[k as int]@[b] by {
                    assert(gathered[k as int][a] < gathered[k as int][b]);
                }
            }
            let thread = order_thread(&members[k], &self.instants);
            latest.push(self.instants[thread[thread.len() - 1]]);
            ordered.push(thread);
            k += 1;
        }
        let order = stable_order(&latest, true);
        let ghost threads = ordered@;
        let result = permute(ordered, &order);
        let ghost groups = result@.map_values(|v: Vec<usize>| v@);
        proof {
            assert forall|q: int| 0 <= q < groups.len() implies groups[q] == threads[order@[q] as int]@ by {}
            assert forall|k: int| 0 <= k < groups.len() implies #[trigger] groups[k].len() > 0 by {
                assert(gathered[order@[k] as int].len() > 0);
            }
            assert forall|k: int, m: int| 0 <= k < groups.len() && 0 <= m < groups[k].len() implies #[trigger] groups[k][m] < notes.len() by {
                let g = order@[k] as int;
                assert(gathered[g].contains(groups[k][m]));
            }
            assert forall|k: int, m: int| 0 <= k < groups.len() && 0 <= m < groups[k].len()
                implies root_source_id(notes, #[trigger] groups[k][m] as int) == key_view[order@[k] as int] by {
                let g = order@[k] as int;
                assert(gathered[g].contains(groups[k][m]));
            }
            assert forall|k: int, m: int| 0 <= k < groups.len() && 0 <= m < groups[k].len()
                implies root_source_id(notes, #[trigger] groups[k][m] as int) == root_source_id(notes, groups[k][0] as int) by {
                assert(root_source_id(notes, groups[k][0] as int) == key_view[order@[k] as int]);
                assert(root_source_id(notes, groups[k][m] as int) == key_view[order@[k] as int]);
            }
            assert forall|k1: int, k2: int| 0 <= k1 < k2 < groups.len()
                implies root_source_id(notes, #[trigger] groups[k1][0] as int) != root_source_id(notes, #[trigger] groups[k2][0] as int) by {
                assert(root_source_id(notes, groups[k1][0] as int) == key_view[order@[k1] as int]);
                assert(root_source_id(notes, groups[k2][0] as int) == key_view[order@[k2] as int]);
                assert(order@[k1] != order@[k2]);
            }
            assert forall|j: int| 0 <= j < notes.len() implies #[trigger] listed_in(groups, j) by {
                assert(listed_in(gathered, j));
                let (g, m) = choose|g: int, m: int| 0 <= g < gathered.len() && 0 <= m < gathered[g].len() && #[trigger] gathered[g][m] == j;
                assert(order@.contains(g as usize));
                let k = choose|k: int| 0 <= k < order@.len() && order@[k] == g as usize;
                assert(threads[g]@.contains(gathered[g][m]));
                let x = choose|x: int| 0 <= x < threads[g]@.len() && threads[g]@[x] == gathered[g][m];
                assert(groups[k][x] == j);
            }
            assert forall|k1: int, m1: int, k2: int, m2: int|
                0 <= k1 < groups.len() && 0 <= k2 < groups.len() && 0 <= m1 < groups[k1].len() && 0 <= m2 < groups[k2].len()
                    && #[trigger] groups[k1][m1] == #[trigger] groups[k2][m2] implies k1 == k2 && m1 == m2 by {
                let (g1, g2) = (order@[k1] as int, order@[k2] as int);
                assert(root_source_id(notes, groups[k1][m1] as int) == key_view[g1]);
                assert(root_source_id(notes, groups[k2][m2] as int) == key_view[g2]);
                if g1 != g2 {
                    if g1 < g2 {
                        assert(key_view[g1] != key_view[g2]);
                    } else {
                        assert(key_view[g2] != key_view[g1]);
                    }
                }
                assert(g1 == g2);
                if k1 != k2 {
                    if k1 < k2 {
                        assert(order@[k1] != order@[k2]);
                    } else {
                        assert(order@[k2] != order@[k1]);
                    }
                }
                if m1 != m2 {
                    if m1 < m2 {
                        assert(threads[g1]@[m1] != threads[g1]@[m2]);
                    } else {
                        assert(threads[g1]@[m2] != threads[g1]@[m1]);
                    }
                }
            }
            assert forall|k: int, a: int, b: int| 0 <= k < groups.len() && 0 <= a < b < groups[k].len()
                implies #[trigger] comes_before(moments, false, groups[k][a] as int, groups[k][b] as int) by {
                let g = order@[k] as int;
                assert(comes_before(moments, false, threads[g]@[a] as int, threads[g]@[b] as int));
            }
            assert forall|k1: int, k2: int| 0 <= k1 < k2 < groups.len()
                implies !crate::order::instant_lt(moments[#[trigger] groups[k1].last() as int], moments[#[trigger] groups[k2].last() as int]) by {
                assert(comes_before(latest@, true, order@[k1] as int, order@[k2] as int));
            }
        }
        result
    }

    /// The notes gathered into reply threads: each thread's notes oldest
    /// first, the threads from the latest latest note to the earliest.
    pub fn note_groups(&self) -> (r: Vec<NoteGroup>)
        ensures
            is_thread_list(self@, r@),
    {
        let positions = self.thread_positions();
        let ghost position_view = positions@.map_values(|v: Vec<usize>| v@);
        let mut groups: Vec<NoteGroup> = Vec::new();
        let mut k: usize = 0;
        while k < positions.len()
            invariant
                k <= positions@.len(),
                position_view == positions@.map_values(|v: Vec<usize>| v@),
                is_thread_grouping(self@, position_view),
                groups@.len() == k,
                forall|q: int| 0 <= q < k ==> (#[trigger] groups@[q]).notes@.len() == position_view[q].len(),
                forall|q: int, m: int| 0 <= q < k && 0 <= m < position_view[q].len()
                    ==> (#[trigger] groups@[q].notes@[m]).deep_view() == self@[position_view[q][m] as int].deep_view(),
            decreases positions.len() - k,
        {
            let members = &positions[k];
            let mut notes: Vec<Note> = Vec::new();
            let mut m: usize = 0;
            while m < members.len()
                invariant
                    members@ == position_view[k as int],
                    is_thread_grouping(self@, position_view),
                    k < position_view.len(),
                    m <= members@.len(),
                    notes@.len() == m,
                    forall|x: int| 0 <= x < m ==> (#[trigger] notes@[x]).deep_view() == self@[members@[x] as int].deep_view(),
                decreases members.len() - m,
            {
                assert(position_view[k as int][m as int] < self@.len());
                notes.push(self.notes[members[m]].duplicate());
                m += 1;
            }
            groups.push(NoteGroup { notes });
            k += 1;
        }
        assert(holds_groups(self@, position_view, groups@));
        groups
    }

    /// The thread that holds the note with this slug: the first of the
    /// threads (as `note_groups` orders them) with a note of that slug.
    pub fn note_group(&self, slug: &str) -> (r: Option<NoteGroup>)
        ensures
            exists|groups: Seq<NoteGroup>| #[trigger] is_thread_list(self@, groups)
                && r == match first_group_with_slug(groups, slug@) {
                    Some(k) => Some(groups[k]),
                    None => None,
                },
    {
        let mut groups = self.note_groups();
        let wanted = slug.to_string();
        let ghost all = groups@;
        match find_group(&groups, &wanted) {
            Some(k) => {
                let mut tail = groups.split_off(k);
                let group = tail.swap_remove(0);
                assert(is_thread_list(self@, all));
                Some(group)
            },
            None => {
                assert(is_thread_list(self@, all));
                None
            },
        }
    }

    /// A page of threads after the thread that holds the note `after` (from
    /// the first thread without a cursor or when no note has that slug),
    /// with at most `limit` threads, kept between 1 and 100.
    pub fn note_page(&self, after: Option<&str>, limit: usize) -> (r: NotePage)
        ensures
            exists|groups: Seq<NoteGroup>| #[trigger] is_thread_list(self@, groups)
                && is_note_page(groups, match after {
                    Some(cursor) => Some(cursor@),
                    None => None,
                }, limit, r),
    {
        let mut groups = self.note_groups();
        let ghost all = groups@;
        let ghost cursor_view = match after {
            Some(cursor) => Some(cursor@),
            None => None,
        };
        let size: usize = if limit < 1 {
            1
        } else if limit > 100 {
            100
        } else {
            limit
        };
        let count: usize = groups.len();
        let start: usize = match after {
            Some(cursor) => match find_group(&groups, &cursor.to_string()) {
                Some(k) => {
                    assert(k < count);
                    k + 1
                },
                None => 0,
            },
            None => 0,
        };
        proof {
            if let Some(cursor) = after {
                lemma_first_group_with_slug(all, cursor@, 0);
            }
        }
        assert(start == page_start(all, cursor_view));
        let next_cursor = if start < count && size < count - start {
            group_cursor(&groups[start + size - 1])
        } else {
            None
        };
        let previous_start: usize = if start > size { start - size } else { 0 };
        let previous_cursor = if start == 0 {
            None
        } else if previous_start == 0 {
            Some(String::new())
        } else {
            group_cursor(&groups[previous_start - 1])
        };
        let mut items = groups.split_off(start);
        items.truncate(size);
        assert(items@ =~= all.subrange(start as int, if start + size < all.len() { start + size } else { all.len() as int }));
        let page = NotePage { items, next_cursor, previous_cursor };
        assert(is_thread_list(self@, all));
        page
    }

    /// All notes, newest first, without their bodies.
    pub fn notes(&self) -> (r: Vec<NoteSummary>)
        ensures
            r@.len() == self@.len(),
            forall|k: int| 0 <= k < r@.len() ==> {
                &&& #[trigger] r@[k].front_matter.deep_view() == self@[k].front_matter.deep_view()
                &&& r@[k].slug@ == self@[k].slug@
            },
    {
        let mut r: Vec<NoteSummary> = Vec::new();
        let mut i: usize = 0;
        while i < self.notes.len()
            invariant
                i <= self.notes@.len(),
                r@.len() == i,
                forall|k: int| 0 <= k < i ==> {
                    &&& #[trigger] r@[k].front_matter.deep_view() == self.notes@[k].front_matter.deep_view()
                    &&& r@[k].slug@ == self.notes@[k].slug@
                },
            decreases self.notes.len() - i,
        {
            let note = &self.notes[i];
            r.push(NoteSummary { front_matter: note.front_matter.duplicate(), slug: note.slug.duplicate() });
            i += 1;
        }
        r
    }

    /// The first note with the given slug.
    pub fn note(&self, slug: &str) -> (r: Option<Note>)
        ensures
            r is None <==> forall|i: int| 0 <= i < self@.len() ==> #[trigger] self@[i].slug@ != slug@,
            r matches Some(note) ==> exists|i: int|
                0 <= i < self@.len() && #[trigger] self@[i].slug@ == slug@
                && (forall|j: int| 0 <= j < i ==> #[trigger] self@[j].slug@ != slug@)
                && note.deep_view() == self@[i].deep_view(),
    {
        let wanted = slug.to_string();
        let mut i: usize = 0;
        while i < self.notes.len()
            invariant
                i <= self.notes@.len(),
                wanted@ == slug@,
                forall|j: int| 0 <= j < i ==> #[trigger] self.notes@[j].slug@ != slug@,
            decreases self.notes.len() - i,
        {
            if self.notes[i].slug == wanted {
                assert(self@[i as int].slug@ == slug@);
                return Some(self.notes[i].duplicate());
            }
            i += 1;
        }
        None
    }
}

} // verus!
