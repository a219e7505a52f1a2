//! "Now" entries: what the author is doing at a given time.

use vstd::prelude::*;
use crate::content::markdown::{stem_of, ContentFile, Document, FrontMatter, IoFailure, file_stem};
use crate::duplicate::{permute, Duplicate};
use crate::order::{comes_before, is_stable_order, is_stable_sort, stable_order};
use crate::time::{is_ymd_date, ymd_date_accepted};

verus! {

/// The front matter of a "now" entry.
#[derive(Debug, Clone)]
pub struct NowFrontMatter {
    pub date: String,
    pub title: String,
}

/// A "now" entry.
#[derive(Debug, Clone)]
pub struct NowEntry {
    pub front_matter: NowFrontMatter,
    pub slug: String,
    pub body: String,
}

impl DeepView for NowEntry {
    type V = (Seq<char>, Seq<char>, Seq<char>, Seq<char>);

    open spec fn deep_view(&self) -> Self::V {
        (self.front_matter.date@, self.front_matter.title@, self.slug@, self.body@)
    }
}

impl Duplicate for NowEntry {
    fn duplicate(&self) -> (r: Self) {
        NowEntry {
            front_matter: NowFrontMatter {
                date: self.front_matter.date.duplicate(),
                title: self.front_matter.title.duplicate(),
            },
            slug: self.slug.duplicate(),
            body: self.body.duplicate(),
        }
    }
}

/// Why loading "now" entries failed.
#[derive(Debug)]
pub enum NowLoadError {
    ReadDirectory { path: String, source: IoFailure },
    ReadFile { path: String, source: IoFailure },
    MissingFrontMatter { path: String },
    InvalidFrontMatter { path: String, message: String },
    InvalidDate { path: String, date: String },
    MissingFileStem { path: String },
}

impl NowLoadError {
    /// The error's text, as its `Display` shows it.
    pub fn message(&self) -> (r: String)
        ensures
            r@ == match self {
                NowLoadError::ReadDirectory { path, source } => "unable to read now directory "@
                    + path@ + ": "@ + source.message@,
                NowLoadError::ReadFile { path, source } => "unable to read now entry "@ + path@
                    + ": "@ + source.message@,
                NowLoadError::MissingFrontMatter { path } => "missing front matter in "@ + path@,
                NowLoadError::InvalidFrontMatter { path, message } => "invalid front matter in "@
                    + path@ + ": "@ + message@,
                NowLoadError::InvalidDate { path, date } => "invalid date '"@ + date@ + "' in "@
                    + path@,
                NowLoadError::MissingFileStem { path } => "missing file stem for "@ + path@,
            },
    {
        match self {
            NowLoadError::ReadDirectory { path, source } => {
                let mut r = "unable to read now directory ".to_string();
                r.append(path.as_str());
                r.append(": ");
                r.append(source.message.as_str());
                r
            },
            NowLoadError::ReadFile { path, source } => {
                let mut r = "unable to read now entry ".to_string();
                r.append(path.as_str());
                r.append(": ");
                r.append(source.message.as_str());
                r
            },
            NowLoadError::MissingFrontMatter { path } => {
                let mut r = "missing front matter in ".to_string();
                r.append(path.as_str());
                r
            },
            NowLoadError::InvalidFrontMatter { path, message } => {
                let mut r = "invalid front matter in ".to_string();
                r.append(path.as_str());
                r.append(": ");
                r.append(message.as_str());
                r
            },
            NowLoadError::InvalidDate { path, date } => {
                let mut r = "invalid date '".to_string();
                r.append(date.as_str());
                r.append("' in ");
                r.append(path.as_str());
                r
            },
            NowLoadError::MissingFileStem { path } => {
                let mut r = "missing file stem for ".to_string();
                r.append(path.as_str());
                r
            },
        }
    }
}

/// Why a markdown file does not make a "now" entry, if it does not, where
/// `date_ok` tells whether its date is a valid `YYYY-MM-DD` date.
pub open spec fn now_file_failure_with(file: ContentFile<NowFrontMatter>, date_ok: bool) -> Option<NowLoadError> {
    match file.contents {
        Err(source) => Some(NowLoadError::ReadFile { path: file.path, source }),
        Ok(document) => match document.front_matter {
            FrontMatter::Missing => Some(NowLoadError::MissingFrontMatter { path: file.path }),
            FrontMatter::Invalid(message) => Some(
                NowLoadError::InvalidFrontMatter { path: file.path, message },
            ),
            FrontMatter::Parsed(front_matter) => if !date_ok {
                Some(NowLoadError::InvalidDate { path: file.path, date: front_matter.date })
            } else if stem_of(file.file_name@) is None {
                Some(NowLoadError::MissingFileStem { path: file.path })
            } else {
                None
            },
        },
    }
}

/// Does chrono accept the date of the file's front matter, where it has one?
pub open spec fn now_date_accepted(file: ContentFile<NowFrontMatter>) -> bool {
    match file.contents {
        Ok(document) => match document.front_matter {
            FrontMatter::Parsed(front_matter) => ymd_date_accepted(front_matter.date@),
            _ => true,
        },
        Err(_) => true,
    }
}

/// Why a markdown file does not make a "now" entry, if it does not.
pub open spec fn now_file_failure(file: ContentFile<NowFrontMatter>) -> Option<NowLoadError> {
    now_file_failure_with(file, now_date_accepted(file))
}

/// Checks the date of a file's front matter, where it has one.
fn check_now_date(file: &ContentFile<NowFrontMatter>) -> (r: bool)
    ensures
        r == now_date_accepted(*file),
{
    match &file.contents {
        Ok(document) => match &document.front_matter {
            FrontMatter::Parsed(front_matter) => is_ymd_date(front_matter.date.as_str()),
            _ => true,
        },
        Err(_) => true,
    }
}

/// `entry` is the entry that the markdown file `file` makes: its front
/// matter and body, with the file's stem as slug.
pub open spec fn is_entry_of(file: ContentFile<NowFrontMatter>, entry: NowEntry) -> bool {
    &&& file.contents matches Ok(document)
    &&& document.front_matter == FrontMatter::Parsed(entry.front_matter)
    &&& document.body == entry.body
    &&& stem_of(file.file_name@) == Some(entry.slug@)
}

/// The dates of the entries, in order.
pub open spec fn entry_dates(entries: Seq<NowEntry>) -> Seq<String> {
    entries.map_values(|e: NowEntry| e.front_matter.date)
}

/// `entries` are the entries that `files` make, newest first by their date
/// text; entries with the same date keep the order of their files.
pub open spec fn entries_loaded_from(files: Seq<ContentFile<NowFrontMatter>>, entries: Seq<NowEntry>) -> bool {
    exists|made: Seq<NowEntry>|
        #![trigger is_stable_sort(made, entry_dates(made), true, entries)]
        {
            &&& made.len() == files.len()
            &&& forall|k: int| 0 <= k < files.len() ==> #[trigger] is_entry_of(files[k], made[k])
            &&& is_stable_sort(made, entry_dates(made), true, entries)
        }
}

/// The entry that a markdown file makes, or why it makes none, where
/// `date_ok` tells whether its date is a valid `YYYY-MM-DD` date.
pub fn entry_from_file(file: ContentFile<NowFrontMatter>, date_ok: bool) -> (r: Result<NowEntry, NowLoadError>)
    ensures
        now_file_failure_with(file, date_ok) matches Some(e) ==> r == Err::<NowEntry, NowLoadError>(e),
        now_file_failure_with(file, date_ok) is None ==> (r matches Ok(entry) && is_entry_of(file, entry)),
{
    let ContentFile { path, file_name, contents } = file;
    let Document { front_matter, body } = match contents {
        Ok(document) => document,
        Err(source) => return Err(NowLoadError::ReadFile { path, source }),
    };
    let front_matter = match front_matter {
        FrontMatter::Parsed(front_matter) => front_matter,
        FrontMatter::Missing => return Err(NowLoadError::MissingFrontMatter { path }),
        FrontMatter::Invalid(message) => return Err(NowLoadError::InvalidFrontMatter { path, message }),
    };
    if !date_ok {
        return Err(NowLoadError::InvalidDate { path, date: front_matter.date });
    }
    match file_stem(file_name.as_str()) {
        Some(slug) => Ok(NowEntry { front_matter, slug, body }),
        None => Err(NowLoadError::MissingFileStem { path }),
    }
}

/// The "now" entries of the content directory.
#[derive(Clone, Debug)]
pub struct NowIndex {
    entries: Vec<NowEntry>,
}

impl View for NowIndex {
    type V = Seq<NowEntry>;

    closed spec fn view(&self) -> Seq<NowEntry> {
        self.entries@
    }
}

impl NowIndex {
    /// Loads the entries of the "now" directory `now_dir` from its markdown
    /// files in file name order (as `markdown_files` lists them, a missing
    /// directory listing as empty), each with its document or why it could
    /// not be read. Fails on an unreadable directory, or on the first file
    /// that makes no entry; otherwise holds the entries, newest first.
    pub fn load(
        now_dir: String,
        listing: Result<Vec<ContentFile<NowFrontMatter>>, IoFailure>,
    ) -> (r: Result<Self, NowLoadError>)
        ensures
            listing matches Err(source) ==> r == Err::<Self, NowLoadError>(
                NowLoadError::ReadDirectory { path: now_dir, source },
            ),
            listing matches Ok(files) ==> forall|k: int|
                0 <= k < files@.len() && (forall|j: int| 0 <= j < k ==> #[trigger] now_file_failure(files@[j]) is None)
                    ==> (#[trigger] now_file_failure(files@[k]) matches Some(e) ==> r == Err::<Self, NowLoadError>(e)),
            listing matches Ok(files) ==> (forall|k: int| 0 <= k < files@.len() ==> #[trigger] now_file_failure(files@[k]) is None)
                ==> (r matches Ok(index) && entries_loaded_from(files@, index@)),
    {
        let files = match listing {
            Ok(files) => files,
            Err(source) => return Err(NowLoadError::ReadDirectory { path: now_dir, source }),
        };
        let ghost all = files@;
        let mut entries: Vec<NowEntry> = Vec::new();
        let mut dates: Vec<String> = Vec::new();
        for file in it: files
            invariant
                it.seq() == all,
                listing matches Ok(listed) && listed@ == all,
                entries@.len() == it.index(),
                dates@.len() == it.index(),
                forall|j: int| 0 <= j < it.index() ==> #[trigger] now_file_failure(all[j]) is None,
                forall|j: int| 0 <= j < it.index() ==> #[trigger] is_entry_of(all[j], entries@[j]),
                forall|j: int| 0 <= j < it.index() ==> #[trigger] dates@[j]@ == entries@[j].front_matter.date@,
        {
            let date_ok = check_now_date(&file);
            assert(now_file_failure(file) == now_file_failure_with(file, date_ok));
            match entry_from_file(file, date_ok) {
                Ok(entry) => {
                    dates.push(entry.front_matter.date.duplicate());
                    entries.push(entry);
                },
                Err(e) => {
                    return Err(e);
                },
            }
        }
        let order = stable_order(&dates, true);
        let ghost made = entries@;
        let ghost keys = entry_dates(made);
        assert(is_stable_order(keys, true, order@)) by {
            assert forall|a: int, b: int| 0 <= a < b < order@.len() implies #[trigger] comes_before(keys, true, order@[a] as int, order@[b] as int) by {
                assert(comes_before(dates@, true, order@[a] as int, order@[b] as int));
            }
        }
        let sorted = permute(entries, &order);
        let index = NowIndex { entries: sorted };
        assert(is_stable_sort(made, keys, true, index@));
        Ok(index)
    }

    /// All entries, newest first.
    pub fn entries(&self) -> (r: Vec<NowEntry>)
        ensures
            r.deep_view() == self@.map_values(|e: NowEntry| e.deep_view()),
    {
        let r = self.entries.duplicate();
        assert(r.deep_view() =~= self@.map_values(|e: NowEntry| e.deep_view()));
        r
    }

    /// The first entry with the given slug.
    pub fn entry(&self, slug: &str) -> (r: Option<NowEntry>)
        ensures
            r is None <==> forall|i: int| 0 <= i < self@.len() ==> #[trigger] self@[i].slug@ != slug@,
            r matches Some(entry) ==> exists|i: int|
                0 <= i < self@.len() && #[trigger] self@[i].slug@ == slug@
                && (forall|j: int| 0 <= j < i ==> #[trigger] self@[j].slug@ != slug@)
                && entry.deep_view() == self@[i].deep_view(),
    {
        let wanted = slug.to_string();
        let mut i: usize = 0;
        while i < self.entries.len()
            invariant
                i <= self.entries@.len(),
                wanted@ == slug@,
                forall|j: int| 0 <= j < i ==> #[trigger] self.entries@[j].slug@ != slug@,
            decreases self.entries.len() - i,
        {
            if self.entries[i].slug == wanted {
                assert(self@[i as int].slug@ == slug@);
                return Some(self.entries[i].duplicate());
            }
            i += 1;
        }
        None
    }
}

} // verus!
