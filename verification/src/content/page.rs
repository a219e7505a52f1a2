//! Standalone pages.

use vstd::prelude::*;
use crate::content::markdown::{stem_of, ContentFile, Document, IoFailure, file_stem};
use crate::duplicate::Duplicate;

verus! {

/// A page: its slug and its body.
#[derive(Debug, Clone)]
pub struct Page {
    pub slug: String,
    pub body: String,
}

impl DeepView for Page {
    type V = (Seq<char>, Seq<char>);

    open spec fn deep_view(&self) -> Self::V {
        (self.slug@, self.body@)
    }
}

/// Why loading pages failed.
#[derive(Debug)]
pub enum PageLoadError {
    ReadDirectory { path: String, source: IoFailure },
    ReadFile { path: String, source: IoFailure },
    MissingFileStem { path: String },
}

impl PageLoadError {
    /// The error's text, as its `Display` shows it.
    pub fn message(&self) -> (r: String)
        ensures
            r@ == match self {
                PageLoadError::ReadDirectory { path, source } => "unable to read pages directory "@
                    + path@ + ": "@ + source.message@,
                PageLoadError::ReadFile { path, source } => "unable to read page "@ + path@ + ": "@
                    + source.message@,
                PageLoadError::MissingFileStem { path } => "missing file stem for "@ + path@,
            },
    {
        match self {
            PageLoadError::ReadDirectory { path, source } => {
                let mut r = "unable to read pages directory ".to_string();
                r.append(path.as_str());
                r.append(": ");
                r.append(source.message.as_str());
                r
            },
            PageLoadError::ReadFile { path, source } => {
                let mut r = "unable to read page ".to_string();
                r.append(path.as_str());
                r.append(": ");
                r.append(source.message.as_str());
                r
            },
            PageLoadError::MissingFileStem { path } => {
                let mut r = "missing file stem for ".to_string();
                r.append(path.as_str());
                r
            },
        }
    }
}

/// Why a markdown file does not make a page, if it does not.
pub open spec fn page_file_failure(file: ContentFile<()>) -> Option<PageLoadError> {
    match file.contents {
        Err(source) => Some(PageLoadError::ReadFile { path: file.path, source }),
        Ok(document) => if stem_of(file.file_name@) is None {
            Some(PageLoadError::MissingFileStem { path: file.path })
        } else {
            None
        },
    }
}

/// `page` is the page that the markdown file `file` makes: its body, with
/// the file's stem as slug (any front matter is left out).
pub open spec fn is_page_of(file: ContentFile<()>, page: Page) -> bool {
    &&& file.contents matches Ok(document)
    &&& document.body == page.body
    &&& stem_of(file.file_name@) == Some(page.slug@)
}

/// The page that a markdown file makes, or why it makes none.
fn page_from_file(file: ContentFile<()>) -> (r: Result<Page, PageLoadError>)
    ensures
        page_file_failure(file) matches Some(e) ==> r == Err::<Page, PageLoadError>(e),
        page_file_failure(file) is None ==> (r matches Ok(page) && is_page_of(file, page)),
{
    let ContentFile { path, file_name, contents } = file;
    let Document { front_matter: _, body } = match contents {
        Ok(document) => document,
        Err(source) => return Err(PageLoadError::ReadFile { path, source }),
    };
    match file_stem(file_name.as_str()) {
        Some(slug) => Ok(Page { slug, body }),
        None => Err(PageLoadError::MissingFileStem { path }),
    }
}

/// The pages of the content directory.
#[derive(Clone, Debug)]
pub struct PageIndex {
    pages: Vec<Page>,
}

impl View for PageIndex {
    type V = Seq<Page>;

    closed spec fn view(&self) -> Seq<Page> {
        self.pages@
    }
}

impl PageIndex {
    /// Loads the pages of the pages directory `pages_dir` from its markdown
    /// files in listing order, each with its document or why it could not
    /// be read. A missing directory holds no pages; another unreadable
    /// directory fails, and so does the first file that makes no page.
    pub fn load(
        pages_dir: String,
        listing: Result<Vec<ContentFile<()>>, IoFailure>,
    ) -> (r: Result<Self, PageLoadError>)
        ensures
            listing matches Err(source) ==> if source.not_found {
                r matches Ok(index) && index@.len() == 0
            } else {
                r == Err::<Self, PageLoadError>(PageLoadError::ReadDirectory { path: pages_dir, source })
            },
            listing matches Ok(files) ==> forall|k: int|
                0 <= k < files@.len() && (forall|j: int| 0 <= j < k ==> #[trigger] page_file_failure(files@[j]) is None)
                    ==> (#[trigger] page_file_failure(files@[k]) matches Some(e) ==> r == Err::<Self, PageLoadError>(e)),
            listing matches Ok(files) ==> (forall|k: int| 0 <= k < files@.len() ==> #[trigger] page_file_failure(files@[k]) is None)
                ==> (r matches Ok(index) && index@.len() == files@.len() && forall|k: int|
                    0 <= k < files@.len() ==> #[trigger] is_page_of(files@[k], index@[k])),
    {
        let files = match listing {
            Ok(files) => files,
            Err(source) => {
                if source.not_found {
                    return Ok(PageIndex { pages: Vec::new() });
                }
                return Err(PageLoadError::ReadDirectory { path: pages_dir, source });
            },
        };
        let ghost all = files@;
        let mut pages: Vec<Page> = Vec::new();
        for file in it: files
            invariant
                it.seq() == all,
                listing matches Ok(listed) && listed@ == all,
                pages@.len() == it.index(),
                forall|j: int| 0 <= j < it.index() ==> #[trigger] page_file_failure(all[j]) is None,
                forall|j: int| 0 <= j < it.index() ==> #[trigger] is_page_of(all[j], pages@[j]),
        {
            match page_from_file(file) {
                Ok(page) => pages.push(page),
                Err(e) => {
                    return Err(e);
                },
            }
        }
        Ok(PageIndex { pages })
    }

    /// The first page with the given slug.
    pub fn page(&self, slug: &str) -> (r: Option<Page>)
        ensures
            r is None <==> forall|i: int| 0 <= i < self@.len() ==> #[trigger] self@[i].slug@ != slug@,
            r matches Some(page) ==> exists|i: int|
                0 <= i < self@.len() && #[trigger] self@[i].slug@ == slug@
                && (forall|j: int| 0 <= j < i ==> #[trigger] self@[j].slug@ != slug@)
                && page.deep_view() == self@[i].deep_view(),
    {
        let wanted = slug.to_string();
        let mut i: usize = 0;
        while i < self.pages.len()
            invariant
                i <= self.pages@.len(),
                wanted@ == slug@,
                forall|j: int| 0 <= j < i ==> #[trigger] self.pages@[j].slug@ != slug@,
            decreases self.pages.len() - i,
        {
            if self.pages[i].slug == wanted {
                assert(self@[i as int].slug@ == slug@);
                let page = &self.pages[i];
                return Some(Page { slug: page.slug.duplicate(), body: page.body.duplicate() });
            }
            i += 1;
        }
        None
    }
}

} // verus!
