//! Blog posts.

use vstd::prelude::*;
use crate::content::markdown::{stem_of, ContentFile, Document, FrontMatter, IoFailure, file_stem};
use crate::duplicate::{permute, Duplicate};
use crate::order::{comes_before, is_stable_order, is_stable_sort, stable_order};
use crate::time::{is_ymd_date, ymd_date_accepted};
use crate::text::chars_of;

verus! {

/// The front matter of a post.
#[derive(Debug, Clone)]
pub struct PostFrontMatter {
    pub date: String,
    pub title: String,
    pub subtitle: Option<String>,
    pub description: String,
    pub banner: String,
    pub last_updated: Option<String>,
    pub status: Option<String>,
    pub tags: Option<Vec<String>>,
    pub draft: Option<bool>,
}

impl DeepView for PostFrontMatter {
    type V = (
        Seq<char>,
        Seq<char>,
        Option<Seq<char>>,
        Seq<char>,
        Seq<char>,
        Option<Seq<char>>,
        Option<Seq<char>>,
        Option<Seq<Seq<char>>>,
        Option<bool>,
    );

    open spec fn deep_view(&self) -> Self::V {
        (
            self.date@,
            self.title@,
            self.subtitle.deep_view(),
            self.description@,
            self.banner@,
            self.last_updated.deep_view(),
            self.status.deep_view(),
            self.tags.deep_view(),
            self.draft,
        )
    }
}

impl Duplicate for PostFrontMatter {
    fn duplicate(&self) -> (r: Self) {
        PostFrontMatter {
            date: self.date.duplicate(),
            title: self.title.duplicate(),
            subtitle: self.subtitle.duplicate(),
            description: self.description.duplicate(),
            banner: self.banner.duplicate(),
            last_updated: self.last_updated.duplicate(),
            status: self.status.duplicate(),
            tags: self.tags.duplicate(),
            draft: self.draft.duplicate(),
        }
    }
}

/// A post without its body, as the post list shows it.
#[derive(Debug, Clone)]
pub struct PostSummary {
    pub front_matter: PostFrontMatter,
    pub slug: String,
}

/// A post.
#[derive(Debug, Clone)]
pub struct Post {
    pub front_matter: PostFrontMatter,
    pub slug: String,
    pub body: String,
}

impl DeepView for Post {
    type V = (<PostFrontMatter as DeepView>::V, Seq<char>, Seq<char>);

    open spec fn deep_view(&self) -> Self::V {
        (self.front_matter.deep_view(), self.slug@, self.body@)
    }
}

impl Duplicate for Post {
    fn duplicate(&self) -> (r: Self) {
        Post {
            front_matter: self.front_matter.duplicate(),
            slug: self.slug.duplicate(),
            body: self.body.duplicate(),
        }
    }
}

impl From<Post> for PostSummary {
    fn from(post: Post) -> (r: Self) {
        PostSummary { front_matter: post.front_matter, slug: post.slug }
    }
}

impl vstd::std_specs::convert::FromSpecImpl<Post> for PostSummary {
    open spec fn obeys_from_spec() -> bool {
        true
    }

    open spec fn from_spec(post: Post) -> Self {
        PostSummary { front_matter: post.front_matter, slug: post.slug }
    }
}

/// `summary` has the front matter and slug of `post`.
pub open spec fn summarizes(summary: PostSummary, post: Post) -> bool {
    &&& summary.front_matter.deep_view() == post.front_matter.deep_view()
    &&& summary.slug@ == post.slug@
}

/// Is the post published (not marked as a draft)?
pub open spec fn is_published(post: Post) -> bool {
    post.front_matter.draft != Some(true)
}

/// The published posts of `posts`, in order.
pub open spec fn published_posts(posts: Seq<Post>) -> Seq<Post> {
    posts.filter(|p: Post| is_published(p))
}

/// The post list holds no draft, and lists every published post.
pub proof fn lemma_post_list_excludes_drafts(posts: Seq<Post>, summaries: Seq<PostSummary>)
    requires
        summaries.len() == published_posts(posts).len(),
        forall|k: int| 0 <= k < summaries.len() ==> summarizes(#[trigger] summaries[k], published_posts(posts)[k]),
    ensures
        forall|k: int| 0 <= k < summaries.len() ==> (#[trigger] summaries[k]).front_matter.draft != Some(true),
        forall|i: int| 0 <= i < posts.len() && is_published(#[trigger] posts[i])
            ==> exists|k: int| 0 <= k < summaries.len() && (#[trigger] summaries[k]).slug@ == posts[i].slug@,
{
    let kept = published_posts(posts);
    assert forall|k: int| 0 <= k < summaries.len() implies (#[trigger] summaries[k]).front_matter.draft != Some(true) by {
        posts.lemma_filter_pred(|p: Post| is_published(p), k);
        assert(summarizes(summaries[k], kept[k]));
        match summaries[k].front_matter.draft {
            Some(d) => {
                assert(summaries[k].front_matter.draft.deep_view() == kept[k].front_matter.draft.deep_view());
            },
            None => {},
        }
    }
    assert forall|i: int| 0 <= i < posts.len() && is_published(#[trigger] posts[i])
        implies exists|k: int| 0 <= k < summaries.len() && (#[trigger] summaries[k]).slug@ == posts[i].slug@ by {
        posts.lemma_filter_contains(|p: Post| is_published(p), i);
        let k = choose|k: int| 0 <= k < kept.len() && kept[k] == posts[i];
        assert(summarizes(summaries[k], kept[k]));
    }
}

/// Why loading posts failed.
#[derive(Debug)]
pub enum PostLoadError {
    ReadDirectory { path: String, source: IoFailure },
    ReadFile { path: String, source: IoFailure },
    MissingFrontMatter { path: String },
    InvalidFrontMatter { path: String, message: String },
    InvalidDate { path: String, date: String },
    MissingFileStem { path: String },
}

impl PostLoadError {
    /// The error's text, as its `Display` shows it.
    pub fn message(&self) -> (r: String)
        ensures
            r@ == match self {
                PostLoadError::ReadDirectory { path, source } => "unable to read posts directory "@
                    + path@ + ": "@ + source.message@,
                PostLoadError::ReadFile { path, source } => "unable to read post "@ + path@ + ": "@
                    + source.message@,
                PostLoadError::MissingFrontMatter { path } => "missing front matter in "@ + path@,
                PostLoadError::InvalidFrontMatter { path, message } => "invalid front matter in "@
                    + path@ + ": "@ + message@,
                PostLoadError::InvalidDate { path, date } => "invalid date '"@ + date@ + "' in "@
                    + path@,
                PostLoadError::MissingFileStem { path } => "missing file stem for "@ + path@,
            },
    {
        match self {
            PostLoadError::ReadDirectory { path, source } => {
                let mut r = "unable to read posts directory ".to_string();
                r.append(path.as_str());
                r.append(": ");
                r.append(source.message.as_str());
                r
            },
            PostLoadError::ReadFile { path, source } => {
                let mut r = "unable to read post ".to_string();
                r.append(path.as_str());
                r.append(": ");
                r.append(source.message.as_str());
                r
            },
            PostLoadError::MissingFrontMatter { path } => {
                let mut r = "missing front matter in ".to_string();
                r.append(path.as_str());
                r
            },
            PostLoadError::InvalidFrontMatter { path, message } => {
                let mut r = "invalid front matter in ".to_string();
                r.append(path.as_str());
                r.append(": ");
                r.append(message.as_str());
                r
            },
            PostLoadError::InvalidDate { path, date } => {
                let mut r = "invalid date '".to_string();
                r.append(date.as_str());
                r.append("' in ");
                r.append(path.as_str());
                r
            },
            PostLoadError::MissingFileStem { path } => {
                let mut r = "missing file stem for ".to_string();
                r.append(path.as_str());
                r
            },
        }
    }
}

/// Why a markdown file does not make a post, if it does not, where
/// `date_ok` tells whether its date is a valid post date.
pub open spec fn post_file_failure_with(file: ContentFile<PostFrontMatter>, date_ok: bool) -> Option<PostLoadError> {
    match file.contents {
        Err(source) => Some(PostLoadError::ReadFile { path: file.path, source }),
        Ok(document) => match document.front_matter {
            FrontMatter::Missing => Some(PostLoadError::MissingFrontMatter { path: file.path }),
            FrontMatter::Invalid(message) => Some(
                PostLoadError::InvalidFrontMatter { path: file.path, message },
            ),
            FrontMatter::Parsed(front_matter) => if !date_ok {
                Some(PostLoadError::InvalidDate { path: file.path, date: front_matter.date })
            } else if stem_of(file.file_name@) is None {
                Some(PostLoadError::MissingFileStem { path: file.path })
            } else {
                None
            },
        },
    }
}

/// Is `c` an ASCII decimal digit?
pub open spec fn is_digit(c: char) -> bool {
    '0' <= c && c <= '9'
}

/// Is the text of the form `YYYY-MM-DD`: four digits, `-`, two digits,
/// `-`, two digits?
pub open spec fn ymd_shape(text: Seq<char>) -> bool {
    &&& text.len() == 10
    &&& text[4] == '-'
    &&& text[7] == '-'
    &&& forall|i: int| 0 <= i < 10 && i != 4 && i != 7 ==> is_digit(#[trigger] text[i])
}

/// Is the date a valid post date: of the form `YYYY-MM-DD`, and a calendar
/// date that chrono's `%Y-%m-%d` accepts?
pub open spec fn valid_post_date(text: Seq<char>) -> bool {
    ymd_shape(text) && ymd_date_accepted(text)
}

/// Is the date of the file's front matter a valid post date, where it has
/// one?
pub open spec fn post_date_accepted(file: ContentFile<PostFrontMatter>) -> bool {
    match file.contents {
        Ok(document) => match document.front_matter {
            FrontMatter::Parsed(front_matter) => valid_post_date(front_matter.date@),
            _ => true,
        },
        Err(_) => true,
    }
}

/// Why a markdown file does not make a post, if it does not.
pub open spec fn post_file_failure(file: ContentFile<PostFrontMatter>) -> Option<PostLoadError> {
    post_file_failure_with(file, post_date_accepted(file))
}

/// Is the text of the form `YYYY-MM-DD`?
pub fn is_ymd_shape(text: &str) -> (r: bool)
    ensures
        r == ymd_shape(text@),
{
    let s = chars_of(text);
    if s.len() != 10 || s[4] != '-' || s[7] != '-' {
        return false;
    }
    let mut i: usize = 0;
    while i < 10
        invariant
            s@ == text@,
            s@.len() == 10,
            s@[4] == '-',
            s@[7] == '-',
            i <= 10,
            forall|k: int| 0 <= k < i && k != 4 && k != 7 ==> is_digit(#[trigger] s@[k]),
        decreases 10 - i,
    {
        if i != 4 && i != 7 && !('0' <= s[i] && s[i] <= '9') {
            return false;
        }
        i += 1;
    }
    true
}

/// Is the date a valid post date?
pub fn is_valid_post_date(text: &str) -> (r: bool)
    ensures
        r == valid_post_date(text@),
{
    is_ymd_shape(text) && is_ymd_date(text)
}

/// Checks the date of a file's front matter, where it has one.
fn check_post_date(file: &ContentFile<PostFrontMatter>) -> (r: bool)
    ensures
        r == post_date_accepted(*file),
{
    match &file.contents {
        Ok(document) => match &document.front_matter {
            FrontMatter::Parsed(front_matter) => is_valid_post_date(front_matter.date.as_str()),
            _ => true,
        },
        Err(_) => true,
    }
}

/// `post` is the post that the markdown file `file` makes: its front
/// matter and body, with the file's stem as slug.
pub open spec fn is_post_of(file: ContentFile<PostFrontMatter>, post: Post) -> bool {
    &&& file.contents matches Ok(document)
    &&& document.front_matter == FrontMatter::Parsed(post.front_matter)
    &&& document.body == post.body
    &&& stem_of(file.file_name@) == Some(post.slug@)
}

/// The dates of the posts, in order.
pub open spec fn post_dates(posts: Seq<Post>) -> Seq<String> {
    posts.map_values(|p: Post| p.front_matter.date)
}

/// `posts` are the posts that `files` make, newest first by their date
/// text; posts with the same date keep the order of their files.
pub open spec fn posts_loaded_from(files: Seq<ContentFile<PostFrontMatter>>, posts: Seq<Post>) -> bool {
    exists|made: Seq<Post>|
        #![trigger is_stable_sort(made, post_dates(made), true, posts)]
        {
            &&& made.len() == files.len()
            &&& forall|k: int| 0 <= k < files.len() ==> #[trigger] is_post_of(files[k], made[k])
            &&& is_stable_sort(made, post_dates(made), true, posts)
        }
}

/// The post that a markdown file makes, or why it makes none, where
/// `date_ok` tells whether its date is a valid post date.
pub fn post_from_file(file: ContentFile<PostFrontMatter>, date_ok: bool) -> (r: Result<Post, PostLoadError>)
    ensures
        post_file_failure_with(file, date_ok) matches Some(e) ==> r == Err::<Post, PostLoadError>(e),
        post_file_failure_with(file, date_ok) is None ==> (r matches Ok(post) && is_post_of(file, post)),
{
    let ContentFile { path, file_name, contents } = file;
    let Document { front_matter, body } = match contents {
        Ok(document) => document,
        Err(source) => return Err(PostLoadError::ReadFile { path, source }),
    };
    let front_matter = match front_matter {
        FrontMatter::Parsed(front_matter) => front_matter,
        FrontMatter::Missing => return Err(PostLoadError::MissingFrontMatter { path }),
        FrontMatter::Invalid(message) => return Err(PostLoadError::InvalidFrontMatter { path, message }),
    };
    if !date_ok {
        return Err(PostLoadError::InvalidDate { path, date: front_matter.date });
    }
    match file_stem(file_name.as_str()) {
        Some(slug) => Ok(Post { front_matter, slug, body }),
        None => Err(PostLoadError::MissingFileStem { path }),
    }
}

/// The posts of the content directory.
#[derive(Clone, Debug)]
pub struct PostIndex {
    posts: Vec<Post>,
}

impl View for PostIndex {
    type V = Seq<Post>;

    closed spec fn view(&self) -> Seq<Post> {
        self.posts@
    }
}

impl PostIndex {
    /// Loads the posts from the listing of the posts directory `posts_dir`:
    /// its markdown files, each with its document or why it could not be
    /// read. Fails on an unreadable directory, or on the first file that
    /// makes no post; otherwise holds the posts, newest first.
    pub fn load(
        posts_dir: String,
        listing: Result<Vec<ContentFile<PostFrontMatter>>, IoFailure>,
    ) -> (r: Result<Self, PostLoadError>)
        ensures
            listing matches Err(source) ==> r == Err::<Self, PostLoadError>(
                PostLoadError::ReadDirectory { path: posts_dir, source },
            ),
            listing matches Ok(files) ==> forall|k: int|
                0 <= k < files@.len() && (forall|j: int| 0 <= j < k ==> #[trigger] post_file_failure(files@[j]) is None)
                    ==> (#[trigger] post_file_failure(files@[k]) matches Some(e) ==> r == Err::<Self, PostLoadError>(e)),
            listing matches Ok(files) ==> (forall|k: int| 0 <= k < files@.len() ==> #[trigger] post_file_failure(files@[k]) is None)
                ==> (r matches Ok(index) && posts_loaded_from(files@, index@)),
    {
        let files = match listing {
            Ok(files) => files,
            Err(source) => return Err(PostLoadError::ReadDirectory { path: posts_dir, source }),
        };
        let ghost all = files@;
        let mut posts: Vec<Post> = Vec::new();
        let mut dates: Vec<String> = Vec::new();
        for file in it: files
            invariant
                it.seq() == all,
                listing matches Ok(listed) && listed@ == all,
                posts@.len() == it.index(),
                dates@.len() == it.index(),
                forall|j: int| 0 <= j < it.index() ==> #[trigger] post_file_failure(all[j]) is None,
                forall|j: int| 0 <= j < it.index() ==> #[trigger] is_post_of(all[j], posts@[j]),
                forall|j: int| 0 <= j < it.index() ==> #[trigger] dates@[j]@ == posts@[j].front_matter.date@,
        {
            let date_ok = check_post_date(&file);
            assert(post_file_failure(file) == post_file_failure_with(file, date_ok));
            match post_from_file(file, date_ok) {
                Ok(post) => {
                    dates.push(post.front_matter.date.duplicate());
                    posts.push(post);
                },
                Err(e) => {
                    return Err(e);
                },
            }
        }
        let order = stable_order(&dates, true);
        let ghost made = posts@;
        let ghost keys = post_dates(made);
        assert(is_stable_order(keys, true, order@)) by {
            assert forall|a: int, b: int| 0 <= a < b < order@.len() implies #[trigger] comes_before(keys, true, order@[a] as int, order@[b] as int) by {
                assert(comes_before(dates@, true, order@[a] as int, order@[b] as int));
            }
        }
        let sorted = permute(posts, &order);
        let index = PostIndex { posts: sorted };
        assert(is_stable_sort(made, keys, true, index@));
        Ok(index)
    }

    /// The published posts, newest first, without their bodies.
    pub fn posts(&self) -> (r: Vec<PostSummary>)
        ensures
            r@.len() == published_posts(self@).len(),
            forall|k: int| 0 <= k < r@.len() ==> summarizes(#[trigger] r@[k], published_posts(self@)[k]),
    {
        let mut r: Vec<PostSummary> = Vec::new();
        let mut i: usize = 0;
        while i < self.posts.len()
            invariant
                i <= self.posts@.len(),
                r@.len() == published_posts(self.posts@.take(i as int)).len(),
                forall|k: int| 0 <= k < r@.len() ==> summarizes(#[trigger] r@[k], published_posts(self.posts@.take(i as int))[k]),
            decreases self.posts.len() - i,
        {
            proof {
                reveal_with_fuel(Seq::<_>::filter, 1);
                assert(self.posts@.take(i + 1).drop_last() == self.posts@.take(i as int));
            }
            let post = &self.posts[i];
            if post.front_matter.draft != Some(true) {
                r.push(PostSummary { front_matter: post.front_matter.duplicate(), slug: post.slug.duplicate() });
            }
            i += 1;
        }
        assert(self.posts@.take(self.posts@.len() as int) == self.posts@);
        r
    }

    /// The first post with the given slug.
    pub fn post(&self, slug: &str) -> (r: Option<Post>)
        ensures
            r is None <==> forall|i: int| 0 <= i < self@.len() ==> #[trigger] self@[i].slug@ != slug@,
            r matches Some(post) ==> exists|i: int|
                0 <= i < self@.len() && #[trigger] self@[i].slug@ == slug@
                && (forall|j: int| 0 <= j < i ==> #[trigger] self@[j].slug@ != slug@)
                && post.deep_view() == self@[i].deep_view(),
    {
        let wanted = slug.to_string();
        let mut i: usize = 0;
        while i < self.posts.len()
            invariant
                i <= self.posts@.len(),
                wanted@ == slug@,
                forall|j: int| 0 <= j < i ==> #[trigger] self.posts@[j].slug@ != slug@,
            decreases self.posts.len() - i,
        {
            if self.posts[i].slug == wanted {
                assert(self@[i as int].slug@ == slug@);
                return Some(self.posts[i].duplicate());
            }
            i += 1;
        }
        None
    }
}

} // verus!
