//! Posts read on every request, with slugs that start with `/`.

use vstd::prelude::*;
use std::cmp::Ordering;
use itertools::Itertools;
use crate::content::markdown::{stem_of, ContentFile, Document, FrontMatter, file_stem};
use crate::duplicate::Duplicate;
use crate::order::{is_stable_sort, lemma_text_lt_order, text_less, text_lt};
use crate::text::{chars_of, join};

verus! {

/// The front matter of a post.
#[derive(Debug, Clone)]
pub struct PostFrontMatter {
    pub date: String,
    pub title: String,
    pub description: String,
    pub banner: String,
    pub tags: Option<Vec<String>>,
    pub draft: Option<bool>,
}

impl DeepView for PostFrontMatter {
    type V = (Seq<char>, Seq<char>, Seq<char>, Seq<char>, Option<Seq<Seq<char>>>, Option<bool>);

    open spec fn deep_view(&self) -> Self::V {
        (self.date@, self.title@, self.description@, self.banner@, self.tags.deep_view(), self.draft)
    }
}

impl Duplicate for PostFrontMatter {
    fn duplicate(&self) -> (r: Self) {
        PostFrontMatter {
            date: self.date.duplicate(),
            title: self.title.duplicate(),
            description: self.description.duplicate(),
            banner: self.banner.duplicate(),
            tags: self.tags.duplicate(),
            draft: self.draft.duplicate(),
        }
    }
}

/// A post without its body.
#[derive(Debug, Clone)]
pub struct PostSummary {
    pub front_matter: PostFrontMatter,
    pub slug: String,
}

/// A post.
#[derive(Debug, Clone)]
pub struct Post {
    pub front_matter: PostFrontMatter,
    pub slug: String,
    pub body: String,
}

impl DeepView for Post {
    type V = (<PostFrontMatter as DeepView>::V, Seq<char>, Seq<char>);

    open spec fn deep_view(&self) -> Self::V {
        (self.front_matter.deep_view(), self.slug@, self.body@)
    }
}

impl Duplicate for Post {
    fn duplicate(&self) -> (r: Self) {
        Post {
            front_matter: self.front_matter.duplicate(),
            slug: self.slug.duplicate(),
            body: self.body.duplicate(),
        }
    }
}

impl From<Post> for PostSummary {
    fn from(post: Post) -> (r: Self) {
        PostSummary { front_matter: post.front_matter, slug: post.slug }
    }
}

impl vstd::std_specs::convert::FromSpecImpl<Post> for PostSummary {
    open spec fn obeys_from_spec() -> bool {
        true
    }

    open spec fn from_spec(post: Post) -> Self {
        PostSummary { front_matter: post.front_matter, slug: post.slug }
    }
}

/// Reads posts: every call reads them anew.
#[derive(Clone)]
pub struct PostService;

/// A file that the service can read a post from: its document was read,
/// its front matter is present and of the expected shape, and its name has
/// a stem. On any other file the service stops.
pub open spec fn is_post_file(file: ContentFile<PostFrontMatter>) -> bool {
    &&& file.contents matches Ok(document)
    &&& document.front_matter is Parsed
    &&& stem_of(file.file_name@) is Some
}

/// `post` is the post that `file` makes: its front matter and body, with
/// `/` and the file's stem as slug.
pub open spec fn is_post_of(file: ContentFile<PostFrontMatter>, post: Post) -> bool {
    &&& file.contents matches Ok(document)
    &&& document.front_matter == FrontMatter::Parsed(post.front_matter)
    &&& document.body == post.body
    &&& stem_of(file.file_name@) matches Some(stem) && post.slug@ == seq!['/'] + stem
}

/// The dates of the posts, in order.
pub open spec fn post_dates(posts: Seq<Post>) -> Seq<String> {
    posts.map_values(|p: Post| p.front_matter.date)
}

/// `posts` are the posts that `files` make, newest first by their date text,
/// posts of the same date in the order of their files.
pub open spec fn posts_read_from(files: Seq<ContentFile<PostFrontMatter>>, posts: Seq<Post>) -> bool {
    exists|made: Seq<Post>|
        #![trigger is_stable_sort(made, post_dates(made), true, posts)]
        {
            &&& made.len() == files.len()
            &&& forall|k: int| 0 <= k < files.len() ==> #[trigger] is_post_of(files[k], made[k])
            &&& is_stable_sort(made, post_dates(made), true, posts)
        }
}

/// The published posts of `posts`, in order.
pub open spec fn published_posts(posts: Seq<Post>) -> Seq<Post> {
    posts.filter(|p: Post| p.front_matter.draft != Some(true))
}

/// How two posts order newest first: by their date text, descending.
pub fn newer_first(a: &Post, b: &Post) -> (r: Ordering)
    ensures
        (r == Ordering::Less) == text_lt(b.front_matter.date@, a.front_matter.date@),
        (r == Ordering::Greater) == text_lt(a.front_matter.date@, b.front_matter.date@),
        (r == Ordering::Equal) == (a.front_matter.date@ == b.front_matter.date@),
{
    let x = chars_of(a.front_matter.date.as_str());
    let y = chars_of(b.front_matter.date.as_str());
    proof {
        lemma_text_lt_order(x@, y@, y@);
        lemma_text_lt_order(y@, x@, x@);
    }
    if text_less(&y, &x) {
        Ordering::Less
    } else if text_less(&x, &y) {
        Ordering::Greater
    } else {
        Ordering::Equal
    }
}

/// Calls itertools' `sorted_by` with `newer_first`, which its source
/// implements with the stable `slice::sort_by`: claims that the result is
/// the posts sorted stably, newest first by date text.
#[verifier::external_body]
fn sort_newest_first(posts: Vec<Post>) -> (r: Vec<Post>)
    ensures
        is_stable_sort(posts@, post_dates(posts@), true, r@),
{
    posts.into_iter().sorted_by(newer_first).collect()
}

impl PostService {
    /// Reads the posts from the markdown files of the posts directory,
    /// newest first.
    fn load_from_disk(files: Vec<ContentFile<PostFrontMatter>>) -> (r: Vec<Post>)
        requires
            forall|k: int| 0 <= k < files@.len() ==> #[trigger] is_post_file(files@[k]),
        ensures
            posts_read_from(files@, r@),
    {
        let ghost all = files@;
        let mut posts: Vec<Post> = Vec::new();
        for file in it: files
            invariant
                it.seq() == all,
                forall|k: int| 0 <= k < all.len() ==> #[trigger] is_post_file(all[k]),
                posts@.len() == it.index(),
                forall|j: int| 0 <= j < it.index() ==> #[trigger] is_post_of(all[j], posts@[j]),
        {
            assert(is_post_file(all[it.index() as int]));
            let ContentFile { path: _, file_name, contents } = file;
            let Document { front_matter, body } = contents.unwrap();
            let front_matter = match front_matter {
                FrontMatter::Parsed(front_matter) => front_matter,
                _ => {
                    assert(false);
                    return Vec::new();
                },
            };
            let stem = file_stem(file_name.as_str()).unwrap();
            let slug = join("/", stem.as_str());
            proof {
                reveal_strlit("/");
                assert("/"@ == seq!['/']);
            }
            posts.push(Post { front_matter, slug, body });
        }
        let ghost made = posts@;
        let sorted = sort_newest_first(posts);
        assert(is_stable_sort(made, post_dates(made), true, sorted@));
        sorted
    }

    /// The published posts, newest first, without their bodies. The
    /// markdown files must all make posts, as the service stops otherwise.
    pub fn get_posts(files: Vec<ContentFile<PostFrontMatter>>) -> (r: Vec<PostSummary>)
        requires
            forall|k: int| 0 <= k < files@.len() ==> #[trigger] is_post_file(files@[k]),
        ensures
            exists|posts: Seq<Post>| #[trigger] posts_read_from(files@, posts)
                && r@.len() == published_posts(posts).len()
                && forall|k: int| 0 <= k < r@.len() ==> {
                    &&& (#[trigger] r@[k]).front_matter == published_posts(posts)[k].front_matter
                    &&& r@[k].slug == published_posts(posts)[k].slug
                },
    {
        let posts = PostService::load_from_disk(files);
        let ghost all = posts@;
        let mut r: Vec<PostSummary> = Vec::new();
        for post in it: posts
            invariant
                it.seq() == all,
                r@.len() == published_posts(all.take(it.index() as int)).len(),
                forall|k: int| 0 <= k < r@.len() ==> {
                    &&& (#[trigger] r@[k]).front_matter == published_posts(all.take(it.index() as int))[k].front_matter
                    &&& r@[k].slug == published_posts(all.take(it.index() as int))[k].slug
                },
        {
            proof {
                reveal_with_fuel(Seq::<_>::filter, 1);
                assert(all.take(it.index() + 1).drop_last() == all.take(it.index() as int));
            }
            if post.front_matter.draft != Some(true) {
                r.push(PostSummary::from(post));
            }
        }
        assert(all.take(all.len() as int) == all);
        r
    }

    /// The first post, newest first, whose slug is `/` and `slug`. The
    /// markdown files must all make posts, as the service stops otherwise.
    pub fn get_post(files: Vec<ContentFile<PostFrontMatter>>, slug: &str) -> (r: Option<Post>)
        requires
            forall|k: int| 0 <= k < files@.len() ==> #[trigger] is_post_file(files@[k]),
        ensures
            exists|posts: Seq<Post>| #[trigger] posts_read_from(files@, posts) && {
                &&& r is None <==> forall|i: int| 0 <= i < posts.len() ==> #[trigger] posts[i].slug@ != seq!['/'] + slug@
                &&& r matches Some(post) ==> exists|i: int|
                    0 <= i < posts.len() && #[trigger] posts[i].slug@ == seq!['/'] + slug@
                    && (forall|j: int| 0 <= j < i ==> #[trigger] posts[j].slug@ != seq!['/'] + slug@)
                    && post == posts[i]
            },
    {
        let wanted = join("/", slug);
        proof {
            reveal_strlit("/");
            assert("/"@ == seq!['/']);
        }
        let ghost listed = files@;
        let posts = PostService::load_from_disk(files);
        let ghost all = posts@;
        for post in it: posts
            invariant
                it.seq() == all,
                posts_read_from(listed, all),
                listed == files@,
                wanted@ == seq!['/'] + slug@,
                forall|j: int| 0 <= j < it.index() ==> #[trigger] all[j].slug@ != seq!['/'] + slug@,
        {
            if post.slug == wanted {
                assert(post == all[it.index() as int]);
                assert(all[it.index() as int].slug@ == seq!['/'] + slug@);
                return Some(post);
            }
        }
        None
    }
}

} // verus!
