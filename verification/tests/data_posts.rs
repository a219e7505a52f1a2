use content_paulmcbride_com::content::markdown::{ContentFile, Document, FrontMatter};
use content_paulmcbride_com::data::posts::{newer_first, Post, PostFrontMatter, PostService};
use std::cmp::Ordering;

fn front_matter(date: &str, draft: Option<bool>) -> PostFrontMatter {
    PostFrontMatter {
        date: date.to_string(),
        title: "Title".to_string(),
        description: "Description".to_string(),
        banner: "/banner.jpg".to_string(),
        tags: None,
        draft,
    }
}

fn file(name: &str, date: &str, draft: Option<bool>) -> ContentFile<PostFrontMatter> {
    ContentFile {
        path: format!("content/posts/{name}"),
        file_name: name.to_string(),
        contents: Ok(Document {
            front_matter: FrontMatter::Parsed(front_matter(date, draft)),
            body: format!("{name} body"),
        }),
    }
}

fn files() -> Vec<ContentFile<PostFrontMatter>> {
    vec![
        file("older.md", "2023-01-01", None),
        file("draft.md", "2025-01-01", Some(true)),
        file("newer.mdx", "2024-01-01", Some(false)),
        file("same-day.md", "2024-01-01", None),
    ]
}

#[test]
fn service_lists_published_posts_newest_first() {
    let posts = PostService::get_posts(files());
    let slugs: Vec<String> = posts.into_iter().map(|p| p.slug).collect();
    assert_eq!(slugs, vec!["/newer", "/same-day", "/older"]);
}

#[test]
fn service_finds_posts_by_slug_with_leading_slash() {
    let post = PostService::get_post(files(), "draft").expect("drafts can be read by slug");
    assert_eq!(post.slug, "/draft");
    assert_eq!(post.body, "draft.md body");
    assert!(PostService::get_post(files(), "missing").is_none());
}

#[test]
fn orders_posts_newest_first_by_date_text() {
    let post = |date: &str| Post { front_matter: front_matter(date, None), slug: String::new(), body: String::new() };
    assert_eq!(newer_first(&post("2024-01-02"), &post("2024-01-01")), Ordering::Less);
    assert_eq!(newer_first(&post("2024-01-01"), &post("2024-01-02")), Ordering::Greater);
    assert_eq!(newer_first(&post("2024-01-01"), &post("2024-01-01")), Ordering::Equal);
}
