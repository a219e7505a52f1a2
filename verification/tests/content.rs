use content_paulmcbride_com::content::markdown::{
    file_extension, file_stem, is_markdown_file, markdown_files, ContentFile, DirEntry, Document,
    FrontMatter, IoFailure,
};
use content_paulmcbride_com::content::note::{
    note_from_file, NoteFrontMatter, NoteIndex, NoteLoadError, NoteMedia, NoteSource, NoteVisibility,
};
use content_paulmcbride_com::content::now::{entry_from_file, NowFrontMatter, NowIndex, NowLoadError};
use content_paulmcbride_com::content::page::{PageIndex, PageLoadError};
use content_paulmcbride_com::content::post::{
    is_valid_post_date, is_ymd_shape, post_from_file, PostFrontMatter, PostIndex, PostLoadError,
};
use content_paulmcbride_com::order::Instant;

fn file<F>(name: &str, front_matter: FrontMatter<F>, body: &str) -> ContentFile<F> {
    ContentFile {
        path: format!("content/x/{name}"),
        file_name: name.to_string(),
        contents: Ok(Document { front_matter, body: body.to_string() }),
    }
}

fn entry(name: &str) -> DirEntry {
    DirEntry { path: format!("dir/{name}"), file_name: name.to_string() }
}

fn missing() -> IoFailure {
    IoFailure { not_found: true, message: "No such file or directory (os error 2)".to_string() }
}

fn note(date: &str, id: &str, reply_to: Option<&str>, visibility: NoteVisibility) -> NoteFrontMatter {
    NoteFrontMatter {
        date: date.to_string(),
        source: NoteSource::Mastodon,
        source_id: id.to_string(),
        source_url: format!("https://example.com/{id}"),
        in_reply_to_id: reply_to.map(|r| r.to_string()),
        in_reply_to_account_id: reply_to.map(|_| "account".to_string()),
        visibility,
        media: None,
        tags: None,
    }
}

fn note_file(name: &str, front_matter: NoteFrontMatter) -> ContentFile<NoteFrontMatter> {
    file(name, FrontMatter::Parsed(front_matter), "Body")
}

fn post(date: &str, title: &str, draft: Option<bool>) -> PostFrontMatter {
    PostFrontMatter {
        date: date.to_string(),
        title: title.to_string(),
        subtitle: None,
        description: format!("{title} post"),
        banner: format!("/images/{title}.jpg"),
        last_updated: None,
        status: None,
        tags: None,
        draft,
    }
}

#[test]
fn lists_markdown_files_in_sorted_order() {
    let files = markdown_files(Ok(vec![entry("b.md"), entry("a.mdx"), entry("ignored.txt")]), false)
        .expect("markdown files load");
    let names: Vec<String> = files.into_iter().map(|e| e.path).collect();

    assert_eq!(names, vec!["dir/a.mdx", "dir/b.md"]);
}

#[test]
fn missing_directory_can_be_empty() {
    let files = markdown_files(Err(missing()), true).expect("missing directory loads");
    assert!(files.is_empty());
    assert!(markdown_files(Err(missing()), false).is_err());
}

#[test]
fn reads_file_names_like_std_paths() {
    assert_eq!(file_stem("a.b.md"), Some("a.b".to_string()));
    assert_eq!(file_stem(".hidden"), Some(".hidden".to_string()));
    assert_eq!(file_extension(".hidden"), None);
    assert_eq!(file_extension("x.mdx"), Some("mdx".to_string()));
    assert!(is_markdown_file("x.md"));
    assert!(!is_markdown_file("x.markdown"));
}

#[test]
fn lists_notes_in_reverse_date_order() {
    let mut newer = note("2024-01-01T11:00:00Z", "2", None, NoteVisibility::Unlisted);
    newer.media = Some(vec![NoteMedia {
        url: "/media/notes/image.jpg".to_string(),
        alt: "Image alt text".to_string(),
    }]);
    let files = vec![
        note_file("newer.md", newer),
        note_file("older.md", note("2024-01-01T10:00:00Z", "1", None, NoteVisibility::Public)),
    ];

    let index = NoteIndex::load("content/notes".to_string(), Ok(files)).expect("notes load");
    let notes = index.notes();

    assert_eq!(notes.len(), 2);
    assert_eq!(notes[0].slug, "newer");
    assert_eq!(notes[1].slug, "older");
    assert_eq!(notes[0].front_matter.source_id, "2");
    assert_eq!(
        notes[0].front_matter.media.as_ref().expect("media exists")[0].alt,
        "Image alt text"
    );
}

#[test]
fn orders_notes_by_moment_not_by_text() {
    let files = vec![
        note_file("utc.md", note("2024-01-01T10:30:00Z", "1", None, NoteVisibility::Public)),
        note_file("offset.md", note("2024-01-01T11:00:00+01:00", "2", None, NoteVisibility::Public)),
    ];
    let index = NoteIndex::load("content/notes".to_string(), Ok(files)).expect("notes load");
    let notes = index.notes();
    assert_eq!(notes[0].slug, "utc");
    assert_eq!(notes[1].slug, "offset");
}

fn thread_files() -> Vec<ContentFile<NoteFrontMatter>> {
    vec![
        note_file("reply.md", note("2024-01-01T11:00:00Z", "2", Some("1"), NoteVisibility::Public)),
        note_file("root.md", note("2024-01-01T10:00:00Z", "1", None, NoteVisibility::Public)),
        note_file("standalone.md", note("2024-01-01T12:00:00Z", "3", None, NoteVisibility::Public)),
    ]
}

#[test]
fn groups_thread_replies_with_their_root_note() {
    let index = NoteIndex::load("content/notes".to_string(), Ok(thread_files())).expect("notes load");
    let groups = index.note_groups();

    assert_eq!(groups.len(), 2);
    assert_eq!(groups[0].notes[0].slug, "standalone");
    assert_eq!(groups[1].notes[0].slug, "root");
    assert_eq!(groups[1].notes[1].slug, "reply");
}

#[test]
fn finds_note_group_by_any_thread_slug() {
    let index = NoteIndex::load("content/notes".to_string(), Ok(thread_files())).expect("notes load");
    let group = index.note_group("reply").expect("group exists");

    assert_eq!(group.notes[0].slug, "root");
    assert_eq!(group.notes[1].slug, "reply");
    assert!(index.note_group("missing").is_none());
    assert_eq!(index.note("root").expect("note exists").front_matter.source_id, "1");
}

#[test]
fn pages_note_groups_without_splitting_threads() {
    let index = NoteIndex::load("content/notes".to_string(), Ok(thread_files())).expect("notes load");
    let first_page = index.note_page(None, 1);
    let second_page = index.note_page(first_page.next_cursor.as_deref(), 1);

    assert_eq!(first_page.items.len(), 1);
    assert_eq!(first_page.items[0].notes[0].slug, "standalone");
    assert_eq!(first_page.next_cursor.as_deref(), Some("standalone"));
    assert_eq!(first_page.previous_cursor, None);
    assert_eq!(second_page.items.len(), 1);
    assert_eq!(second_page.items[0].notes[0].slug, "root");
    assert_eq!(second_page.items[0].notes[1].slug, "reply");
    assert_eq!(second_page.next_cursor, None);
    assert_eq!(second_page.previous_cursor.as_deref(), Some(""));
}

#[test]
fn clamps_note_page_size() {
    let index = NoteIndex::load("content/notes".to_string(), Ok(thread_files())).expect("notes load");
    assert_eq!(index.note_page(None, 0).items.len(), 1);
    assert_eq!(index.note_page(None, 1000).items.len(), 2);
    assert_eq!(index.note_page(Some("unknown"), 1).items[0].notes[0].slug, "standalone");
}

#[test]
fn missing_notes_directory_is_empty() {
    let index = NoteIndex::load("content/notes".to_string(), Err(missing())).expect("missing notes dir loads");
    assert!(index.notes().is_empty());

    let unreadable = IoFailure { not_found: false, message: "denied".to_string() };
    let error = NoteIndex::load("content/notes".to_string(), Err(unreadable)).expect_err("unreadable dir fails");
    assert!(matches!(error, NoteLoadError::ReadDirectory { .. }));
}

#[test]
fn note_rejects_invalid_dates() {
    let files = vec![note_file("bad-date.md", note("not-a-date", "1", None, NoteVisibility::Public))];

    let error = NoteIndex::load("content/notes".to_string(), Ok(files)).expect_err("invalid date should fail");

    assert!(matches!(error, NoteLoadError::InvalidDate { .. }));
}

#[test]
fn note_needs_front_matter() {
    let files: Vec<ContentFile<NoteFrontMatter>> = vec![file("plain.md", FrontMatter::Missing, "Body")];
    let error = NoteIndex::load("content/notes".to_string(), Ok(files)).expect_err("no front matter");
    assert!(matches!(error, NoteLoadError::MissingFrontMatter { .. }));
    assert_eq!(error.message(), "missing front matter in content/x/plain.md");
}

#[test]
fn lists_only_published_posts_in_reverse_date_order() {
    let files = vec![
        file("draft.mdx", FrontMatter::Parsed(post("2025-01-01", "Draft", Some(true))), "Draft body"),
        file("newer.mdx", FrontMatter::Parsed(post("2024-01-01", "Newer", None)), "Newer body"),
        file("older.mdx", FrontMatter::Parsed(post("2023-01-01", "Older", Some(false))), "Older body"),
    ];

    let index = PostIndex::load("content/posts".to_string(), Ok(files)).expect("posts load");
    let posts = index.posts();

    assert_eq!(posts.len(), 2);
    assert_eq!(posts[0].slug, "newer");
    assert_eq!(posts[1].slug, "older");
    assert_eq!(index.post("older").expect("post exists").body, "Older body");
}

#[test]
fn post_rejects_invalid_dates() {
    let files = vec![file("bad-date.mdx", FrontMatter::Parsed(post("not-a-date", "Bad", None)), "Bad")];

    let error = PostIndex::load("content/posts".to_string(), Ok(files)).expect_err("invalid date should fail");

    assert!(matches!(error, PostLoadError::InvalidDate { .. }));
}

#[test]
fn post_reports_invalid_front_matter() {
    let files: Vec<ContentFile<PostFrontMatter>> =
        vec![file("odd.md", FrontMatter::Invalid("missing field `title`".to_string()), "")];
    let error = PostIndex::load("content/posts".to_string(), Ok(files)).expect_err("invalid front matter");
    assert_eq!(error.message(), "invalid front matter in content/x/odd.md: missing field `title`");
}

fn now_file(name: &str, date: &str, title: &str) -> ContentFile<NowFrontMatter> {
    file(
        name,
        FrontMatter::Parsed(NowFrontMatter { date: date.to_string(), title: title.to_string() }),
        "Now body",
    )
}

#[test]
fn lists_entries_in_reverse_date_order() {
    let files = vec![now_file("newer.mdx", "2024-01-01", "Newer"), now_file("older.mdx", "2023-01-01", "Older")];

    let index = NowIndex::load("content/now".to_string(), Ok(files)).expect("now entries load");
    let entries = index.entries();

    assert_eq!(entries[0].slug, "newer");
    assert_eq!(entries[1].slug, "older");
    assert_eq!(index.entry("older").expect("entry exists").front_matter.title, "Older");
}

#[test]
fn now_rejects_invalid_dates() {
    let files = vec![now_file("bad.mdx", "not-a-date", "Bad")];

    let error = NowIndex::load("content/now".to_string(), Ok(files)).expect_err("invalid date should fail");

    assert!(matches!(error, NowLoadError::InvalidDate { .. }));
}

#[test]
fn loads_pages_by_slug() {
    let files: Vec<ContentFile<()>> = vec![file("about.mdx", FrontMatter::Missing, "About body")];

    let index = PageIndex::load("content/pages".to_string(), Ok(files)).expect("pages load");
    let page = index.page("about").expect("page exists");

    assert_eq!(page.slug, "about");
    assert_eq!(page.body, "About body");
}

#[test]
fn missing_pages_directory_is_empty() {
    let index = PageIndex::load("content/pages".to_string(), Err(missing())).expect("pages load");

    assert!(index.page("missing").is_none());
}

#[test]
fn page_read_failure_is_reported() {
    let files: Vec<ContentFile<()>> = vec![ContentFile {
        path: "content/pages/a.md".to_string(),
        file_name: "a.md".to_string(),
        contents: Err(IoFailure { not_found: false, message: "denied".to_string() }),
    }];
    let error = PageIndex::load("content/pages".to_string(), Ok(files)).expect_err("unreadable page");
    assert!(matches!(error, PageLoadError::ReadFile { .. }));
}

#[test]
fn makes_items_from_checked_files() {
    let post_file = || file("a.md", FrontMatter::Parsed(post("whenever", "A", None)), "A body");
    assert!(matches!(post_from_file(post_file(), false), Err(PostLoadError::InvalidDate { .. })));
    assert_eq!(post_from_file(post_file(), true).expect("date counts as valid").slug, "a");

    assert!(matches!(entry_from_file(now_file("b.md", "x", "B"), false), Err(NowLoadError::InvalidDate { .. })));
    assert_eq!(entry_from_file(now_file("b.md", "x", "B"), true).expect("entry").slug, "b");

    let moment = Instant { secs: 1_700_000_000, nanos: 5 };
    let made = note_from_file(note_file("c.md", note("x", "1", None, NoteVisibility::Public)), Some(moment))
        .expect("note");
    assert_eq!(made.0.slug, "c");
    assert_eq!(made.1, moment);
    assert!(matches!(
        note_from_file(note_file("c.md", note("x", "1", None, NoteVisibility::Public)), None),
        Err(NoteLoadError::InvalidDate { .. })
    ));
}

#[test]
fn post_refuses_dates_without_two_digit_month_and_day() {
    let files = vec![file("short.mdx", FrontMatter::Parsed(post("2024-1-5", "Short", None)), "Short")];

    let error = PostIndex::load("content/posts".to_string(), Ok(files)).expect_err("short date should fail");

    assert!(matches!(error, PostLoadError::InvalidDate { ref date, .. } if date == "2024-1-5"));
    assert!(!is_valid_post_date("2024-1-5"));
    assert!(!is_valid_post_date("2024-02-30"));
    assert!(is_valid_post_date("2024-02-29"));
    assert!(is_ymd_shape("9999-99-99"));
}

#[test]
fn separate_calls_see_the_same_threads() {
    let index = NoteIndex::load("content/notes".to_string(), Ok(thread_files())).expect("notes load");
    let groups = index.note_groups();
    let page = index.note_page(None, 100);
    let slugs = |gs: &Vec<content_paulmcbride_com::content::note::NoteGroup>| -> Vec<Vec<String>> {
        gs.iter().map(|g| g.notes.iter().map(|n| n.slug.clone()).collect()).collect()
    };
    assert_eq!(slugs(&groups), slugs(&page.items));
    let found = index.note_group("root").expect("thread exists");
    assert_eq!(slugs(&vec![found]), vec![slugs(&groups)[1].clone()]);
}

#[test]
fn dot_names_have_no_stem() {
    assert_eq!(file_stem(".."), None);
    assert_eq!(file_stem("."), None);
    assert_eq!(file_stem(""), None);
    assert_eq!(file_extension(".."), None);
}

#[test]
fn cloned_index_keeps_its_notes() {
    let index = NoteIndex::load("content/notes".to_string(), Ok(thread_files())).expect("notes load");
    let copy = index.clone();
    let slugs = |i: &NoteIndex| -> Vec<String> { i.notes().into_iter().map(|n| n.slug).collect() };
    assert_eq!(slugs(&copy), slugs(&index));
}
