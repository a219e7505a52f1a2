use content_paulmcbride_com::content::markdown::{ContentFile, Document, FrontMatter, IoFailure};
use content_paulmcbride_com::content::note::{NoteFrontMatter, NoteIndex, NoteSource, NoteVisibility};
use content_paulmcbride_com::content::now::{NowFrontMatter, NowIndex};
use content_paulmcbride_com::content::page::PageIndex;
use content_paulmcbride_com::content::post::PostIndex;
use content_paulmcbride_com::web::{
    created_note, note_page_limit, AppState, MicropubFormRequest, MicropubType,
};

fn absent_dir() -> IoFailure {
    IoFailure { not_found: true, message: "missing".to_string() }
}

fn state() -> AppState {
    let note = ContentFile {
        path: "content/notes/note.md".to_string(),
        file_name: "note.md".to_string(),
        contents: Ok(Document {
            front_matter: FrontMatter::Parsed(NoteFrontMatter {
                date: "2024-01-01T10:00:00Z".to_string(),
                source: NoteSource::Mastodon,
                source_id: "1".to_string(),
                source_url: "https://example.com/1".to_string(),
                in_reply_to_id: None,
                in_reply_to_account_id: None,
                visibility: NoteVisibility::Public,
                media: None,
                tags: None,
            }),
            body: "Note body".to_string(),
        }),
    };
    let now = ContentFile {
        path: "content/now/2023-01.mdx".to_string(),
        file_name: "2023-01.mdx".to_string(),
        contents: Ok(Document {
            front_matter: FrontMatter::Parsed(NowFrontMatter {
                date: "2023-01-04".to_string(),
                title: "January".to_string(),
            }),
            body: "January body".to_string(),
        }),
    };
    AppState {
        post_index: PostIndex::load("content/posts".to_string(), Ok(Vec::new())).expect("posts load"),
        note_index: NoteIndex::load("content/notes".to_string(), Ok(vec![note])).expect("notes load"),
        page_index: PageIndex::load("content/pages".to_string(), Err(absent_dir())).expect("pages load"),
        now_index: NowIndex::load("content/now".to_string(), Ok(vec![now])).expect("now loads"),
    }
}

#[test]
fn note_page_limit_defaults_and_clamps() {
    assert_eq!(note_page_limit(None), 25);
    assert_eq!(note_page_limit(Some(0)), 1);
    assert_eq!(note_page_limit(Some(7)), 7);
    assert_eq!(note_page_limit(Some(500)), 100);
}

#[test]
fn answers_micropub_create_requests() {
    let response = created_note(MicropubFormRequest {
        action: "create".to_string(),
        h: MicropubType::Entry,
        content: "Hello".to_string(),
    });
    assert_eq!(response.content, "Hello");
    assert_eq!(response.item_type, vec!["h-entry".to_string()]);
    assert_eq!(MicropubType::Entry.label(), "entry");
}

#[test]
fn state_serves_notes_and_now_entries() {
    let state = state();
    assert_eq!(state.notes().len(), 1);
    assert_eq!(state.notes()[0].slug, "note");
    assert_eq!(state.note_group("note").expect("group exists").notes[0].body, "Note body");
    assert!(state.note_group("other").is_none());
    assert_eq!(state.note_page(None, 25).items.len(), 1);
    assert_eq!(state.now_entries()[0].slug, "2023-01");
    assert_eq!(state.now_entry("2023-01").expect("entry exists").body, "January body");
    assert!(state.post_index.posts().is_empty());
    assert!(state.page_index.page("about").is_none());
}
