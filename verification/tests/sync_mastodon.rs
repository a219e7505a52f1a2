use content_paulmcbride_com::config::{EnvConfigError, EnvValue};
use content_paulmcbride_com::sync_mastodon::config::{note_path, sync_mode, MastodonSyncConfig};
use content_paulmcbride_com::sync_mastodon::filename::{
    file_name_for_stamp, note_filename, NoteFilenameError,
};
use content_paulmcbride_com::sync_mastodon::html::{decode_html_entities, html_to_text};
use content_paulmcbride_com::sync_mastodon::plan::{
    absorb_page, account_url, is_known, plan_page, plan_status, status_page_query,
    statuses_url, PageStep, StatusAction,
};
use content_paulmcbride_com::sync_mastodon::status::{
    MastodonMediaAttachment, MastodonNote, MastodonStatus,
};
use content_paulmcbride_com::sync_mastodon::yaml::{
    join_lines, split_lines, yaml_escape, yaml_string_field,
};

fn status_with_visibility(visibility: &str) -> MastodonStatus {
    MastodonStatus {
        id: "123456789".to_string(),
        created_at: "2026-06-18T20:30:00Z".to_string(),
        uri: "https://example.social/users/paul/statuses/123456789".to_string(),
        url: Some("https://example.social/@paul/123456789".to_string()),
        visibility: visibility.to_string(),
        content: "<p>Hello</p>".to_string(),
        media_attachments: Vec::new(),
    }
}

fn status_with_id(id: &str) -> MastodonStatus {
    let mut status = status_with_visibility("public");
    status.id = id.to_string();
    status
}

fn ids(statuses: &[MastodonStatus]) -> Vec<String> {
    statuses.iter().map(|s| s.id.clone()).collect()
}

#[test]
fn creates_timestamp_note_filename_in_utc() {
    let filename = note_filename("2026-06-18T20:30:00Z", None).expect("filename is valid");

    assert_eq!(filename, "2026-06-18-203000.md");
}

#[test]
fn normalizes_offset_timestamps_to_utc() {
    let filename = note_filename("2026-06-18T13:30:00-07:00", None).expect("filename is valid");

    assert_eq!(filename, "2026-06-18-203000.md");
}

#[test]
fn appends_collision_suffix_when_needed() {
    let filename =
        note_filename("2026-06-18T20:30:00Z", Some("123456789")).expect("filename is valid");

    assert_eq!(filename, "2026-06-18-203000-123456789.md");
}

#[test]
fn rejects_invalid_created_at_values() {
    let error = note_filename("not-a-date", None).expect_err("invalid date should fail");

    assert!(matches!(error, NoteFilenameError::InvalidCreatedAt { .. }));
}

#[test]
fn invalid_created_at_error_names_the_value() {
    let error = note_filename("not-a-date", None).expect_err("invalid date should fail");
    match &error {
        NoteFilenameError::InvalidCreatedAt { value, .. } => assert_eq!(value, "not-a-date"),
    }
    assert!(error
        .message()
        .starts_with("invalid Mastodon created_at value 'not-a-date': "));
}

#[test]
fn formats_file_names_from_stamps() {
    assert_eq!(file_name_for_stamp("2026-06-18-203000", None), "2026-06-18-203000.md");
    assert_eq!(
        file_name_for_stamp("2026-06-18-203000", Some("42")),
        "2026-06-18-203000-42.md"
    );
}

#[test]
fn writes_leap_seconds_and_small_years_as_chrono_does() {
    assert_eq!(
        note_filename("2016-12-31T23:59:60Z", None).expect("leap second is valid"),
        "2016-12-31-235960.md"
    );
    assert_eq!(
        note_filename("0999-01-02T03:04:05Z", None).expect("year 999 is valid"),
        "0999-01-02-030405.md"
    );
}

#[test]
fn converts_mastodon_html_to_text() {
    let text = html_to_text(
        "<p>Hello <a href=\"https://example.com\">world</a> &amp; friends</p><p>Second<br />line</p>",
    );

    assert_eq!(text, "Hello world & friends\n\nSecond\nline");
}

#[test]
fn decodes_the_five_entities_once() {
    assert_eq!(
        decode_html_entities("&lt;b&gt; &quot;x&quot; &#39;y&#39; &amp;amp;"),
        "<b> \"x\" 'y' &amp;"
    );
}

#[test]
fn html_line_breaks_become_newlines() {
    assert_eq!(html_to_text("  <p>a<br>b<br/>c</p>  "), "a\nb\nc");
}

#[test]
fn builds_note_markdown_from_status() {
    let status = MastodonStatus {
        id: "123456789".to_string(),
        created_at: "2026-06-18T20:30:00Z".to_string(),
        uri: "https://example.social/users/paul/statuses/123456789".to_string(),
        url: Some("https://example.social/@paul/123456789".to_string()),
        visibility: "public".to_string(),
        content: "<p>Hello &amp; welcome</p>".to_string(),
        media_attachments: vec![MastodonMediaAttachment {
            url: "https://cdn.example.social/image.jpg".to_string(),
            description: Some("Alt text".to_string()),
        }],
    };

    let note = MastodonNote::from_status(status).expect("note is valid");
    let markdown = note.to_markdown();

    assert!(markdown.contains("date: \"2026-06-18T20:30:00Z\""));
    assert!(markdown.contains("source: mastodon"));
    assert!(markdown.contains("source_id: \"123456789\""));
    assert!(markdown.contains("source_url: \"https://example.social/@paul/123456789\""));
    assert!(markdown.contains("visibility: public"));
    assert!(markdown.contains("  - url: \"https://cdn.example.social/image.jpg\""));
    assert!(markdown.contains("    alt: \"Alt text\""));
    assert!(markdown.contains("Hello & welcome"));
}

#[test]
fn writes_the_whole_note_file() {
    let status = MastodonStatus {
        id: "7".to_string(),
        created_at: "2026-06-18T20:30:00Z".to_string(),
        uri: "https://example.social/statuses/7".to_string(),
        url: None,
        visibility: "unlisted".to_string(),
        content: "<p>Hi \"there\"</p>".to_string(),
        media_attachments: vec![MastodonMediaAttachment {
            url: "https://cdn.example.social/a.png".to_string(),
            description: None,
        }],
    };

    let note = MastodonNote::from_status(status).expect("note is valid");

    assert_eq!(
        note.to_markdown(),
        "---\ndate: \"2026-06-18T20:30:00Z\"\nsource: mastodon\nsource_id: \"7\"\nsource_url: \"https://example.social/statuses/7\"\nvisibility: unlisted\nmedia:\n  - url: \"https://cdn.example.social/a.png\"\n    alt: \"\"\n---\n\nHi \"there\"\n"
    );
}

#[test]
fn writes_multiline_media_alt_as_yaml_block_scalar() {
    let status = MastodonStatus {
        id: "123456789".to_string(),
        created_at: "2026-06-18T20:30:00Z".to_string(),
        uri: "https://example.social/users/paul/statuses/123456789".to_string(),
        url: Some("https://example.social/@paul/123456789".to_string()),
        visibility: "public".to_string(),
        content: "<p>Hello</p>".to_string(),
        media_attachments: vec![MastodonMediaAttachment {
            url: "https://cdn.example.social/image.jpg".to_string(),
            description: Some("First line\n\nSecond line".to_string()),
        }],
    };

    let note = MastodonNote::from_status(status).expect("note is valid");
    let markdown = note.to_markdown();

    assert!(markdown.contains("    alt: |-\n      First line\n      \n      Second line"));
}

#[test]
fn falls_back_to_uri_when_status_has_no_public_url() {
    let status = MastodonStatus {
        id: "123456789".to_string(),
        created_at: "2026-06-18T20:30:00Z".to_string(),
        uri: "https://example.social/users/paul/statuses/123456789".to_string(),
        url: None,
        visibility: "public".to_string(),
        content: "<p>Hello</p>".to_string(),
        media_attachments: Vec::new(),
    };

    let note = MastodonNote::from_status(status).expect("note is valid");

    assert_eq!(
        note.source_url,
        "https://example.social/users/paul/statuses/123456789"
    );
}

#[test]
fn refuses_status_with_invalid_created_at() {
    let mut status = status_with_visibility("public");
    status.created_at = "yesterday".to_string();

    let error = MastodonNote::from_status(status).err().expect("invalid date should fail");

    match error {
        NoteFilenameError::InvalidCreatedAt { value, .. } => assert_eq!(value, "yesterday"),
    }
}

#[test]
fn imports_public_and_unlisted_statuses() {
    let public_status = status_with_visibility("public");
    let unlisted_status = status_with_visibility("unlisted");

    assert!(public_status.is_importable_visibility());
    assert!(unlisted_status.is_importable_visibility());
}

#[test]
fn skips_private_and_direct_statuses() {
    let private_status = status_with_visibility("private");
    let direct_status = status_with_visibility("direct");

    assert!(!private_status.is_importable_visibility());
    assert!(!direct_status.is_importable_visibility());
}

#[test]
fn sync_mastodon_describes_sync_modes() {
    assert_eq!(sync_mode(false, false), "dry-run/incremental");
    assert_eq!(sync_mode(true, false), "write/incremental");
    assert_eq!(sync_mode(false, true), "dry-run/full");
    assert_eq!(sync_mode(true, true), "write/full");
}

#[test]
fn escapes_backslashes_and_quotes_for_yaml() {
    assert_eq!(yaml_escape("a\\b\"c"), "a\\\\b\\\"c");
    assert_eq!(yaml_escape("plain"), "plain");
}

#[test]
fn writes_single_line_fields_quoted() {
    assert_eq!(yaml_string_field("alt", "say \"hi\""), vec!["alt: \"say \\\"hi\\\"\"".to_string()]);
}

#[test]
fn splits_lines_as_str_lines_does() {
    let lines = split_lines(&"a\r\nb\n\nc\r".chars().collect());
    let text: Vec<String> = lines.iter().map(|l| l.iter().collect()).collect();
    assert_eq!(text, vec!["a", "b", "", "c\r"]);
    assert!(split_lines(&Vec::new()).is_empty());
    assert_eq!(split_lines(&"x\n".chars().collect()).len(), 1);
}

#[test]
fn joins_lines_with_newlines() {
    assert_eq!(join_lines(&vec!["a".to_string(), "".to_string(), "b".to_string()]), "a\n\nb");
    assert_eq!(join_lines(&Vec::new()), "");
}

fn config(content_dir: &str) -> MastodonSyncConfig {
    MastodonSyncConfig::from_env(
        EnvValue::Present("https://example.social/".to_string()),
        EnvValue::Present("token".to_string()),
        EnvValue::Present("42".to_string()),
        EnvValue::Present(content_dir.to_string()),
    )
    .expect("config is complete")
}

#[test]
fn reads_sync_config_from_env_values() {
    let config = MastodonSyncConfig::from_env(
        EnvValue::Present("https://example.social".to_string()),
        EnvValue::Present("token".to_string()),
        EnvValue::Present("42".to_string()),
        EnvValue::NotPresent,
    )
    .expect("config is complete");

    assert_eq!(config.content_dir, "content");
    assert_eq!(config.notes_dir(), "content/notes");
}

#[test]
fn sync_config_needs_each_required_variable() {
    let missing = MastodonSyncConfig::from_env(
        EnvValue::Present("https://example.social".to_string()),
        EnvValue::Present(String::new()),
        EnvValue::NotPresent,
        EnvValue::NotPresent,
    )
    .expect_err("token is missing");
    assert!(matches!(missing, EnvConfigError::MissingEnv { name: "MASTODON_ACCESS_TOKEN" }));

    let unreadable = MastodonSyncConfig::from_env(
        EnvValue::Unreadable("bad unicode".to_string()),
        EnvValue::NotPresent,
        EnvValue::NotPresent,
        EnvValue::NotPresent,
    )
    .expect_err("base url is unreadable");
    assert!(matches!(unreadable, EnvConfigError::ReadEnv { name: "MASTODON_BASE_URL", .. }));
}

#[test]
fn puts_notes_in_the_notes_directory_with_collision_suffix() {
    let note = MastodonNote::from_status(status_with_visibility("public")).expect("note is valid");

    assert_eq!(
        note_path(&config("site/content/"), &note, false).expect("path"),
        "site/content/notes/2026-06-18-203000.md"
    );
    assert_eq!(
        note_path(&config("site/content"), &note, true).expect("path"),
        "site/content/notes/2026-06-18-203000-123456789.md"
    );
}

#[test]
fn builds_api_urls_without_doubled_slashes() {
    assert_eq!(
        account_url("https://example.social//", "42"),
        "https://example.social/api/v1/accounts/42"
    );
    assert_eq!(
        statuses_url("https://example.social", "42"),
        "https://example.social/api/v1/accounts/42/statuses"
    );
}

#[test]
fn asks_for_forty_statuses_without_reblogs_or_replies() {
    let pairs = |q: Vec<(String, String)>| -> Vec<(String, String)> { q };
    assert_eq!(
        pairs(status_page_query(None)),
        vec![
            ("limit".to_string(), "40".to_string()),
            ("exclude_reblogs".to_string(), "true".to_string()),
            ("exclude_replies".to_string(), "true".to_string()),
        ]
    );
    assert_eq!(
        status_page_query(Some("99")).last().cloned(),
        Some(("max_id".to_string(), "99".to_string()))
    );
}

#[test]
fn stops_paging_at_an_empty_page() {
    assert!(matches!(plan_page(&Vec::new(), &vec!["1".to_string()], true), PageStep::Finish { keep: 0 }));
}

#[test]
fn first_incremental_run_takes_one_page() {
    let page = vec![status_with_id("3"), status_with_id("2")];
    assert!(matches!(plan_page(&page, &Vec::new(), false), PageStep::Finish { keep: 2 }));
}

#[test]
fn incremental_run_stops_before_imported_status() {
    let page = vec![status_with_id("5"), status_with_id("4"), status_with_id("3")];
    let existing = vec!["4".to_string()];
    assert!(matches!(plan_page(&page, &existing, false), PageStep::Finish { keep: 1 }));

    let mut collected = Vec::new();
    let next = absorb_page(&mut collected, page, &existing, false);
    assert_eq!(next, None);
    assert_eq!(ids(&collected), vec!["5"]);
}

#[test]
fn full_run_pages_on_from_the_last_status() {
    let page = vec![status_with_id("5"), status_with_id("4")];
    let existing = vec!["4".to_string()];
    match plan_page(&page, &existing, true) {
        PageStep::Next { max_id } => assert_eq!(max_id, "4"),
        other => panic!("unexpected step {:?}", other),
    }

    let mut collected = vec![status_with_id("9")];
    let next = absorb_page(&mut collected, page, &existing, true);
    assert_eq!(next, Some("4".to_string()));
    assert_eq!(ids(&collected), vec!["9", "5", "4"]);
}

#[test]
fn incremental_run_without_known_status_pages_on() {
    let page = vec![status_with_id("5"), status_with_id("4")];
    let existing = vec!["1".to_string()];
    match plan_page(&page, &existing, false) {
        PageStep::Next { max_id } => assert_eq!(max_id, "4"),
        other => panic!("unexpected step {:?}", other),
    }
}

#[test]
fn decides_what_to_do_with_each_status() {
    let existing = vec!["123456789".to_string()];
    assert_eq!(plan_status(&status_with_visibility("private"), &existing, true), StatusAction::SkipVisibility);
    assert_eq!(plan_status(&status_with_visibility("public"), &existing, true), StatusAction::SkipExisting);
    assert_eq!(plan_status(&status_with_id("1"), &existing, true), StatusAction::Write);
    assert_eq!(plan_status(&status_with_id("1"), &existing, false), StatusAction::DryRun);
    assert!(is_known(&existing, &"123456789".to_string()));
    assert!(!is_known(&existing, &"12345678".to_string()));
}

#[test]
fn block_scalar_lines_join_back_to_the_value() {
    let value = "First line\n\nSecond line";
    let lines: Vec<String> = split_lines(&value.chars().collect())
        .iter()
        .map(|l| l.iter().collect())
        .collect();
    assert_eq!(join_lines(&lines), value);
}

#[test]
fn escaped_values_read_back_unchanged() {
    let value = "say \"hi\" \\ bye";
    let escaped = yaml_escape(value);
    let mut read = String::new();
    let mut chars = escaped.chars();
    while let Some(c) = chars.next() {
        if c == '\\' {
            read.push(chars.next().expect("escape has a character"));
        } else {
            read.push(c);
        }
    }
    assert_eq!(read, value);
}
