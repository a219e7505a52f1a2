//! Mastodon statuses and the note files made from them.

use vstd::prelude::*;
use crate::sync_mastodon::filename::NoteFilenameError;
use crate::sync_mastodon::html::{html_text, html_to_text};
use crate::sync_mastodon::yaml::{
    join_lines, joined_lines, quoted_line, string_views, yaml_escaped, yaml_field_lines,
    yaml_string_field,
};
use crate::text::same_text;
use crate::time::{parse_rfc3339, rfc3339_utc};

verus! {

/// A media attachment of a status, as the Mastodon API gives it.
#[derive(Debug, Clone)]
pub struct MastodonMediaAttachment {
    pub url: String,
    pub description: Option<String>,
}

/// A status of the account, as the Mastodon API gives it.
#[derive(Debug, Clone)]
pub struct MastodonStatus {
    pub id: String,
    pub created_at: String,
    pub uri: String,
    pub url: Option<String>,
    pub visibility: String,
    pub content: String,
    pub media_attachments: Vec<MastodonMediaAttachment>,
}

/// Is the visibility one whose statuses are imported?
pub open spec fn importable_visibility(visibility: Seq<char>) -> bool {
    visibility == "public"@ || visibility == "unlisted"@
}

impl MastodonStatus {
    /// Public and unlisted statuses are imported; private and direct ones
    /// are not.
    pub fn is_importable_visibility(&self) -> (r: bool)
        ensures
            r == importable_visibility(self.visibility@),
    {
        same_text(self.visibility.as_str(), "public") || same_text(self.visibility.as_str(), "unlisted")
    }
}

/// A media item of an imported note.
#[derive(Debug, Clone)]
pub struct MastodonNoteMedia {
    pub url: String,
    pub alt: String,
}

/// A note made from a status, ready to be written as a markdown file.
#[derive(Debug, Clone)]
pub struct MastodonNote {
    pub created_at: String,
    pub source_id: String,
    pub source_url: String,
    pub visibility: String,
    pub body: String,
    pub media: Vec<MastodonNoteMedia>,
}

/// The note media made from an attachment: its URL, and its description
/// as the alt text (empty where it has none).
pub open spec fn media_from(media: MastodonNoteMedia, attachment: MastodonMediaAttachment) -> bool {
    &&& media.url@ == attachment.url@
    &&& media.alt@ == match attachment.description {
        Some(d) => d@,
        None => Seq::<char>::empty(),
    }
}

/// The note made from a status: its time, id and visibility, its public URL
/// (its URI where it has none), its HTML as plain text, and its media.
pub open spec fn note_from(note: MastodonNote, status: MastodonStatus) -> bool {
    &&& note.created_at@ == status.created_at@
    &&& note.source_id@ == status.id@
    &&& note.source_url@ == match status.url {
        Some(u) => u@,
        None => status.uri@,
    }
    &&& note.visibility@ == status.visibility@
    &&& note.body@ == html_text(status.content@)
    &&& note.media@.len() == status.media_attachments@.len()
    &&& forall|i: int| 0 <= i < note.media@.len() ==> media_from(#[trigger] note.media@[i], status.media_attachments@[i])
}

/// The front matter lines of one media item: its quoted URL in a list item,
/// then its alt text.
pub open spec fn media_lines(media: MastodonNoteMedia) -> Seq<Seq<char>> {
    seq!["  - url: \""@ + yaml_escaped(media.url@) + "\""@] + yaml_field_lines("    alt"@, media.alt@)
}

/// The front matter lines of the media items, in order.
pub open spec fn all_media_lines(media: Seq<MastodonNoteMedia>) -> Seq<Seq<char>>
    decreases media.len(),
{
    if media.len() == 0 {
        seq![]
    } else {
        all_media_lines(media.drop_last()) + media_lines(media.last())
    }
}

/// The lines of a note file: the front matter between `---` lines (date,
/// source, id, URL, visibility, then the media where there are any), an
/// empty line, the body and a last empty line.
pub open spec fn markdown_lines(note: MastodonNote) -> Seq<Seq<char>> {
    seq![
        "---"@,
        "date: \""@ + yaml_escaped(note.created_at@) + "\""@,
        "source: mastodon"@,
        "source_id: \""@ + yaml_escaped(note.source_id@) + "\""@,
        "source_url: \""@ + yaml_escaped(note.source_url@) + "\""@,
        "visibility: "@ + note.visibility@,
    ] + (if note.media@.len() > 0 {
        seq!["media:"@] + all_media_lines(note.media@)
    } else {
        seq![]
    }) + seq!["---"@, ""@, note.body@, ""@]
}

/// The text of a note file.
pub open spec fn note_markdown(note: MastodonNote) -> Seq<char> {
    joined_lines(markdown_lines(note))
}

/// How many lines a media item takes in the front matter: its `url` line
/// and the lines of its `alt` field.
pub open spec fn media_entry_len(media: MastodonNoteMedia) -> int {
    1 + yaml_field_lines("    alt"@, media.alt@).len() as int
}

/// Where the entry of media item `k` starts among the media lines: after
/// the entries of the items before it.
pub open spec fn media_entry_start(media: Seq<MastodonNoteMedia>, k: int) -> int
    decreases k,
{
    if k <= 0 {
        0
    } else {
        media_entry_start(media, k - 1) + media_entry_len(media[k - 1])
    }
}

/// The `url` line of a media item.
pub open spec fn media_url_line(media: MastodonNoteMedia) -> Seq<char> {
    "  - url: \""@ + yaml_escaped(media.url@) + "\""@
}

proof fn lemma_media_lines_layout(media: Seq<MastodonNoteMedia>, k: int)
    requires
        0 <= k <= media.len(),
    ensures
        all_media_lines(media.take(k)).len() == media_entry_start(media, k),
        forall|j: int| 0 <= j < k ==> {
            let at = #[trigger] media_entry_start(media, j);
            &&& all_media_lines(media.take(k))[at] == media_url_line(media[j])
            &&& all_media_lines(media.take(k)).subrange(at + 1, at + media_entry_len(media[j]))
                == yaml_field_lines("    alt"@, media[j].alt@)
        },
    decreases k,
{
    if k == 0 {
        assert(media.take(0) =~= Seq::<MastodonNoteMedia>::empty());
    } else {
        lemma_media_lines_layout(media, k - 1);
        let before = all_media_lines(media.take(k - 1));
        let entry = media_lines(media[k - 1]);
        assert(media.take(k).drop_last() =~= media.take(k - 1));
        assert(media.take(k).last() == media[k - 1]);
        assert(all_media_lines(media.take(k)) == before + entry);
        let all = before + entry;
        assert forall|j: int| 0 <= j < k implies {
            let at = #[trigger] media_entry_start(media, j);
            &&& all[at] == media_url_line(media[j])
            &&& all.subrange(at + 1, at + media_entry_len(media[j])) == yaml_field_lines("    alt"@, media[j].alt@)
        } by {
            let at = media_entry_start(media, j);
            lemma_media_entry_start_grows(media, 0, j);
            if j < k - 1 {
                lemma_media_entry_start_grows(media, j + 1, k - 1);
                assert(at + media_entry_len(media[j]) == media_entry_start(media, j + 1));
                assert(all[at] == before[at]);
                assert(all.subrange(at + 1, at + media_entry_len(media[j]))
                    =~= before.subrange(at + 1, at + media_entry_len(media[j])));
            } else {
                assert(all[at] == entry[0]);
                assert(all.subrange(at + 1, at + media_entry_len(media[j])) =~= entry.drop_first());
            }
        }
    }
}

proof fn lemma_media_entry_start_grows(media: Seq<MastodonNoteMedia>, j: int, k: int)
    requires
        0 <= j <= k <= media.len(),
    ensures
        media_entry_start(media, j) <= media_entry_start(media, k),
    decreases k - j,
{
    if j < k {
        lemma_media_entry_start_grows(media, j, k - 1);
    }
}

/// A note file starts with its front matter fields, each value quoted and
/// escaped (the visibility as it is), lists its media only where there are
/// any, and ends with the closing `---`, an empty line, the body and a last
/// empty line; so the file is those lines joined by line breaks.
pub proof fn lemma_markdown_fields_and_body(note: MastodonNote)
    ensures
        ({
            let lines = markdown_lines(note);
            let n = lines.len() as int;
            &&& n >= 10
            &&& lines[0] == "---"@
            &&& lines[1] == "date: \""@ + yaml_escaped(note.created_at@) + "\""@
            &&& lines[2] == "source: mastodon"@
            &&& lines[3] == "source_id: \""@ + yaml_escaped(note.source_id@) + "\""@
            &&& lines[4] == "source_url: \""@ + yaml_escaped(note.source_url@) + "\""@
            &&& lines[5] == "visibility: "@ + note.visibility@
            &&& (note.media@.len() == 0 ==> n == 10)
            &&& lines[n - 4] == "---"@
            &&& lines[n - 3] == ""@
            &&& lines[n - 2] == note.body@
            &&& lines[n - 1] == ""@
            &&& note_markdown(note) == joined_lines(lines)
        }),
{
    let lines = markdown_lines(note);
    let head = seq![
        "---"@,
        "date: \""@ + yaml_escaped(note.created_at@) + "\""@,
        "source: mastodon"@,
        "source_id: \""@ + yaml_escaped(note.source_id@) + "\""@,
        "source_url: \""@ + yaml_escaped(note.source_url@) + "\""@,
        "visibility: "@ + note.visibility@,
    ];
    let middle = if note.media@.len() > 0 {
        seq!["media:"@] + all_media_lines(note.media@)
    } else {
        Seq::<Seq<char>>::empty()
    };
    let tail = seq!["---"@, ""@, note.body@, ""@];
    assert(lines == head + middle + tail);
    let n = lines.len() as int;
    assert(lines[0] == head[0]);
    assert(lines[5] == head[5]);
    assert(lines[n - 4] == tail[0]);
    assert(lines[n - 1] == tail[3]);
}

/// A note file lists every media item of the note, in order: after the
/// `media:` line, item `k`'s entry (its quoted `url` line, then its `alt`
/// field) starts right where item `k - 1`'s ends, and the closing `---`
/// comes right after the last item's entry.
pub proof fn lemma_markdown_lists_every_media(note: MastodonNote)
    requires
        note.media@.len() > 0,
    ensures
        markdown_lines(note)[6] == "media:"@,
        forall|k: int| 0 <= k < note.media@.len() ==> {
            let at = 7 + #[trigger] media_entry_start(note.media@, k);
            &&& markdown_lines(note)[at] == media_url_line(note.media@[k])
            &&& markdown_lines(note).subrange(at + 1, at + media_entry_len(note.media@[k]))
                == yaml_field_lines("    alt"@, note.media@[k].alt@)
        },
        markdown_lines(note)[7 + media_entry_start(note.media@, note.media@.len() as int)] == "---"@,
{
    let media = note.media@;
    let n = media.len() as int;
    lemma_media_lines_layout(media, n);
    assert(media.take(n) =~= media);
    let head = seq![
        "---"@,
        "date: \""@ + yaml_escaped(note.created_at@) + "\""@,
        "source: mastodon"@,
        "source_id: \""@ + yaml_escaped(note.source_id@) + "\""@,
        "source_url: \""@ + yaml_escaped(note.source_url@) + "\""@,
        "visibility: "@ + note.visibility@,
    ];
    let body = all_media_lines(media);
    let tail = seq!["---"@, ""@, note.body@, ""@];
    let lines = markdown_lines(note);
    assert(lines == head + (seq!["media:"@] + body) + tail);
    assert(lines[6] == "media:"@);
    assert forall|k: int| 0 <= k < n implies {
        let at = 7 + #[trigger] media_entry_start(media, k);
        &&& lines[at] == media_url_line(media[k])
        &&& lines.subrange(at + 1, at + media_entry_len(media[k])) == yaml_field_lines("    alt"@, media[k].alt@)
    } by {
        let at = media_entry_start(media, k);
        lemma_media_entry_start_grows(media, 0, k);
        lemma_media_entry_start_grows(media, k + 1, n);
        assert(at + media_entry_len(media[k]) == media_entry_start(media, k + 1));
        assert(lines[7 + at] == body[at]);
        assert(lines.subrange(7 + at + 1, 7 + at + media_entry_len(media[k]))
            =~= body.subrange(at + 1, at + media_entry_len(media[k])));
    }
    assert(lines[7 + body.len() as int] == tail[0]);
}

/// Appends a line to the lines.
fn push_line(lines: &mut Vec<String>, line: String)
    ensures
        string_views(final(lines)@) == string_views(old(lines)@).push(line@),
{
    lines.push(line);
    assert(string_views(final(lines)@) == string_views(old(lines)@).push(line@));
}

/// Appends lines to the lines.
fn push_lines(lines: &mut Vec<String>, more: Vec<String>)
    ensures
        string_views(final(lines)@) == string_views(old(lines)@) + string_views(more@),
{
    let ghost start = lines@;
    let ghost added = more@;
    for line in it: more
        invariant
            it.seq() == added,
            lines@.len() == start.len() + it.index(),
            forall|j: int| 0 <= j < start.len() ==> #[trigger] lines@[j] == start[j],
            forall|j: int| 0 <= j < it.index() ==> #[trigger] lines@[start.len() + j] == added[j],
    {
        lines.push(line);
    }
    assert forall|k: int| 0 <= k < lines@.len() implies #[trigger] string_views(lines@)[k]
        == (string_views(start) + string_views(added))[k] by {
        if k >= start.len() {
            assert(lines@[start.len() + (k - start.len())] == added[k - start.len()]);
        }
    }
    assert(string_views(lines@) =~= string_views(start) + string_views(added));
}

impl MastodonNote {
    /// The note made from a status; fails where its `created_at` is not an
    /// RFC 3339 timestamp.
    pub fn from_status(status: MastodonStatus) -> (r: Result<Self, NoteFilenameError>)
        ensures
            match rfc3339_utc(status.created_at@) {
                Some(_) => r matches Ok(note) && note_from(note, status),
                None => r matches Err(NoteFilenameError::InvalidCreatedAt { value, .. })
                    && value@ == status.created_at@,
            },
    {
        let ghost given = status;
        match parse_rfc3339(status.created_at.as_str()) {
            Err(source) => {
                return Err(NoteFilenameError::InvalidCreatedAt { value: status.created_at, source });
            },
            Ok(_) => {},
        }
        let body = html_to_text(status.content.as_str());
        let source_url = match status.url {
            Some(u) => u,
            None => status.uri,
        };
        let mut media: Vec<MastodonNoteMedia> = Vec::new();
        let ghost attachments = status.media_attachments@;
        for attachment in it: status.media_attachments
            invariant
                it.seq() == attachments,
                media@.len() == it.index(),
                forall|i: int| 0 <= i < media@.len() ==> media_from(#[trigger] media@[i], attachments[i]),
        {
            let alt = match attachment.description {
                Some(d) => d,
                None => String::new(),
            };
            media.push(MastodonNoteMedia { url: attachment.url, alt });
        }
        let note = MastodonNote {
            created_at: status.created_at,
            source_id: status.id,
            source_url,
            visibility: status.visibility,
            body,
            media,
        };
        assert(note_from(note, given));
        Ok(note)
    }

    /// The markdown file of the note: YAML front matter and the body.
    pub fn to_markdown(&self) -> (r: String)
        ensures
            r@ == note_markdown(*self),
    {
        let mut lines: Vec<String> = Vec::new();
        push_line(&mut lines, "---".to_string());
        push_line(&mut lines, quoted_line("date: \"", self.created_at.as_str()));
        push_line(&mut lines, "source: mastodon".to_string());
        push_line(&mut lines, quoted_line("source_id: \"", self.source_id.as_str()));
        push_line(&mut lines, quoted_line("source_url: \"", self.source_url.as_str()));
        let mut visibility = "visibility: ".to_string();
        visibility.append(self.visibility.as_str());
        push_line(&mut lines, visibility);
        let ghost head = string_views(lines@);
        if self.media.len() > 0 {
            push_line(&mut lines, "media:".to_string());
            let mut k: usize = 0;
            assert(self.media@.take(0) == Seq::<MastodonNoteMedia>::empty());
            while k < self.media.len()
                invariant
                    k <= self.media@.len(),
                    self.media@.len() > 0,
                    string_views(lines@) == head + seq!["media:"@] + all_media_lines(self.media@.take(k as int)),
                decreases self.media.len() - k,
            {
                let item = &self.media[k];
                push_line(&mut lines, quoted_line("  - url: \"", item.url.as_str()));
                push_lines(&mut lines, yaml_string_field("    alt", item.alt.as_str()));
                assert(self.media@.take(k + 1).drop_last() == self.media@.take(k as int));
                assert(self.media@.take(k + 1).last() == self.media@[k as int]);
                k += 1;
            }
            assert(self.media@.take(self.media@.len() as int) == self.media@);
        }
        let ghost middle = string_views(lines@);
        proof {
            reveal_strlit("");
        }
        push_line(&mut lines, "---".to_string());
        let empty = String::new();
        assert(empty@ == ""@);
        push_line(&mut lines, empty);
        let body = self.body.clone();
        assert(body@ == self.body@);
        push_line(&mut lines, body);
        push_line(&mut lines, String::new());
        assert(string_views(lines@) =~= middle + seq!["---"@, ""@, self.body@, ""@]);
        assert(string_views(lines@) == markdown_lines(*self));
        join_lines(&lines)
    }
}

} // verus!
