//! Where the importer reads from and writes to.

use vstd::prelude::*;
use crate::config::{required_env, required_env_spec, value_or, EnvConfigError, EnvValue};
use crate::sync_mastodon::filename::{note_filename, stamped_file_name, NoteFilenameError};
use crate::sync_mastodon::status::MastodonNote;
use crate::text::{join_path, path_join};
use crate::time::{file_stamp, rfc3339_utc};

verus! {

/// Why the importer's configuration could not be read.
pub type MastodonSyncConfigError = EnvConfigError;

/// The Mastodon account to import from and the content directory to write
/// notes into.
#[derive(Debug, Clone)]
pub struct MastodonSyncConfig {
    pub base_url: String,
    pub access_token: String,
    pub account_id: String,
    pub content_dir: String,
}

/// The notes directory under a content directory.
pub open spec fn notes_dir_of(content_dir: Seq<char>) -> Seq<char> {
    path_join(content_dir, "notes"@)
}

impl MastodonSyncConfig {
    /// The configuration from `MASTODON_BASE_URL`, `MASTODON_ACCESS_TOKEN`
    /// and `MASTODON_ACCOUNT_ID` (each required, read in that order) and
    /// `CONTENT_DIR` (default `content`).
    pub fn from_env(
        base_url: EnvValue,
        access_token: EnvValue,
        account_id: EnvValue,
        content_dir: EnvValue,
    ) -> (r: Result<Self, MastodonSyncConfigError>)
        ensures
            match required_env_spec("MASTODON_BASE_URL", base_url) {
                Err(e) => r == Err::<Self, EnvConfigError>(e),
                Ok(b) => match required_env_spec("MASTODON_ACCESS_TOKEN", access_token) {
                    Err(e) => r == Err::<Self, EnvConfigError>(e),
                    Ok(t) => match required_env_spec("MASTODON_ACCOUNT_ID", account_id) {
                        Err(e) => r == Err::<Self, EnvConfigError>(e),
                        Ok(a) => r matches Ok(config) && {
                            &&& config.base_url == b
                            &&& config.access_token == t
                            &&& config.account_id == a
                            &&& config.content_dir@ == match content_dir {
                                EnvValue::Present(v) => v@,
                                _ => "content"@,
                            }
                        },
                    },
                },
            },
    {
        let base_url = match required_env("MASTODON_BASE_URL", base_url) {
            Ok(v) => v,
            Err(e) => return Err(e),
        };
        let access_token = match required_env("MASTODON_ACCESS_TOKEN", access_token) {
            Ok(v) => v,
            Err(e) => return Err(e),
        };
        let account_id = match required_env("MASTODON_ACCOUNT_ID", account_id) {
            Ok(v) => v,
            Err(e) => return Err(e),
        };
        let content_dir = value_or(content_dir, "content");
        Ok(MastodonSyncConfig { base_url, access_token, account_id, content_dir })
    }

    /// The directory the notes are written to: `notes` under the content
    /// directory.
    pub fn notes_dir(&self) -> (r: String)
        ensures
            r@ == notes_dir_of(self.content_dir@),
    {
        join_path(self.content_dir.as_str(), "notes")
    }
}

/// The text that describes a run of the importer: whether it writes files
/// or only reports, and whether it fetches everything or stops at notes it
/// already has.
pub open spec fn mode_text(write_files: bool, full_sync: bool) -> Seq<char> {
    if write_files {
        if full_sync { "write/full"@ } else { "write/incremental"@ }
    } else {
        if full_sync { "dry-run/full"@ } else { "dry-run/incremental"@ }
    }
}

/// Describes a run of the importer.
pub fn sync_mode(write_files: bool, full_sync: bool) -> (r: &'static str)
    ensures
        r@ == mode_text(write_files, full_sync),
{
    match (write_files, full_sync) {
        (true, true) => "write/full",
        (true, false) => "write/incremental",
        (false, true) => "dry-run/full",
        (false, false) => "dry-run/incremental",
    }
}

/// Where a note is written: its file name in the notes directory; where a
/// file of that name is already there, the name with the status id as a
/// collision suffix.
pub fn note_path(
    config: &MastodonSyncConfig,
    note: &MastodonNote,
    primary_exists: bool,
) -> (r: Result<String, NoteFilenameError>)
    ensures
        match rfc3339_utc(note.created_at@) {
            Some(fields) => r matches Ok(path) && path@ == path_join(
                notes_dir_of(config.content_dir@),
                stamped_file_name(
                    file_stamp(fields),
                    if primary_exists { Some(note.source_id@) } else { None },
                ),
            ),
            None => r matches Err(NoteFilenameError::InvalidCreatedAt { value, .. })
                && value@ == note.created_at@,
        },
{
    let filename = match note_filename(note.created_at.as_str(), None) {
        Ok(name) => name,
        Err(e) => return Err(e),
    };
    let dir = config.notes_dir();
    if primary_exists {
        let suffixed = match note_filename(note.created_at.as_str(), Some(note.source_id.as_str())) {
            Ok(name) => name,
            Err(e) => return Err(e),
        };
        return Ok(join_path(dir.as_str(), suffixed.as_str()));
    }
    Ok(join_path(dir.as_str(), filename.as_str()))
}

/// Where a note's file name is taken, the path with the collision suffix is
/// another path, so writing there never overwrites the existing file.
pub proof fn lemma_collision_path_differs(content_dir: Seq<char>, stamp: Seq<char>, source_id: Seq<char>)
    ensures
        path_join(notes_dir_of(content_dir), stamped_file_name(stamp, Some(source_id)))
            != path_join(notes_dir_of(content_dir), stamped_file_name(stamp, None)),
{
    reveal_strlit(".md");
    reveal_strlit("-");
    let dir = notes_dir_of(content_dir);
    let plain = stamped_file_name(stamp, None);
    let suffixed = stamped_file_name(stamp, Some(source_id));
    assert(plain.len() == stamp.len() + 3);
    assert(suffixed.len() == stamp.len() + 1 + source_id.len() + 3);
    if stamp.len() > 0 {
        assert(plain[0] == stamp[0]);
        assert(suffixed[0] == stamp[0]);
    } else {
        assert(plain[0] == '.');
        assert(suffixed[0] == '-');
    }
    assert(path_join(dir, suffixed).len() != path_join(dir, plain).len());
}

} // verus!
