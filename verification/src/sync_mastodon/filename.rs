//! The file names of imported notes.

use vstd::prelude::*;
use crate::time::{file_stamp, parse_error_text, rfc3339_utc, utc_file_stamp};

verus! {

/// Why a note file name could not be made.
#[derive(Debug)]
pub enum NoteFilenameError {
    /// The status's `created_at` is not an RFC 3339 timestamp.
    InvalidCreatedAt { value: String, source: chrono::ParseError },
}

impl NoteFilenameError {
    /// The error's text, as its `Display` shows it: the rejected value,
    /// then the parser's own text.
    pub fn message(&self) -> (r: String)
        ensures
            match self {
                NoteFilenameError::InvalidCreatedAt { value, .. } => exists|reason: Seq<char>|
                    r@ == "invalid Mastodon created_at value '"@ + value@ + "': "@ + reason,
            },
    {
        match self {
            NoteFilenameError::InvalidCreatedAt { value, source } => {
                let mut r = "invalid Mastodon created_at value '".to_string();
                r.append(value.as_str());
                r.append("': ");
                let reason = parse_error_text(source);
                r.append(reason.as_str());
                assert(r@ == "invalid Mastodon created_at value '"@ + value@ + "': "@ + reason@);
                r
            },
        }
    }
}

/// The file name of a note whose UTC time stamp is `stamp`: the stamp, then
/// `-` and the collision suffix where there is one, then `.md`.
pub open spec fn stamped_file_name(stamp: Seq<char>, suffix: Option<Seq<char>>) -> Seq<char> {
    match suffix {
        Some(s) => stamp + "-"@ + s + ".md"@,
        None => stamp + ".md"@,
    }
}

/// The view of an optional text.
pub open spec fn text_option(t: Option<&str>) -> Option<Seq<char>> {
    match t {
        Some(s) => Some(s@),
        None => None,
    }
}

/// The file name for the time stamp `stamp` and an optional collision
/// suffix.
pub fn file_name_for_stamp(stamp: &str, collision_suffix: Option<&str>) -> (r: String)
    ensures
        r@ == stamped_file_name(stamp@, text_option(collision_suffix)),
{
    let mut r = stamp.to_string();
    match collision_suffix {
        Some(suffix) => {
            r.append("-");
            r.append(suffix);
            r.append(".md");
        },
        None => {
            r.append(".md");
        },
    }
    r
}

/// The file name of a note created at `created_at` (an RFC 3339 timestamp),
/// from its moment in UTC, with the collision suffix where one is given.
pub fn note_filename(created_at: &str, collision_suffix: Option<&str>) -> (r: Result<String, NoteFilenameError>)
    ensures
        match rfc3339_utc(created_at@) {
            Some(fields) => r matches Ok(name)
                && name@ == stamped_file_name(file_stamp(fields), text_option(collision_suffix)),
            None => r matches Err(NoteFilenameError::InvalidCreatedAt { value, .. })
                && value@ == created_at@,
        },
{
    match utc_file_stamp(created_at) {
        Ok(stamp) => Ok(file_name_for_stamp(stamp.as_str(), collision_suffix)),
        Err(source) => Err(NoteFilenameError::InvalidCreatedAt { value: created_at.to_string(), source }),
    }
}

} // verus!
