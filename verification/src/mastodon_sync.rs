//! The mode of an import run and the counts it reports.

use vstd::prelude::*;
use crate::sync_mastodon::config::{mode_text, sync_mode};
use crate::sync_mastodon::plan::StatusAction;

verus! {

/// Whether an import run writes files, and whether it fetches every status.
#[derive(Debug, Clone, Copy, PartialEq, Eq, Structural)]
pub struct SyncMode {
    pub write_files: bool,
    pub full_sync: bool,
}

impl SyncMode {
    pub fn new(write_files: bool, full_sync: bool) -> (r: Self)
        ensures
            r.write_files == write_files,
            r.full_sync == full_sync,
    {
        SyncMode { write_files, full_sync }
    }

    /// The mode as its `Display` shows it: `write` or `dry-run`, a slash,
    /// then `full` or `incremental`.
    pub fn label(&self) -> (r: String)
        ensures
            r@ == mode_text(self.write_files, self.full_sync),
    {
        sync_mode(self.write_files, self.full_sync).to_string()
    }
}

/// Each of the four modes has its own text, so a run's reported mode tells
/// both of its flags.
pub proof fn lemma_mode_text_distinct(a: SyncMode, b: SyncMode)
    requires
        mode_text(a.write_files, a.full_sync) == mode_text(b.write_files, b.full_sync),
    ensures
        a == b,
{
    reveal_strlit("write/full");
    reveal_strlit("write/incremental");
    reveal_strlit("dry-run/full");
    reveal_strlit("dry-run/incremental");
    assert(mode_text(true, true).len() == 10);
    assert(mode_text(true, false).len() == 17);
    assert(mode_text(false, true).len() == 12);
    assert(mode_text(false, false).len() == 19);
    assert(mode_text(a.write_files, a.full_sync).len() == mode_text(b.write_files, b.full_sync).len());
}

/// The counts of an import run.
#[derive(Debug, Clone, Copy, PartialEq, Eq, Structural)]
pub struct SyncSummary {
    pub fetched: usize,
    pub written: usize,
    pub updated: usize,
    pub dry_run: usize,
    pub skipped_existing: usize,
    pub skipped_visibility: usize,
}

impl SyncSummary {
    /// A summary of `fetched` statuses with nothing done yet.
    pub fn new(fetched: usize) -> (r: Self)
        ensures
            r == (SyncSummary {
                fetched,
                written: 0,
                updated: 0,
                dry_run: 0,
                skipped_existing: 0,
                skipped_visibility: 0,
            }),
    {
        SyncSummary {
            fetched,
            written: 0,
            updated: 0,
            dry_run: 0,
            skipped_existing: 0,
            skipped_visibility: 0,
        }
    }

    /// The number of statuses whose action has been counted.
    pub open spec fn handled(self) -> int {
        self.written + self.dry_run + self.skipped_existing + self.skipped_visibility
    }

    /// Counts the action taken for one status.
    pub fn record(&mut self, action: StatusAction)
        requires
            match action {
                StatusAction::SkipVisibility => old(self).skipped_visibility < usize::MAX,
                StatusAction::SkipExisting => old(self).skipped_existing < usize::MAX,
                StatusAction::Write => old(self).written < usize::MAX,
                StatusAction::DryRun => old(self).dry_run < usize::MAX,
            },
        ensures
            final(self).handled() == old(self).handled() + 1,
            final(self).fetched == old(self).fetched,
            final(self).updated == old(self).updated,
            final(self).written == old(self).written + if action == StatusAction::Write { 1int } else { 0 },
            final(self).dry_run == old(self).dry_run + if action == StatusAction::DryRun { 1int } else { 0 },
            final(self).skipped_existing == old(self).skipped_existing
                + if action == StatusAction::SkipExisting { 1int } else { 0 },
            final(self).skipped_visibility == old(self).skipped_visibility
                + if action == StatusAction::SkipVisibility { 1int } else { 0 },
    {
        match action {
            StatusAction::SkipVisibility => self.skipped_visibility += 1,
            StatusAction::SkipExisting => self.skipped_existing += 1,
            StatusAction::Write => self.written += 1,
            StatusAction::DryRun => self.dry_run += 1,
        }
    }
}

} // verus!
