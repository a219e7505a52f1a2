use content_paulmcbride_com::mastodon_sync::{SyncMode, SyncSummary};
use content_paulmcbride_com::sync_mastodon::plan::StatusAction;

#[test]
fn mastodon_sync_describes_sync_modes() {
    assert_eq!(SyncMode::new(false, false).label(), "dry-run/incremental");
    assert_eq!(SyncMode::new(true, false).label(), "write/incremental");
    assert_eq!(SyncMode::new(false, true).label(), "dry-run/full");
    assert_eq!(SyncMode::new(true, true).label(), "write/full");
}

#[test]
fn initializes_sync_summary_counters() {
    let summary = SyncSummary::new(3);

    assert_eq!(summary.fetched, 3);
    assert_eq!(summary.written, 0);
    assert_eq!(summary.updated, 0);
    assert_eq!(summary.dry_run, 0);
    assert_eq!(summary.skipped_existing, 0);
    assert_eq!(summary.skipped_visibility, 0);
}

#[test]
fn counts_each_action_once() {
    let mut summary = SyncSummary::new(4);
    summary.record(StatusAction::SkipVisibility);
    summary.record(StatusAction::SkipExisting);
    summary.record(StatusAction::Write);
    summary.record(StatusAction::DryRun);

    assert_eq!(summary.written, 1);
    assert_eq!(summary.dry_run, 1);
    assert_eq!(summary.skipped_existing, 1);
    assert_eq!(summary.skipped_visibility, 1);
    assert_eq!(summary.updated, 0);
    assert_eq!(summary.fetched, 4);
}
