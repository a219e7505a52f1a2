//! What the importer asks the Mastodon API for, how far it pages back, and
//! what it does with each status.

use vstd::prelude::*;
use crate::sync_mastodon::status::{importable_visibility, MastodonStatus};
use crate::text::{chars_of, strip_end_char, string_of, trim_end_char};

verus! {

/// The API address of the account: the base URL without trailing slashes,
/// then `/api/v1/accounts/` and the account id.
pub open spec fn account_url_of(base_url: Seq<char>, account_id: Seq<char>) -> Seq<char> {
    strip_end_char(base_url, '/') + "/api/v1/accounts/"@ + account_id
}

/// The API address of the account's statuses.
pub open spec fn statuses_url_of(base_url: Seq<char>, account_id: Seq<char>) -> Seq<char> {
    account_url_of(base_url, account_id) + "/statuses"@
}

/// The API address of the account.
pub fn account_url(base_url: &str, account_id: &str) -> (r: String)
    ensures
        r@ == account_url_of(base_url@, account_id@),
{
    let base = string_of(&trim_end_char(&chars_of(base_url), '/'));
    let mut r = base;
    r.append("/api/v1/accounts/");
    r.append(account_id);
    r
}

/// The API address of the account's statuses.
pub fn statuses_url(base_url: &str, account_id: &str) -> (r: String)
    ensures
        r@ == statuses_url_of(base_url@, account_id@),
{
    let mut r = account_url(base_url, account_id);
    r.append("/statuses");
    r
}

/// The views of query pairs.
pub open spec fn pair_views(pairs: Seq<(String, String)>) -> Seq<(Seq<char>, Seq<char>)> {
    pairs.map_values(|p: (String, String)| (p.0@, p.1@))
}

/// The query of a page of statuses: forty statuses, without reblogs and
/// replies, older than `max_id` where one is given.
pub open spec fn status_page_query_of(max_id: Option<Seq<char>>) -> Seq<(Seq<char>, Seq<char>)> {
    seq![("limit"@, "40"@), ("exclude_reblogs"@, "true"@), ("exclude_replies"@, "true"@)]
        + match max_id {
            Some(id) => seq![("max_id"@, id)],
            None => seq![],
        }
}

/// The query pairs of a page of statuses.
pub fn status_page_query(max_id: Option<&str>) -> (r: Vec<(String, String)>)
    ensures
        pair_views(r@) == status_page_query_of(match max_id {
            Some(id) => Some(id@),
            None => None,
        }),
{
    let mut r: Vec<(String, String)> = Vec::new();
    r.push(("limit".to_string(), "40".to_string()));
    r.push(("exclude_reblogs".to_string(), "true".to_string()));
    r.push(("exclude_replies".to_string(), "true".to_string()));
    match max_id {
        Some(id) => {
            r.push(("max_id".to_string(), id.to_string()));
        },
        None => {},
    }
    assert(pair_views(r@) =~= status_page_query_of(match max_id {
        Some(id) => Some(id@),
        None => None,
    }));
    r
}

/// Is `id` among the ids of notes already imported?
pub open spec fn known_id(existing: Seq<String>, id: Seq<char>) -> bool {
    exists|k: int| 0 <= k < existing.len() && (#[trigger] existing[k])@ == id
}

/// The position of the first status of the page from `start` on whose id is
/// already imported.
pub open spec fn first_known_from(page: Seq<MastodonStatus>, existing: Seq<String>, start: int) -> Option<int>
    decreases page.len() - start,
{
    if start < 0 || start >= page.len() {
        None
    } else if known_id(existing, page[start].id@) {
        Some(start)
    } else {
        first_known_from(page, existing, start + 1)
    }
}

/// The position of the first status of the page whose id is already
/// imported.
pub open spec fn first_known(page: Seq<MastodonStatus>, existing: Seq<String>) -> Option<int> {
    first_known_from(page, existing, 0)
}

/// What to do after a page of statuses has come.
#[derive(Debug, Clone)]
pub enum PageStep {
    /// Keep the first `keep` statuses of the page and stop.
    Finish { keep: usize },
    /// Keep the whole page and ask for the statuses older than `max_id`.
    Next { max_id: String },
}

/// The step after a page: an empty page ends the walk; without a full sync,
/// a first run (nothing imported yet) keeps the page and stops, and a page
/// that reaches an imported status keeps what comes before it and stops;
/// otherwise the page is kept and the walk goes on from its last status.
pub open spec fn page_step_fits(
    page: Seq<MastodonStatus>,
    existing: Seq<String>,
    full_sync: bool,
    step: PageStep,
) -> bool {
    if page.len() == 0 {
        step == PageStep::Finish { keep: 0 }
    } else if !full_sync && existing.len() == 0 {
        step == PageStep::Finish { keep: page.len() as usize }
    } else if !full_sync && first_known(page, existing) is Some {
        step == PageStep::Finish { keep: first_known(page, existing)->0 as usize }
    } else {
        step matches PageStep::Next { max_id } && max_id@ == page.last().id@
    }
}

/// How many statuses of the page a step keeps.
pub open spec fn kept(page: Seq<MastodonStatus>, step: PageStep) -> int {
    match step {
        PageStep::Finish { keep } => keep as int,
        PageStep::Next { .. } => page.len() as int,
    }
}

proof fn lemma_first_known_from(page: Seq<MastodonStatus>, existing: Seq<String>, start: int)
    requires
        0 <= start <= page.len(),
    ensures
        first_known_from(page, existing, start) matches Some(i) ==> start <= i < page.len()
            && known_id(existing, page[i].id@)
            && forall|j: int| start <= j < i ==> !known_id(existing, #[trigger] page[j].id@),
        first_known_from(page, existing, start) is None ==> forall|j: int|
            start <= j < page.len() ==> !known_id(existing, #[trigger] page[j].id@),
    decreases page.len() - start,
{
    if start < page.len() && !known_id(existing, page[start].id@) {
        lemma_first_known_from(page, existing, start + 1);
    }
}

/// Is `id` among the imported ids?
pub fn is_known(existing: &Vec<String>, id: &String) -> (r: bool)
    ensures
        r == known_id(existing@, id@),
{
    let mut k: usize = 0;
    while k < existing.len()
        invariant
            k <= existing@.len(),
            forall|q: int| 0 <= q < k ==> (#[trigger] existing@[q])@ != id@,
        decreases existing.len() - k,
    {
        if existing[k] == *id {
            assert(existing@[k as int]@ == id@);
            return true;
        }
        k += 1;
    }
    false
}

/// Decides what to keep of a page of statuses and whether to ask for more.
/// Without a full sync, no status whose id is already imported is kept.
pub fn plan_page(page: &Vec<MastodonStatus>, existing: &Vec<String>, full_sync: bool) -> (r: PageStep)
    ensures
        page_step_fits(page@, existing@, full_sync, r),
        0 <= kept(page@, r) <= page@.len(),
        !full_sync ==> forall|i: int| 0 <= i < kept(page@, r) ==> !known_id(existing@, #[trigger] page@[i].id@),
{
    if page.len() == 0 {
        return PageStep::Finish { keep: 0 };
    }
    if !full_sync && existing.len() == 0 {
        return PageStep::Finish { keep: page.len() };
    }
    proof {
        lemma_first_known_from(page@, existing@, 0);
    }
    if !full_sync {
        let mut i: usize = 0;
        while i < page.len()
            invariant
                !full_sync,
                i <= page@.len(),
                first_known(page@, existing@) == first_known_from(page@, existing@, i as int),
                forall|j: int| 0 <= j < i ==> !known_id(existing@, #[trigger] page@[j].id@),
            decreases page.len() - i,
        {
            if is_known(existing, &page[i].id) {
                return PageStep::Finish { keep: i };
            }
            i += 1;
        }
    }
    let last: usize = page.len() - 1;
    PageStep::Next { max_id: page[last].id.clone() }
}

/// Adds the kept statuses of a page to those collected so far, and gives
/// the `max_id` of the next page to ask for, or `None` where the walk ends.
pub fn absorb_page(
    collected: &mut Vec<MastodonStatus>,
    page: Vec<MastodonStatus>,
    existing: &Vec<String>,
    full_sync: bool,
) -> (r: Option<String>)
    ensures
        exists|step: PageStep| {
            &&& #[trigger] page_step_fits(page@, existing@, full_sync, step)
            &&& final(collected)@ == old(collected)@ + page@.take(kept(page@, step))
            &&& match step {
                PageStep::Finish { .. } => r is None,
                PageStep::Next { max_id } => r == Some(max_id),
            }
        },
{
    let step = plan_page(&page, existing, full_sync);
    let keep = match &step {
        PageStep::Finish { keep } => *keep,
        PageStep::Next { .. } => page.len(),
    };
    let mut page = page;
    page.truncate(keep);
    collected.append(&mut page);
    match step {
        PageStep::Finish { .. } => None,
        PageStep::Next { max_id } => Some(max_id),
    }
}

/// What the importer does with a status.
#[derive(Debug, Clone, Copy, PartialEq, Eq, Structural)]
pub enum StatusAction {
    /// Not public or unlisted: left out.
    SkipVisibility,
    /// Already imported: left out.
    SkipExisting,
    /// Written as a new note file.
    Write,
    /// Reported as the note file that would be written.
    DryRun,
}

/// The action for a status: its visibility is checked first, then whether
/// it is already imported, then whether files are written.
pub open spec fn status_action(status: MastodonStatus, existing: Seq<String>, write_files: bool) -> StatusAction {
    if !importable_visibility(status.visibility@) {
        StatusAction::SkipVisibility
    } else if known_id(existing, status.id@) {
        StatusAction::SkipExisting
    } else if write_files {
        StatusAction::Write
    } else {
        StatusAction::DryRun
    }
}

/// Decides what the importer does with a status.
pub fn plan_status(status: &MastodonStatus, existing: &Vec<String>, write_files: bool) -> (r: StatusAction)
    ensures
        r == status_action(*status, existing@, write_files),
{
    if !status.is_importable_visibility() {
        StatusAction::SkipVisibility
    } else if is_known(existing, &status.id) {
        StatusAction::SkipExisting
    } else if write_files {
        StatusAction::Write
    } else {
        StatusAction::DryRun
    }
}

} // verus!
