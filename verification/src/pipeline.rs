//! Decision core of the discovery pipeline.
//!
//! The outer crawl loop walks the listing endpoint page by page. The
//! decisions of one iteration live here: advance the cursor over every
//! listed repository (forks included), collect the node ids of non-fork
//! entries, cut full enrichment batches, and recognize the end of the
//! listing. The language filter and the marker-file inspection of the
//! enrichment step live here too. Driving the network calls around these
//! decisions is the surrounding runtime's job.

use vstd::prelude::*;

use crate::data::Repo;
use crate::PAGE_SIZE;
use vstd::string::StringExecFns;

verus! {

/// One entry of a listing page, as the listing endpoint reports it.
#[derive(Debug, Clone)]
pub struct RestRepository {
    pub id: usize,
    pub full_name: String,
    pub node_id: String,
    pub fork: bool,
}

/// The default-branch reference of a repository summary.
#[derive(Debug, Clone)]
pub struct GraphRef {
    pub name: String,
}

/// One language of a repository's breakdown.
#[derive(Debug, Clone)]
pub struct GraphLanguage {
    pub name: String,
}

/// A repository's language breakdown, largest first; absent entries come
/// from deleted languages and are skipped.
#[derive(Debug, Clone)]
pub struct GraphLanguages {
    pub nodes: Vec<Option<GraphLanguage>>,
}

/// One repository summary from the batch query endpoint.
#[derive(Debug, Clone)]
pub struct GraphRepository {
    pub id: String,
    pub name_with_owner: String,
    pub default_branch_ref: Option<GraphRef>,
    pub languages: GraphLanguages,
}

/// Kinds of error entry a query response can carry; `NotFound` entries
/// are benign and skipped, everything else is reported.
#[derive(Debug, Clone)]
pub enum GitHubErrorType {
    NotFound,
    Other(String),
}

/// Whether a query error entry may be skipped silently.
pub fn error_is_ignorable(t: &GitHubErrorType) -> (b: bool)
    ensures
        b == (t matches GitHubErrorType::NotFound),
{
    match t {
        GitHubErrorType::NotFound => true,
        GitHubErrorType::Other(_) => false,
    }
}

/// The cursor after walking a page: the starting cursor or the largest
/// listed id, whichever is greater. Forks advance the cursor like any
/// other entry, so a later resume never restarts below a fork's id.
pub open spec fn cursor_after_page(cursor: usize, page: Seq<RestRepository>) -> usize
    decreases page.len(),
{
    if page.len() == 0 {
        cursor
    } else {
        let prev = cursor_after_page(cursor, page.drop_last());
        if page.last().id > prev {
            page.last().id
        } else {
            prev
        }
    }
}

/// The node ids of a page's non-fork entries, in listing order.
pub open spec fn non_fork_node_ids(page: Seq<RestRepository>) -> Seq<String>
    decreases page.len(),
{
    if page.len() == 0 {
        Seq::empty()
    } else {
        non_fork_node_ids(page.drop_last()) + (if page.last().fork {
            Seq::<String>::empty()
        } else {
            seq![page.last().node_id]
        })
    }
}

/// All ids dispatched in a sequence of batches, in dispatch order.
pub open spec fn concat_batches(batches: Seq<Vec<String>>) -> Seq<String>
    decreases batches.len(),
{
    if batches.len() == 0 {
        Seq::empty()
    } else {
        concat_batches(batches.drop_last()) + batches.last()@
    }
}

/// What one listing page leaves behind: the advanced cursor, the full
/// batches to dispatch to enrichment, the ids still waiting for a full
/// batch, and whether the listing is exhausted.
pub struct PageOutcome {
    pub cursor: usize,
    pub batches: Vec<Vec<String>>,
    pub pending: Vec<String>,
    pub end_of_listing: bool,
}

/// Processes one listing page: the cursor advances over every entry,
/// forks are skipped entirely, non-fork node ids queue up behind the
/// carried-over `pending` ids, and every `PAGE_SIZE` of them becomes one
/// dispatched batch. A short page is the end of the listing.
pub fn process_page(cursor: usize, pending: Vec<String>, page: &Vec<RestRepository>) -> (o:
    PageOutcome)
    requires
        pending@.len() < PAGE_SIZE,
    ensures
        o.cursor == cursor_after_page(cursor, page@),
        o.cursor >= cursor,
        concat_batches(o.batches@) + o.pending@ == pending@ + non_fork_node_ids(page@),
        forall|b: int| 0 <= b < o.batches@.len() ==> (#[trigger] o.batches@[b])@.len() == PAGE_SIZE,
        o.pending@.len() < PAGE_SIZE,
        o.end_of_listing == (page@.len() < PAGE_SIZE),
{
    let mut cur = cursor;
    let mut pend = pending;
    let mut batches: Vec<Vec<String>> = Vec::new();
    let ghost pending0 = pend@;
    proof {
        assert(concat_batches(batches@) + pend@ =~= pending0 + non_fork_node_ids(page@.take(0)));
    }
    let mut i: usize = 0;
    while i < page.len()
        invariant
            i <= page@.len(),
            cur == cursor_after_page(cursor, page@.take(i as int)),
            cur >= cursor,
            concat_batches(batches@) + pend@ == pending0 + non_fork_node_ids(page@.take(i as int)),
            forall|b: int| 0 <= b < batches@.len() ==> (#[trigger] batches@[b])@.len() == PAGE_SIZE,
            pend@.len() < PAGE_SIZE,
        decreases page@.len() - i,
    {
        let ghost batches_pre = batches@;
        let ghost pend_pre = pend@;
        let entry = &page[i];
        if entry.id > cur {
            cur = entry.id;
        }
        if !entry.fork {
            let id = entry.node_id.clone();
            proof {
                assert(id == page@[i as int].node_id);
            }
            pend.push(id);
            if pend.len() == PAGE_SIZE {
                let mut full: Vec<String> = Vec::new();
                core::mem::swap(&mut full, &mut pend);
                proof {
                    assert(full@ == pend_pre.push(page@[i as int].node_id));
                }
                batches.push(full);
                proof {
                    assert(batches@.drop_last() =~= batches_pre);
                    assert(concat_batches(batches@) == concat_batches(batches_pre)
                        + pend_pre.push(page@[i as int].node_id));
                }
            }
        }
        proof {
            let prefix = page@.take(i as int);
            let prefix2 = page@.take(i + 1);
            assert(prefix2.drop_last() =~= prefix);
            assert(prefix2.last() == page@[i as int]);
            assert(cur == cursor_after_page(cursor, prefix2));
            if page@[i as int].fork {
                assert(non_fork_node_ids(prefix2) =~= non_fork_node_ids(prefix));
            } else {
                assert(non_fork_node_ids(prefix2) == non_fork_node_ids(prefix) + seq![
                    page@[i as int].node_id,
                ]);
                assert(concat_batches(batches@) + pend@ =~= (concat_batches(batches_pre)
                    + pend_pre) + seq![page@[i as int].node_id]);
                assert((concat_batches(batches_pre) + pend_pre) + seq![page@[i as int].node_id]
                    =~= pending0 + non_fork_node_ids(prefix2));
            }
        }
        i = i + 1;
    }
    proof {
        assert(page@.take(page@.len() as int) =~= page@);
    }
    let end_of_listing = page.len() < PAGE_SIZE;
    PageOutcome { cursor: cur, batches, pending: pend, end_of_listing }
}

/// The cursor after a whole crawl: pages are processed in order, each
/// starting from the cursor the previous one left.
pub open spec fn cursor_after_pages(cursor: usize, pages: Seq<Seq<RestRepository>>) -> usize
    decreases pages.len(),
{
    if pages.len() == 0 {
        cursor
    } else {
        cursor_after_page(cursor_after_pages(cursor, pages.drop_last()), pages.last())
    }
}

/// One page never lowers the cursor, never loses an id, and lands either
/// on the starting cursor or on a listed id.
pub proof fn lemma_page_cursor_max(cursor: usize, page: Seq<RestRepository>)
    ensures
        cursor_after_page(cursor, page) >= cursor,
        forall|k: int|
            0 <= k < page.len() ==> (#[trigger] page[k]).id <= cursor_after_page(cursor, page),
        cursor_after_page(cursor, page) == cursor || exists|k: int|
            0 <= k < page.len() && (#[trigger] page[k]).id == cursor_after_page(cursor, page),
    decreases page.len(),
{
    if page.len() > 0 {
        lemma_page_cursor_max(cursor, page.drop_last());
        let res = cursor_after_page(cursor, page);
        assert forall|k: int| 0 <= k < page.len() implies (#[trigger] page[k]).id <= res by {
            if k < page.len() - 1 {
                assert(page.drop_last()[k] == page[k]);
            }
        }
        if res != cursor {
            if res == page.last().id {
                assert(page[page.len() - 1].id == res);
            } else {
                let prev = cursor_after_page(cursor, page.drop_last());
                let k = choose|k: int|
                    0 <= k < page.drop_last().len() && (#[trigger] page.drop_last()[k]).id == prev;
                assert(page[k].id == res);
            }
        }
    }
}

/// Monotonic cursor: across any crawl, the cursor recorded after each
/// page never decreases.
pub proof fn lemma_cursor_monotonic(cursor: usize, pages: Seq<Seq<RestRepository>>, i: int, j: int)
    requires
        0 <= i <= j <= pages.len(),
    ensures
        cursor_after_pages(cursor, pages.take(i)) <= cursor_after_pages(cursor, pages.take(j)),
    decreases j - i,
{
    if i < j {
        lemma_cursor_monotonic(cursor, pages, i, j - 1);
        let prefix = pages.take(j - 1);
        let prefix2 = pages.take(j);
        assert(prefix2.drop_last() =~= prefix);
        assert(prefix2.last() == pages[j - 1]);
        lemma_page_cursor_max(cursor_after_pages(cursor, prefix), pages[j - 1]);
    }
}

/// Monotonic cursor, maximum form: after any crawl the cursor equals the
/// largest id observed across all pages, forks included, or the starting
/// cursor when no id exceeds it.
pub proof fn lemma_cursor_is_max(cursor: usize, pages: Seq<Seq<RestRepository>>)
    ensures
        cursor_after_pages(cursor, pages) >= cursor,
        forall|p: int, k: int|
            0 <= p < pages.len() && 0 <= k < pages[p].len() ==> (#[trigger] pages[p][k]).id
                <= cursor_after_pages(cursor, pages),
        cursor_after_pages(cursor, pages) == cursor || exists|p: int, k: int|
            0 <= p < pages.len() && 0 <= k < pages[p].len() && (#[trigger] pages[p][k]).id
                == cursor_after_pages(cursor, pages),
    decreases pages.len(),
{
    if pages.len() > 0 {
        let inner = pages.drop_last();
        lemma_cursor_is_max(cursor, inner);
        let mid = cursor_after_pages(cursor, inner);
        let res = cursor_after_pages(cursor, pages);
        lemma_page_cursor_max(mid, pages.last());
        assert forall|p: int, k: int|
            0 <= p < pages.len() && 0 <= k < pages[p].len() implies (#[trigger] pages[p][k]).id
            <= res by {
            if p < pages.len() - 1 {
                assert(inner[p] == pages[p]);
            } else {
                assert(pages.last()[k].id <= res);
            }
        }
        if res != cursor {
            if res == mid {
                let (p, k) = choose|p: int, k: int|
                    0 <= p < inner.len() && 0 <= k < inner[p].len() && (#[trigger] inner[p][k]).id
                        == mid;
                assert(pages[p][k].id == res);
            } else {
                let k = choose|k: int|
                    0 <= k < pages.last().len() && (#[trigger] pages.last()[k]).id == res;
                assert(pages[pages.len() - 1][k].id == res);
            }
        }
    }
}

/// Idempotent resume: a crawl restarted from a persisted cursor only ever
/// issues listing requests at or above that cursor. Each request asks for
/// ids strictly greater than the cursor it carries, so ids at or below
/// the persisted cursor are never queried again.
pub proof fn lemma_resume_no_requery(cursor: usize, pages: Seq<Seq<RestRepository>>, i: int)
    requires
        0 <= i <= pages.len(),
    ensures
        cursor_after_pages(cursor, pages.take(i)) >= cursor,
{
    assert(pages.take(0) =~= Seq::<Seq<RestRepository>>::empty());
    lemma_cursor_monotonic(cursor, pages, 0, i);
}

/// Fork exclusion: every node id a page contributes to enrichment stems
/// from a non-fork entry of that page; forked repositories are never
/// dispatched, never enriched, and so never stored.
pub proof fn lemma_fork_exclusion(page: Seq<RestRepository>)
    ensures
        forall|t: int|
            #![trigger non_fork_node_ids(page)[t]]
            0 <= t < non_fork_node_ids(page).len() ==> exists|k: int|
                0 <= k < page.len() && !(#[trigger] page[k]).fork && page[k].node_id
                    == non_fork_node_ids(page)[t],
    decreases page.len(),
{
    if page.len() > 0 {
        lemma_fork_exclusion(page.drop_last());
        let ids = non_fork_node_ids(page);
        let inner = non_fork_node_ids(page.drop_last());
        assert forall|t: int|
            #![trigger ids[t]]
            0 <= t < ids.len() implies exists|k: int|
            0 <= k < page.len() && !(#[trigger] page[k]).fork && page[k].node_id == ids[t] by {
            if t < inner.len() {
                assert(ids[t] == inner[t]);
                let k = choose|k: int|
                    0 <= k < page.drop_last().len() && !(#[trigger] page.drop_last()[k]).fork
                        && page.drop_last()[k].node_id == inner[t];
                assert(0 <= k < page.len() && !page[k].fork && page[k].node_id == ids[t]);
            } else {
                assert(!page.last().fork);
                assert(ids[t] == page.last().node_id);
                assert(0 <= page.len() - 1 < page.len() && !page[page.len() - 1].fork && page[page
                    .len() - 1].node_id == ids[t]);
            }
        }
    }
}

/// Every node id a whole crawl hands to enrichment, in dispatch order:
/// page by page, the non-fork entries' ids.
pub open spec fn crawl_node_ids(pages: Seq<Seq<RestRepository>>) -> Seq<String>
    decreases pages.len(),
{
    if pages.len() == 0 {
        Seq::empty()
    } else {
        crawl_node_ids(pages.drop_last()) + non_fork_node_ids(pages.last())
    }
}

/// Fork exclusion over a whole crawl: every id ever dispatched stems from
/// a non-fork entry of one of the pages.
pub proof fn lemma_crawl_fork_exclusion(pages: Seq<Seq<RestRepository>>)
    ensures
        forall|t: int|
            #![trigger crawl_node_ids(pages)[t]]
            0 <= t < crawl_node_ids(pages).len() ==> exists|p: int, k: int|
                0 <= p < pages.len() && 0 <= k < pages[p].len() && !(#[trigger] pages[p][k]).fork
                    && pages[p][k].node_id == crawl_node_ids(pages)[t],
    decreases pages.len(),
{
    if pages.len() > 0 {
        lemma_crawl_fork_exclusion(pages.drop_last());
        lemma_fork_exclusion(pages.last());
        let ids = crawl_node_ids(pages);
        let inner = crawl_node_ids(pages.drop_last());
        assert forall|t: int|
            #![trigger ids[t]]
            0 <= t < ids.len() implies exists|p: int, k: int|
            0 <= p < pages.len() && 0 <= k < pages[p].len() && !(#[trigger] pages[p][k]).fork
                && pages[p][k].node_id == ids[t] by {
            if t < inner.len() {
                assert(ids[t] == inner[t]);
                let (p, k) = choose|p: int, k: int|
                    0 <= p < pages.drop_last().len() && 0 <= k < pages.drop_last()[p].len() && !(
                    #[trigger] pages.drop_last()[p][k]).fork && pages.drop_last()[p][k].node_id
                        == inner[t];
                assert(pages[p] == pages.drop_last()[p]);
                assert(!pages[p][k].fork && pages[p][k].node_id == ids[t]);
            } else {
                let last = non_fork_node_ids(pages.last());
                assert(ids[t] == last[t - inner.len()]);
                let k = choose|k: int|
                    0 <= k < pages.last().len() && !(#[trigger] pages.last()[k]).fork
                        && pages.last()[k].node_id == last[t - inner.len()];
                assert(!pages[pages.len() - 1][k].fork && pages[pages.len() - 1][k].node_id
                    == ids[t]);
            }
        }
    }
}

/// Whether a summary's language breakdown names the target language.
pub open spec fn spec_has_target_language(langs: GraphLanguages) -> bool {
    exists|i: int|
        0 <= i < langs.nodes@.len() && ((#[trigger] langs.nodes@[i]) matches Some(l) && l.name@
            == "Rust"@)
}

/// The language filter of the enrichment step: only repositories whose
/// breakdown names the target language proceed to tree inspection;
/// everything else is discarded without further lookups.
pub fn has_target_language(repo: &GraphRepository) -> (b: bool)
    ensures
        b == spec_has_target_language(repo.languages),
{
    let target = "Rust".to_owned();
    let nodes = &repo.languages.nodes;
    let mut i: usize = 0;
    while i < nodes.len()
        invariant
            nodes@ == repo.languages.nodes@,
            i <= nodes@.len(),
            target@ == "Rust"@,
            forall|k: int|
                0 <= k < i ==> !((#[trigger] nodes@[k]) matches Some(l) && l.name@ == "Rust"@),
        decreases nodes@.len() - i,
    {
        let node = &nodes[i];
        proof {
            assert(*node == repo.languages.nodes@[i as int]);
        }
        match node {
            Some(lang) => {
                if lang.name == target {
                    proof {
                        assert(repo.languages.nodes@[i as int] == Some(*lang));
                        assert((repo.languages.nodes@[i as int] matches Some(l) && l.name@
                            == "Rust"@));
                    }
                    return true;
                }
            },
            None => {},
        }
        i = i + 1;
    }
    false
}

impl GraphRepository {
    /// Turns an accepted summary into a record with the given marker
    /// flags.
    pub fn into_repo(self, has_cargo_toml: bool, has_cargo_lock: bool) -> (r: Repo)
        ensures
            r.id == self.id,
            r.name == self.name_with_owner,
            r.has_cargo_toml == has_cargo_toml,
            r.has_cargo_lock == has_cargo_lock,
    {
        Repo { id: self.id, name: self.name_with_owner, has_cargo_toml, has_cargo_lock }
    }
}

/// Whether a file tree contains a path, by exact match.
pub open spec fn tree_has_path(tree: Seq<String>, path: Seq<char>) -> bool {
    exists|i: int| 0 <= i < tree.len() && (#[trigger] tree[i])@ == path
}

/// Marks a record from its file tree: each flag records an exact path
/// match for its marker file. A failed tree fetch (`None`) leaves both
/// flags false; the record is still stored rather than dropped.
pub fn apply_tree(repo: &mut Repo, tree: Option<&Vec<String>>)
    ensures
        final(repo).id == old(repo).id,
        final(repo).name == old(repo).name,
        final(repo).has_cargo_toml == (tree matches Some(t) && tree_has_path(t@, "Cargo.toml"@)),
        final(repo).has_cargo_lock == (tree matches Some(t) && tree_has_path(t@, "Cargo.lock"@)),
{
    repo.has_cargo_toml = false;
    repo.has_cargo_lock = false;
    let paths = match tree {
        Some(t) => t,
        None => {
            return ;
        },
    };
    let toml = "Cargo.toml".to_owned();
    let lock = "Cargo.lock".to_owned();
    proof {
        reveal_strlit("Cargo.toml");
        reveal_strlit("Cargo.lock");
        assert("Cargo.toml"@[6] == 't');
        assert("Cargo.lock"@[6] == 'l');
        assert("Cargo.toml"@ != "Cargo.lock"@);
    }
    let mut i: usize = 0;
    while i < paths.len()
        invariant
            i <= paths@.len(),
            toml@ == "Cargo.toml"@,
            lock@ == "Cargo.lock"@,
            "Cargo.toml"@ != "Cargo.lock"@,
            repo.id == old(repo).id,
            repo.name == old(repo).name,
            repo.has_cargo_toml == (exists|k: int|
                0 <= k < i && (#[trigger] paths@[k])@ == "Cargo.toml"@),
            repo.has_cargo_lock == (exists|k: int|
                0 <= k < i && (#[trigger] paths@[k])@ == "Cargo.lock"@),
        decreases paths@.len() - i,
    {
        let p = &paths[i];
        if *p == toml {
            repo.has_cargo_toml = true;
            proof {
                assert(paths@[i as int]@ == "Cargo.toml"@);
            }
        } else if *p == lock {
            repo.has_cargo_lock = true;
            proof {
                assert(paths@[i as int]@ == "Cargo.lock"@);
            }
        }
        i = i + 1;
    }
    proof {
        assert(tree_has_path(paths@, "Cargo.toml"@) == (exists|k: int|
            0 <= k < paths@.len() && (#[trigger] paths@[k])@ == "Cargo.toml"@));
        assert(tree_has_path(paths@, "Cargo.lock"@) == (exists|k: int|
            0 <= k < paths@.len() && (#[trigger] paths@[k])@ == "Cargo.lock"@));
    }
}

/// Whether the run's wall-clock budget is exhausted; checked once per
/// outer-loop iteration.
pub fn timeout_reached(timeout: Option<u64>, elapsed_secs: u64) -> (b: bool)
    ensures
        b == (timeout matches Some(t) && elapsed_secs >= t),
{
    match timeout {
        Some(t) => elapsed_secs >= t,
        None => false,
    }
}

/// Minimum duration of one outer-loop iteration, in milliseconds.
pub const LOOP_PACE_MILLIS: u64 = 250;

/// How long an iteration that finished early must sleep before the next
/// one, so the loop never hammers the remote service.
pub fn pace_remainder(elapsed_millis: u64) -> (ms: u64)
    ensures
        ms == if elapsed_millis < LOOP_PACE_MILLIS {
            (LOOP_PACE_MILLIS - elapsed_millis) as u64
        } else {
            0u64
        },
{
    if elapsed_millis < LOOP_PACE_MILLIS {
        LOOP_PACE_MILLIS - elapsed_millis
    } else {
        0
    }
}

} // verus!
