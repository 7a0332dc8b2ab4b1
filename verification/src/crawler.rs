//! The traversal of a site: which page to fetch next, and what each fetched page adds to
//! the pages still to come.
//!
//! A session fetches nothing itself. It names the next URL; whoever drives it fetches
//! that URL and reports how it went.

use crate::distinct::contains_string;
use crate::html::HtmlRecord;
use crate::text::strings_view;
use crate::url::optional_view;
use vstd::prelude::*;

verus! {

/// The crawler that fetches pages directly over HTTP.
#[derive(Clone, Copy, Debug)]
pub struct BasicCrawler {}

/// One traversal of a site, breadth first, within a budget of pages.
#[derive(Debug)]
pub struct CrawlSession {
    /// Every URL met so far, in order of discovery: first those already dealt with, then
    /// the frontier.
    pub visited: Vec<String>,
    /// How many of `visited` have been dealt with.
    pub cursor: usize,
    /// How many pages the session may deal with at most.
    pub budget: usize,
    /// The archive of each page stored so far.
    pub paths: Vec<String>,
    /// Whether the page dealt with last was fetched and its archive is still to be
    /// reported.
    pub awaiting: bool,
}

/// The mathematical value of a [`CrawlSession`].
pub struct CrawlState {
    pub visited: Seq<Seq<char>>,
    pub cursor: nat,
    pub budget: nat,
    pub paths: Seq<Seq<char>>,
    pub awaiting: bool,
}

/// What can happen to a session.
pub enum CrawlEvent {
    /// The pending URL was fetched; the page holds these links of its own site.
    Fetched(Seq<Seq<char>>),
    /// The pending URL could not be fetched.
    Skipped,
    /// The page fetched last was archived at this path.
    Archived(Seq<char>),
}

impl View for CrawlSession {
    type V = CrawlState;

    open spec fn view(&self) -> CrawlState {
        CrawlState {
            visited: strings_view(self.visited@),
            cursor: self.cursor as nat,
            budget: self.budget as nat,
            paths: strings_view(self.paths@),
            awaiting: self.awaiting,
        }
    }
}

/// `visited` with those of `links` added, in order, that it does not hold yet.
pub open spec fn enqueue(visited: Seq<Seq<char>>, links: Seq<Seq<char>>) -> Seq<Seq<char>>
    decreases links.len(),
{
    if links.len() == 0 {
        visited
    } else {
        let before = enqueue(visited, links.drop_last());
        if before.contains(links.last()) {
            before
        } else {
            before.push(links.last())
        }
    }
}

impl CrawlState {
    /// The state in which a crawl from `seed` with room for `budget` pages starts.
    pub open spec fn initial(seed: Seq<char>, budget: nat) -> CrawlState {
        CrawlState { visited: seq![seed], cursor: 0, budget, paths: Seq::empty(), awaiting: false }
    }

    /// The URL to fetch next: the first of the frontier, while the budget lasts.
    pub open spec fn pending(self) -> Option<Seq<char>> {
        if self.cursor < self.budget && self.cursor < self.visited.len() {
            Some(self.visited[self.cursor as int])
        } else {
            None
        }
    }

    /// The URLs dealt with so far, in order.
    pub open spec fn fetched_urls(self) -> Seq<Seq<char>> {
        self.visited.take(self.cursor as int)
    }

    /// The state after `event`. The outcome of a fetch counts only while a URL is
    /// pending, and an archive only for a page that was fetched.
    pub open spec fn step(self, event: CrawlEvent) -> CrawlState {
        match event {
            CrawlEvent::Fetched(links) => if self.pending() is Some {
                CrawlState {
                    visited: enqueue(self.visited, links),
                    cursor: self.cursor + 1,
                    awaiting: true,
                    ..self
                }
            } else {
                self
            },
            CrawlEvent::Skipped => if self.pending() is Some {
                CrawlState { cursor: self.cursor + 1, awaiting: false, ..self }
            } else {
                self
            },
            CrawlEvent::Archived(path) => if self.awaiting {
                CrawlState { paths: self.paths.push(path), awaiting: false, ..self }
            } else {
                self
            },
        }
    }

    /// The state after `events`, one after the other.
    pub open spec fn run(self, events: Seq<CrawlEvent>) -> CrawlState
        decreases events.len(),
    {
        if events.len() == 0 {
            self
        } else {
            self.run(events.drop_last()).step(events.last())
        }
    }

    /// What holds of every state that a crawl reaches: no URL is met twice, no more pages
    /// are dealt with than were met or than the budget allows, and no more archives are
    /// stored than pages were dealt with.
    pub open spec fn wf(self) -> bool {
        &&& self.visited.no_duplicates()
        &&& self.cursor <= self.visited.len()
        &&& self.cursor <= self.budget
        &&& self.paths.len() <= self.cursor
        &&& self.awaiting ==> self.paths.len() < self.cursor
    }
}

/// How many of `events` are outcomes of a fetch.
pub open spec fn outcomes(events: Seq<CrawlEvent>) -> nat
    decreases events.len(),
{
    if events.len() == 0 {
        0
    } else {
        outcomes(events.drop_last()) + if events.last() is Archived {
            0nat
        } else {
            1nat
        }
    }
}

/// Adding links keeps what was there, in place, and adds nothing twice.
pub proof fn lemma_enqueue(visited: Seq<Seq<char>>, links: Seq<Seq<char>>)
    requires
        visited.no_duplicates(),
    ensures
        enqueue(visited, links).no_duplicates(),
        enqueue(visited, links).len() >= visited.len(),
        enqueue(visited, links).take(visited.len() as int) == visited,
        forall|l: Seq<char>|
            enqueue(visited, links).contains(l) <==> visited.contains(l) || links.contains(l),
    decreases links.len(),
{
    if links.len() == 0 {
        assert(visited.take(visited.len() as int) =~= visited);
    } else {
        let init = links.drop_last();
        let before = enqueue(visited, init);
        let after = enqueue(visited, links);
        lemma_enqueue(visited, init);
        assert(after.take(visited.len() as int) =~= before.take(visited.len() as int));
        assert forall|l: Seq<char>| after.contains(l) <==> visited.contains(l) || links.contains(
            l,
        ) by {
            if after.contains(l) {
                let j = choose|j: int| 0 <= j < after.len() && after[j] == l;
                if j < before.len() {
                    assert(before[j] == l);
                    assert(before.contains(l));
                    if init.contains(l) {
                        let k = choose|k: int| 0 <= k < init.len() && init[k] == l;
                        assert(links[k] == l);
                    }
                } else {
                    assert(links[links.len() - 1] == l);
                }
            }
            if visited.contains(l) || links.contains(l) {
                if links.contains(l) && !init.contains(l) && !visited.contains(l) {
                    let k = choose|k: int| 0 <= k < links.len() && links[k] == l;
                    if k < init.len() {
                        assert(init[k] == l);
                    }
                    assert(l == links.last());
                    if !before.contains(l) {
                        assert(after[before.len() as int] == l);
                    } else {
                        assert(after == before);
                    }
                } else {
                    assert(before.contains(l));
                    let j = choose|j: int| 0 <= j < before.len() && before[j] == l;
                    assert(after[j] == l);
                }
            }
        }
    }
}

/// Every event leaves a sound state sound.
pub proof fn lemma_step_preserves_wf(state: CrawlState, event: CrawlEvent)
    requires
        state.wf(),
    ensures
        state.step(event).wf(),
        state.step(event).budget == state.budget,
        state.step(event).fetched_urls().take(state.cursor as int) == state.fetched_urls(),
{
    assert(state.fetched_urls().take(state.cursor as int) =~= state.fetched_urls());
    if state.pending() is Some {
        match event {
            CrawlEvent::Fetched(links) => {
                lemma_enqueue(state.visited, links);
                let after = enqueue(state.visited, links);
                assert forall|j: int| 0 <= j < state.cursor implies after[j]
                    == state.visited[j] by {
                    assert(after.take(state.visited.len() as int)[j] == after[j]);
                }
                assert(after.take((state.cursor + 1) as int).take(state.cursor as int)
                    =~= state.visited.take(state.cursor as int));
            },
            CrawlEvent::Skipped => {
                assert(state.visited.take((state.cursor + 1) as int).take(state.cursor as int)
                    =~= state.visited.take(state.cursor as int));
            },
            CrawlEvent::Archived(_) => {},
        }
    }
}

/// Every run of events leaves a sound state sound, and its budget as it was.
pub proof fn lemma_run_preserves_wf(state: CrawlState, events: Seq<CrawlEvent>)
    requires
        state.wf(),
    ensures
        state.run(events).wf(),
        state.run(events).budget == state.budget,
    decreases events.len(),
{
    if events.len() > 0 {
        lemma_run_preserves_wf(state, events.drop_last());
        lemma_step_preserves_wf(state.run(events.drop_last()), events.last());
    }
}

/// With a budget of no pages, whatever happens, no page is fetched and no archive is
/// stored.
pub proof fn law_zero_budget(seed: Seq<char>, events: Seq<CrawlEvent>)
    ensures
        CrawlState::initial(seed, 0).pending() is None,
        CrawlState::initial(seed, 0).run(events) == CrawlState::initial(seed, 0),
        CrawlState::initial(seed, 0).run(events).fetched_urls().len() == 0,
        CrawlState::initial(seed, 0).run(events).paths.len() == 0,
    decreases events.len(),
{
    if events.len() > 0 {
        law_zero_budget(seed, events.drop_last());
    }
}

/// Whatever happens in a crawl, no more pages are fetched than the budget allows, no URL
/// is fetched twice, and no more archives are stored than pages were fetched.
pub proof fn law_budget_bounds_fetches(seed: Seq<char>, budget: nat, events: Seq<CrawlEvent>)
    ensures
        CrawlState::initial(seed, budget).run(events).fetched_urls().len() <= budget,
        CrawlState::initial(seed, budget).run(events).fetched_urls().no_duplicates(),
        CrawlState::initial(seed, budget).run(events).visited.no_duplicates(),
        CrawlState::initial(seed, budget).run(events).paths.len() <= budget,
{
    let start = CrawlState::initial(seed, budget);
    assert(start.wf());
    lemma_run_preserves_wf(start, events);
}

/// Once nothing is pending, nothing ever is again, and all outcomes before that were
/// counted.
pub proof fn lemma_run_counts(state: CrawlState, events: Seq<CrawlEvent>)
    ensures
        state.run(events).pending() is None || state.run(events).cursor == state.cursor
            + outcomes(events),
        state.pending() is None ==> state.run(events).pending() is None,
        state.run(events).budget == state.budget,
    decreases events.len(),
{
    if events.len() > 0 {
        lemma_run_counts(state, events.drop_last());
    }
}

/// A crawl comes to its end after at most as many fetches as the budget allows: once that
/// many outcomes are in, no URL is pending.
pub proof fn law_crawl_terminates(seed: Seq<char>, budget: nat, events: Seq<CrawlEvent>)
    requires
        outcomes(events) >= budget,
    ensures
        CrawlState::initial(seed, budget).run(events).pending() is None,
{
    lemma_run_counts(CrawlState::initial(seed, budget), events);
}

impl CrawlSession {
    /// A crawl that starts at `url` and deals with `num_of_pages` pages at most.
    pub fn new(url: &str, num_of_pages: usize) -> (res: CrawlSession)
        ensures
            res@ == CrawlState::initial(url@, num_of_pages as nat),
    {
        let visited = vec![url.to_owned()];
        let paths: Vec<String> = Vec::new();
        assert(strings_view(visited@) =~= seq![url@]);
        assert(strings_view(paths@) =~= Seq::<Seq<char>>::empty());
        CrawlSession { visited, cursor: 0, budget: num_of_pages, paths, awaiting: false }
    }

    /// The URL to fetch next, if the crawl is not over.
    pub fn next_url(&self) -> (res: Option<String>)
        ensures
            optional_view(res) == self@.pending(),
    {
        if self.cursor < self.budget && self.cursor < self.visited.len() {
            Some(self.visited[self.cursor].clone())
        } else {
            None
        }
    }

    /// Takes in the page fetched from the pending URL: its links to pages of the same site
    /// join the frontier, in the order of the page, unless they were met before.
    pub fn fetched(&mut self, record: &HtmlRecord)
        ensures
            final(self)@ == old(self)@.step(CrawlEvent::Fetched(record.domain_anchor_set())),
    {
        if self.cursor < self.budget && self.cursor < self.visited.len() {
            let ghost links = record.domain_anchor_set();
            let ghost start = strings_view(self.visited@);
            match record.domain_anchors() {
                Some(found) => {
                    let mut i: usize = 0;
                    assert(strings_view(found@).take(0) =~= Seq::<Seq<char>>::empty());
                    while i < found.len()
                        invariant
                            i <= found@.len(),
                            self.cursor == old(self).cursor,
                            self.budget == old(self).budget,
                            self.paths == old(self).paths,
                            self.cursor < self.visited@.len(),
                            strings_view(self.visited@) == enqueue(
                                start,
                                strings_view(found@).take(i as int),
                            ),
                        decreases found@.len() - i,
                    {
                        let ghost before = strings_view(self.visited@);
                        proof {
                            let all_links = strings_view(found@);
                            assert(all_links.take(i + 1).drop_last() =~= all_links.take(i as int));
                            assert(all_links.take(i + 1).last() == found@[i as int]@);
                        }
                        if !contains_string(&self.visited, &found[i]) {
                            self.visited.push(found[i].clone());
                            assert(strings_view(self.visited@) =~= before.push(found@[i as int]@));
                        }
                        i += 1;
                    }
                    assert(strings_view(found@).take(i as int) =~= strings_view(found@));
                },
                None => {},
            }
            self.cursor = self.cursor + 1;
            self.awaiting = true;
        }
    }

    /// Takes in that the pending URL could not be fetched: the crawl goes on with the
    /// next.
    pub fn skipped(&mut self)
        ensures
            final(self)@ == old(self)@.step(CrawlEvent::Skipped),
    {
        if self.cursor < self.budget && self.cursor < self.visited.len() {
            self.cursor = self.cursor + 1;
            self.awaiting = false;
        }
    }

    /// Takes in where the page fetched last was archived.
    pub fn archived(&mut self, path: String)
        ensures
            final(self)@ == old(self)@.step(CrawlEvent::Archived(path@)),
    {
        if self.awaiting {
            let ghost before = strings_view(self.paths@);
            self.paths.push(path);
            self.awaiting = false;
            assert(strings_view(self.paths@) =~= before.push(path@));
        }
    }

    /// The archives stored in the crawl, in order.
    pub fn into_paths(self) -> (res: Vec<String>)
        ensures
            strings_view(res@) == self@.paths,
    {
        self.paths
    }
}

impl BasicCrawler {
    /// Starts the crawl of the site of `url`, `num_of_pages` pages at most.
    pub fn start(url: &str, num_of_pages: usize) -> (res: CrawlSession)
        ensures
            res@ == CrawlState::initial(url@, num_of_pages as nat),
    {
        CrawlSession::new(url, num_of_pages)
    }

    /// Takes in what the fetch of the pending URL gave: a page adds its links to the
    /// frontier, a failure only moves the crawl on.
    pub fn visit(session: &mut CrawlSession, page: Option<&HtmlRecord>)
        ensures
            final(session)@ == old(session)@.step(
                match page {
                    Some(record) => CrawlEvent::Fetched(record.domain_anchor_set()),
                    None => CrawlEvent::Skipped,
                },
            ),
    {
        match page {
            Some(record) => session.fetched(record),
            None => session.skipped(),
        }
    }
}

} // verus!
