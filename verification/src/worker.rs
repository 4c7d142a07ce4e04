//! The worker orchestrator: one blocking crawl, driven to completion.
//! It owns the frontier and the result aggregate; the caller performs
//! each fetch it asks for and hands back the outcome. `Idle` becomes
//! `Running` when the frontier is seeded, and `Done` — terminal — when
//! the frontier runs out; the aggregate is then emitted once.

use vstd::prelude::*;

use crate::errors::CrawlError;
use crate::extract::get_links;
use crate::extract::spec_links;
use crate::frontier::Frontier;
use crate::pages::PageEntries;
use crate::pages::ScrapedPages;
use crate::pages::entries_wf;
use crate::pages::pages_has;
use crate::pages::spec_insert;
use crate::pages::spec_encode_pages;
use crate::token::ParamsView;
use crate::token::ScrapingParams;
use crate::token::decode_params;
use crate::token::spec_decode_params;

verus! {

/// The immutable configuration of one crawl.
pub struct CrawlConfig {
    pub seed_url: String,
    pub max_depth: u32,
}

#[derive(Clone, Copy, PartialEq, Eq, Structural, Debug)]
pub enum CrawlPhase {
    Idle,
    Running,
    Done,
}

/// The tasks that a batch of discovered links contributes, all at one
/// depth, in link order.
pub open spec fn tasks_at(links: Seq<Seq<char>>, d: nat) -> Seq<ParamsView> {
    links.map_values(|l: Seq<char>| ParamsView { url: l, depth: d })
}

/// What popping the frontier until an acceptable task appears leaves
/// behind and selects: tasks over the depth bound or already recorded
/// are discarded unprocessed, in order.
pub open spec fn spec_select(tasks: Seq<ParamsView>, pages: PageEntries, max_depth: nat) -> (
    Seq<ParamsView>,
    Option<ParamsView>,
)
    decreases tasks.len(),
{
    if tasks.len() == 0 {
        (tasks, None)
    } else {
        let t = tasks.first();
        if t.depth > max_depth || pages_has(pages, t.url) {
            spec_select(tasks.drop_first(), pages, max_depth)
        } else {
            (tasks.drop_first(), Some(t))
        }
    }
}

/// Whatever the selector chooses obeys the depth bound and is not yet
/// recorded: a task over the bound, or one whose url already stands in
/// the aggregate, is discarded without being fetched.
pub proof fn lemma_select_obeys_depth(tasks: Seq<ParamsView>, pages: PageEntries, max_depth: nat)
    ensures
        spec_select(tasks, pages, max_depth).1 matches Some(t) ==> t.depth <= max_depth
            && !pages_has(pages, t.url),
    decreases tasks.len(),
{
    if tasks.len() > 0 {
        let t = tasks.first();
        if t.depth > max_depth || pages_has(pages, t.url) {
            lemma_select_obeys_depth(tasks.drop_first(), pages, max_depth);
        }
    }
}

/// Worker mode fetches no url twice: once a url is recorded in the
/// aggregate, the selector never chooses it again, whatever the
/// frontier holds.
pub proof fn lemma_no_refetch(
    tasks: Seq<ParamsView>,
    pages: PageEntries,
    max_depth: nat,
    u: Seq<char>,
)
    requires
        pages_has(pages, u),
    ensures
        spec_select(tasks, pages, max_depth).1 matches Some(t) ==> t.url != u,
{
    lemma_select_obeys_depth(tasks, pages, max_depth);
}

/// A link discovered on a page at depth `d` is enqueued at depth
/// `d + 1`, under its own url, in link order. (A depth at the very top
/// of the wire's integer range cannot be deepened; see
/// `on_fetch_success`.)
pub proof fn lemma_links_enqueued_one_deeper(links: Seq<Seq<char>>, d: nat)
    requires
        d + 1 <= u32::MAX,
    ensures
        tasks_at(links, d + 1).len() == links.len(),
        forall|i: int|
            0 <= i < links.len() ==> #[trigger] tasks_at(links, d + 1)[i] == (ParamsView {
                url: links[i],
                depth: d + 1,
            }),
{
}

/// One blocking crawl.
pub struct WorkerCrawl {
    config: CrawlConfig,
    frontier: Frontier,
    pages: ScrapedPages,
    pending: Option<ScrapingParams>,
    phase: CrawlPhase,
}

impl WorkerCrawl {
    /// The pending tasks, oldest first.
    pub closed spec fn tasks(&self) -> Seq<ParamsView> {
        self.frontier@
    }

    /// The recorded pages, in insertion order.
    pub closed spec fn results(&self) -> PageEntries {
        self.pages@
    }

    pub closed spec fn depth_bound(&self) -> nat {
        self.config.max_depth as nat
    }

    pub closed spec fn seed(&self) -> Seq<char> {
        self.config.seed_url@
    }

    /// The task whose fetch is in flight, if any.
    pub closed spec fn pending_task(&self) -> Option<ParamsView> {
        match self.pending {
            Some(p) => Some(p@),
            None => None,
        }
    }

    pub closed spec fn spec_phase(&self) -> CrawlPhase {
        self.phase
    }

    pub open spec fn wf(&self) -> bool {
        &&& entries_wf(self.results())
        &&& match self.pending_task() {
            Some(t) => self.spec_phase() == CrawlPhase::Running && t.depth <= self.depth_bound()
                && !pages_has(self.results(), t.url),
            None => true,
        }
        &&& (self.spec_phase() == CrawlPhase::Done ==> self.tasks().len() == 0)
        &&& (self.spec_phase() == CrawlPhase::Idle ==> self.tasks().len() == 0 && self.results().len()
            == 0)
    }

    pub fn seed_url(&self) -> (r: &String)
        ensures
            r@ == self.seed(),
    {
        &self.config.seed_url
    }

    pub fn max_depth(&self) -> (r: u32)
        ensures
            r as nat == self.depth_bound(),
    {
        self.config.max_depth
    }

    pub fn phase(&self) -> (p: CrawlPhase)
        ensures
            p == self.spec_phase(),
    {
        self.phase
    }

    /// The result aggregate so far.
    pub fn results_so_far(&self) -> (r: &ScrapedPages)
        ensures
            r@ == self.results(),
    {
        &self.pages
    }

    /// A fresh, not yet started crawl.
    pub fn new(config: CrawlConfig) -> (r: WorkerCrawl)
        ensures
            r.wf(),
            r.spec_phase() == CrawlPhase::Idle,
            r.tasks().len() == 0,
            r.results().len() == 0,
            r.pending_task() is None,
            r.depth_bound() == config.max_depth as nat,
            r.seed() == config.seed_url@,
    {
        WorkerCrawl {
            config,
            frontier: Frontier::new(),
            pages: ScrapedPages::new(),
            pending: None,
            phase: CrawlPhase::Idle,
        }
    }

    /// A worker configured by its bootstrap message, which must decode
    /// as one task object; anything else is the fatal startup error and
    /// no crawl begins.
    pub fn from_bootstrap(ipc: &str) -> (r: Result<WorkerCrawl, CrawlError>)
        ensures
            match r {
                Ok(w) => {
                    &&& spec_decode_params(ipc@) == Some(
                        ParamsView { url: w.seed(), depth: w.depth_bound() },
                    )
                    &&& w.wf()
                    &&& w.spec_phase() == CrawlPhase::Idle
                    &&& w.tasks().len() == 0
                    &&& w.results().len() == 0
                    &&& w.pending_task() is None
                },
                Err(e) => e == CrawlError::StartupParseError && spec_decode_params(ipc@) is None,
            },
    {
        match decode_params(ipc) {
            None => Err(CrawlError::StartupParseError),
            Some(p) => Ok(
                WorkerCrawl::new(CrawlConfig { seed_url: p.url, max_depth: p.depth }),
            ),
        }
    }

    /// Seeds the frontier with the initial task at depth 0 and starts
    /// running.
    pub fn start(&mut self)
        requires
            old(self).wf(),
            old(self).spec_phase() == CrawlPhase::Idle,
        ensures
            final(self).wf(),
            final(self).spec_phase() == CrawlPhase::Running,
            final(self).tasks() =~= seq![ParamsView { url: old(self).seed(), depth: 0 }],
            final(self).results() == old(self).results(),
            final(self).pending_task() is None,
            final(self).depth_bound() == old(self).depth_bound(),
            final(self).seed() == old(self).seed(),
    {
        let seed = self.config.seed_url.clone();
        self.frontier.push(ScrapingParams { url: seed, depth: 0 });
        self.phase = CrawlPhase::Running;
    }

    /// Pops tasks until one deserves a fetch — discarding, unprocessed,
    /// every task over the depth bound or already recorded — and hands
    /// it out, remembering it as pending. When the frontier runs out,
    /// the crawl is `Done` and nothing is returned.
    pub fn next_fetch(&mut self) -> (r: Option<ScrapingParams>)
        requires
            old(self).wf(),
            old(self).spec_phase() == CrawlPhase::Running,
            old(self).pending_task() is None,
        ensures
            final(self).wf(),
            final(self).results() == old(self).results(),
            final(self).depth_bound() == old(self).depth_bound(),
            final(self).seed() == old(self).seed(),
            ({
                let (rest, sel) = spec_select(
                    old(self).tasks(),
                    old(self).results(),
                    old(self).depth_bound(),
                );
                match r {
                    Some(t) => {
                        &&& sel == Some(t@)
                        &&& t@.depth <= old(self).depth_bound()
                        &&& !pages_has(old(self).results(), t@.url)
                        &&& final(self).tasks() == rest
                        &&& final(self).pending_task() == Some(t@)
                        &&& final(self).spec_phase() == CrawlPhase::Running
                    },
                    None => {
                        &&& sel is None
                        &&& final(self).tasks().len() == 0
                        &&& final(self).pending_task() is None
                        &&& final(self).spec_phase() == CrawlPhase::Done
                    },
                }
            }),
    {
        loop
            invariant
                self.wf(),
                self.spec_phase() == CrawlPhase::Running,
                self.pending_task() is None,
                self.results() == old(self).results(),
                self.depth_bound() == old(self).depth_bound(),
                self.seed() == old(self).seed(),
                spec_select(old(self).tasks(), old(self).results(), old(self).depth_bound())
                    == spec_select(self.tasks(), self.results(), self.depth_bound()),
            decreases self.tasks().len(),
        {
            let ghost tasks0 = self.tasks();
            match self.frontier.pop() {
                None => {
                    self.phase = CrawlPhase::Done;
                    return None;
                },
                Some(t) => {
                    proof {
                        assert(tasks0.first() == t@);
                    }
                    let over = t.depth > self.config.max_depth;
                    let seen = if over {
                        false
                    } else {
                        self.pages.contains_key(t.url.as_str())
                    };
                    if !over && !seen {
                        self.pending = Some(t.duplicate());
                        return Some(t);
                    }
                },
            }
        }
    }

    /// Records a successful fetch of the pending task: every link
    /// discovered on the page joins the frontier one level deeper, and
    /// the page is recorded under its url. (A depth at the very top of
    /// `u32` cannot be deepened; such links are dropped, as they could
    /// never be fetched anyway.)
    pub fn on_fetch_success(&mut self, page: String)
        requires
            old(self).wf(),
            old(self).pending_task() is Some,
        ensures
            final(self).wf(),
            final(self).spec_phase() == CrawlPhase::Running,
            final(self).pending_task() is None,
            final(self).depth_bound() == old(self).depth_bound(),
            final(self).seed() == old(self).seed(),
            ({
                let t = old(self).pending_task()->Some_0;
                &&& final(self).results() == spec_insert(old(self).results(), t.url, page@)
                &&& pages_has(final(self).results(), t.url)
                &&& forall|u: Seq<char>|
                    #[trigger] pages_has(old(self).results(), u) ==> pages_has(
                        final(self).results(),
                        u,
                    )
                &&& final(self).tasks() == old(self).tasks() + (if t.depth + 1 <= u32::MAX {
                    tasks_at(spec_links(page@), t.depth + 1)
                } else {
                    Seq::<ParamsView>::empty()
                })
            }),
    {
        let t = take_pending(&mut self.pending);
        let ghost tv = t@;
        let ghost tasks0 = self.tasks();
        if t.depth < u32::MAX {
            let d = t.depth + 1;
            let links = get_links(page.as_str());
            let ghost lv = spec_links(page@);
            let n = links.len();
            let mut i: usize = 0;
            let mut rest = links;
            proof {
                assert(tasks0 + tasks_at(lv, d as nat).take(0) =~= tasks0);
                assert(rest.deep_view() =~= lv.skip(0));
            }
            while i < n
                invariant
                    i <= n,
                    n == lv.len(),
                    d as nat == tv.depth + 1,
                    rest.deep_view() =~= lv.skip(i as int),
                    self.tasks() == tasks0 + tasks_at(lv, d as nat).take(i as int),
                    self.results() == old(self).results(),
                    self.depth_bound() == old(self).depth_bound(),
                    self.seed() == old(self).seed(),
                    self.pending_task() is None,
                    self.spec_phase() == old(self).spec_phase(),
                    entries_wf(self.results()),
                decreases n - i,
            {
                let ghost fr0 = self.tasks();
                let ghost rv0 = rest@;
                let ghost rdv0 = rest.deep_view();
                proof {
                    assert(rdv0.len() == rv0.len());
                    assert(rdv0[0] == rv0[0].deep_view());
                }
                let link = rest.remove(0);
                proof {
                    assert(link@ == rv0[0]@);
                    assert(rv0[0]@ == lv.skip(i as int)[0]);
                    assert(link@ == lv[i as int]);
                    assert forall|q: int| 0 <= q < rest.deep_view().len() implies rest.deep_view()[q]
                        == lv.skip(i + 1)[q] by {
                        assert(rest@[q] == rv0[q + 1]);
                        assert(rest.deep_view()[q] == rest@[q].deep_view());
                        assert(rdv0[q + 1] == rv0[q + 1].deep_view());
                        assert(rdv0[q + 1] == lv.skip(i as int)[q + 1]);
                        assert(lv.skip(i as int)[q + 1] == lv[i + 1 + q]);
                        assert(lv.skip(i + 1)[q] == lv[i + 1 + q]);
                    }
                    assert(rest.deep_view() =~= lv.skip(i + 1));
                }
                self.frontier.push(ScrapingParams { url: link, depth: d });
                proof {
                    assert(tasks_at(lv, d as nat).take(i + 1) =~= tasks_at(lv, d as nat).take(
                        i as int,
                    ).push(ParamsView { url: lv[i as int], depth: d as nat }));
                    assert(self.tasks() =~= tasks0 + tasks_at(lv, d as nat).take(i + 1));
                }
                i += 1;
            }
            proof {
                assert(tasks_at(lv, d as nat).take(n as int) =~= tasks_at(lv, d as nat));
            }
        } else {
            proof {
                assert(self.tasks() =~= tasks0 + Seq::<ParamsView>::empty());
            }
        }
        self.pages.insert(t.url, page);
    }

    /// Records a failed fetch — timeout, transport failure, malformed
    /// reply or undecodable page — of the pending task: the task is
    /// dropped, nothing is requeued, and the crawl goes on.
    pub fn on_fetch_failure(&mut self)
        requires
            old(self).wf(),
            old(self).pending_task() is Some,
        ensures
            final(self).wf(),
            final(self).spec_phase() == CrawlPhase::Running,
            final(self).pending_task() is None,
            final(self).tasks() == old(self).tasks(),
            final(self).results() == old(self).results(),
            final(self).depth_bound() == old(self).depth_bound(),
            final(self).seed() == old(self).seed(),
    {
        let _ = take_pending(&mut self.pending);
    }

    /// Records the raw reply to the pending task's fetch: payload bytes
    /// that read as text count as a successful fetch of that page;
    /// bytes that do not are the page-decode failure, and the task is
    /// dropped as any other failed fetch.
    pub fn on_fetch_payload(&mut self, bytes: Vec<u8>)
        requires
            old(self).wf(),
            old(self).pending_task() is Some,
        ensures
            final(self).wf(),
            final(self).spec_phase() == CrawlPhase::Running,
            final(self).pending_task() is None,
            final(self).depth_bound() == old(self).depth_bound(),
            final(self).seed() == old(self).seed(),
            ({
                let t = old(self).pending_task()->Some_0;
                match crate::codec::utf8_decode(bytes@) {
                    Some(s) => {
                        &&& final(self).results() == spec_insert(old(self).results(), t.url, s)
                        &&& final(self).tasks() == old(self).tasks() + (if t.depth + 1
                            <= u32::MAX {
                            tasks_at(spec_links(s), t.depth + 1)
                        } else {
                            Seq::<ParamsView>::empty()
                        })
                    },
                    None => final(self).results() == old(self).results() && final(self).tasks()
                        == old(self).tasks(),
                }
            }),
    {
        match crate::codec::bytes_to_string(bytes) {
            Some(page) => self.on_fetch_success(page),
            None => self.on_fetch_failure(),
        }
    }

    /// The single output of a finished crawl: the aggregate on the
    /// batch wire format.
    pub fn encode_result(&self) -> (r: String)
        requires
            self.spec_phase() == CrawlPhase::Done,
        ensures
            r@ == spec_encode_pages(self.results()),
    {
        self.pages.encode()
    }
}

/// Takes the pending task out, leaving none.
fn take_pending(slot: &mut Option<ScrapingParams>) -> (r: ScrapingParams)
    requires
        (*old(slot)) is Some,
    ensures
        (*final(slot)) is None,
        r@ == (*old(slot))->Some_0@,
{
    slot.take().unwrap()
}

} // verus!
