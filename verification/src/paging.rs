use vstd::prelude::*;

verus! {

/// Where loading the first page of the history stands.
#[derive(Clone, Debug, PartialEq, Eq)]
pub enum HistoryLoad {
    Idle,
    Loading,
    Empty,
    Loaded,
    Failed(String),
}

/// The commit history of the selected project, loaded a page at a time:
/// how many commits are shown, how many to skip for the next page, whether
/// more may follow, whether a further page is being loaded, and the error
/// of the last further page. Each (re)load gets a new generation; answers
/// for an older one are ignored.
pub struct HistoryPager {
    pub load: HistoryLoad,
    pub commits: usize,
    pub skip: usize,
    pub has_more: bool,
    pub loading_more: bool,
    pub more_error: Option<String>,
    generation: u64,
}

/// The pager as values.
pub struct PagerView {
    pub load: HistoryLoad,
    pub commits: nat,
    pub skip: nat,
    pub has_more: bool,
    pub loading_more: bool,
    pub more_error: Option<String>,
    pub generation: u64,
}

impl View for HistoryPager {
    type V = PagerView;

    closed spec fn view(&self) -> PagerView {
        PagerView {
            load: self.load,
            commits: self.commits as nat,
            skip: self.skip as nat,
            has_more: self.has_more,
            loading_more: self.loading_more,
            more_error: self.more_error,
            generation: self.generation,
        }
    }
}

/// `a + b`, or the largest `usize` when that is more.
pub open spec fn saturated(a: nat, b: nat) -> nat {
    if a + b > usize::MAX { usize::MAX as nat } else { a + b }
}

impl PagerView {
    /// Reloading: a new generation, the first page loading, nothing shown,
    /// nothing skipped, more expected and no error. A further page that is
    /// still loading stays marked as loading.
    pub open spec fn reloaded(self) -> PagerView {
        PagerView {
            load: HistoryLoad::Loading,
            commits: 0,
            skip: 0,
            has_more: true,
            more_error: None,
            generation: (if self.generation == u64::MAX { 0 } else { (self.generation + 1) as u64 }),
            ..self
        }
    }

    /// Taking the first page of `generation` with `page` commits at most: an
    /// answer for another generation, or for a project no longer selected,
    /// is ignored. No commits leave the history empty with nothing more;
    /// some show, with the page skipped and more expected when the page was
    /// full; an error fails the load.
    pub open spec fn first_page(self, generation: u64, current: bool, result: Result<nat, String>, page: nat) -> (bool, PagerView) {
        if generation != self.generation || !current {
            (false, self)
        } else {
            match result {
                Ok(n) => if n == 0 {
                    (true, PagerView { load: HistoryLoad::Empty, has_more: false, ..self })
                } else {
                    (true, PagerView { load: HistoryLoad::Loaded, commits: n, skip: page, has_more: n >= page, ..self })
                },
                Err(e) => (true, PagerView { load: HistoryLoad::Failed(e), ..self }),
            }
        }
    }

    /// Asking for a further page: only when more may follow and none is
    /// loading; it is then loading, without an error.
    pub open spec fn more_requested(self) -> (bool, PagerView) {
        if !self.has_more || self.loading_more {
            (false, self)
        } else {
            (true, PagerView { loading_more: true, more_error: None, ..self })
        }
    }

    /// Taking a further page of `generation`: ignored for another
    /// generation or project; otherwise no longer loading, and its commits
    /// are added and skipped, with more expected when it was full; an error
    /// ends the paging and is kept.
    pub open spec fn further_page(self, generation: u64, current: bool, result: Result<nat, String>, page: nat) -> (bool, PagerView) {
        if generation != self.generation || !current {
            (false, self)
        } else {
            match result {
                Ok(n) => (
                    true,
                    PagerView {
                        loading_more: false,
                        commits: saturated(self.commits, n),
                        skip: saturated(self.skip, n),
                        has_more: n >= page,
                        ..self
                    },
                ),
                Err(e) => (true, PagerView { loading_more: false, has_more: false, more_error: Some(e), ..self }),
            }
        }
    }
}

pub open spec fn count_result(result: Result<usize, String>) -> Result<nat, String> {
    match result {
        Ok(n) => Ok(n as nat),
        Err(e) => Err(e),
    }
}

impl HistoryPager {
    /// A pager before any load.
    pub fn new() -> (pager: HistoryPager)
        ensures
            pager@ == (PagerView {
                load: HistoryLoad::Idle,
                commits: 0,
                skip: 0,
                has_more: false,
                loading_more: false,
                more_error: None,
                generation: 0,
            }),
    {
        HistoryPager {
            load: HistoryLoad::Idle,
            commits: 0,
            skip: 0,
            has_more: false,
            loading_more: false,
            more_error: None,
            generation: 0,
        }
    }

    /// Starts loading the history again; gives the generation of the load.
    pub fn reload(&mut self) -> (generation: u64)
        ensures
            final(self)@ == old(self)@.reloaded(),
            generation == final(self)@.generation,
    {
        self.generation = self.generation.wrapping_add(1);
        self.load = HistoryLoad::Loading;
        self.commits = 0;
        self.skip = 0;
        self.has_more = true;
        self.more_error = None;
        self.generation
    }

    /// Takes the first page (see `PagerView::first_page`); says whether it
    /// was taken.
    pub fn take_first_page(&mut self, generation: u64, current: bool, result: Result<usize, String>, page: usize) -> (taken: bool)
        ensures
            (taken, final(self)@) == old(self)@.first_page(generation, current, count_result(result), page as nat),
    {
        if generation != self.generation || !current {
            return false;
        }
        match result {
            Ok(n) => {
                if n == 0 {
                    self.load = HistoryLoad::Empty;
                    self.has_more = false;
                } else {
                    self.load = HistoryLoad::Loaded;
                    self.commits = n;
                    self.skip = page;
                    self.has_more = n >= page;
                }
            },
            Err(e) => {
                self.load = HistoryLoad::Failed(e);
            },
        }
        true
    }

    /// Asks for a further page; gives the generation and the number of
    /// commits to skip when one is to be loaded.
    pub fn request_more(&mut self) -> (request: Option<(u64, usize)>)
        ensures
            (request is Some, final(self)@) == old(self)@.more_requested(),
            request matches Some((g, s)) ==> g == old(self)@.generation && s == old(self)@.skip,
    {
        if !self.has_more || self.loading_more {
            return None;
        }
        self.loading_more = true;
        self.more_error = None;
        Some((self.generation, self.skip))
    }

    /// Takes a further page (see `PagerView::further_page`); says whether it
    /// was taken.
    pub fn take_further_page(&mut self, generation: u64, current: bool, result: Result<usize, String>, page: usize) -> (taken: bool)
        ensures
            (taken, final(self)@) == old(self)@.further_page(generation, current, count_result(result), page as nat),
    {
        if generation != self.generation || !current {
            return false;
        }
        self.loading_more = false;
        match result {
            Ok(n) => {
                self.commits = self.commits.saturating_add(n);
                self.skip = self.skip.saturating_add(n);
                self.has_more = n >= page;
            },
            Err(e) => {
                self.has_more = false;
                self.more_error = Some(e);
            },
        }
        true
    }
}

/// A page that arrives for a load after the history was loaded again is
/// ignored, first page or further page alike.
pub proof fn law_stale_pages_are_ignored(pager: PagerView, current: bool, result: Result<nat, String>, page: nat)
    ensures
        ({
            let first = pager.reloaded();
            let second = first.reloaded();
            &&& second.first_page(first.generation, current, result, page) == (false, second)
            &&& second.further_page(first.generation, current, result, page) == (false, second)
        }),
{
}

/// Once the paging has ended, asking for more changes nothing.
pub proof fn law_no_more_after_the_end(pager: PagerView)
    requires
        !pager.has_more,
    ensures
        pager.more_requested() == (false, pager),
{
}

/// What is skipped is what is shown after a full first page, and stays so
/// with every further page.
pub proof fn law_skip_follows_the_commits_shown(pager: PagerView, m: nat, page: nat)
    requires
        0 < page <= usize::MAX,
    ensures
        ({
            let loaded = pager.reloaded().first_page(pager.reloaded().generation, true, Ok(page), page).1;
            let more = loaded.further_page(loaded.generation, true, Ok(m), page).1;
            &&& loaded.commits == loaded.skip
            &&& loaded.has_more
            &&& more.commits == more.skip
        }),
{
}

} // verus!
