use vstd::prelude::*;
use crate::project::Project;

verus! {

/// Where the catalog scan stands.
#[derive(Debug, Clone, PartialEq, Eq)]
pub enum ScanState {
    Idle,
    Scanning,
    Loaded { count: usize },
    Empty,
    Error(String),
}

/// The selection after moving up in a list of `item_count` items: nothing
/// in an empty list, the last item when nothing was selected, and otherwise
/// the item above (staying on the first item, and treating a stale index
/// past the end as the last item).
pub open spec fn spec_previous_selection(current: Option<usize>, item_count: usize) -> Option<usize> {
    if item_count == 0 {
        None
    } else {
        match current {
            Some(index) => {
                let clamped = if index < item_count { index } else { (item_count - 1) as usize };
                Some(if clamped == 0 { 0 } else { (clamped - 1) as usize })
            },
            None => Some((item_count - 1) as usize),
        }
    }
}

/// The selection after moving down: nothing in an empty list, the first
/// item when nothing was selected, and otherwise the next item (staying on
/// the last one).
pub open spec fn spec_next_selection(current: Option<usize>, item_count: usize) -> Option<usize> {
    if item_count == 0 {
        None
    } else {
        match current {
            Some(index) => Some(if index + 1 < item_count { (index + 1) as usize } else { (item_count - 1) as usize }),
            None => Some(0),
        }
    }
}

pub fn previous_selection(current: Option<usize>, item_count: usize) -> (selection: Option<usize>)
    ensures
        selection == spec_previous_selection(current, item_count),
        selection matches Some(s) ==> s < item_count,
{
    if item_count == 0 {
        return None;
    }
    Some(match current {
        Some(index) => {
            let clamped = if index < item_count { index } else { item_count - 1 };
            if clamped == 0 { 0 } else { clamped - 1 }
        },
        None => item_count - 1,
    })
}

pub fn next_selection(current: Option<usize>, item_count: usize) -> (selection: Option<usize>)
    ensures
        selection == spec_next_selection(current, item_count),
        selection matches Some(s) ==> s < item_count,
{
    if item_count == 0 {
        return None;
    }
    Some(match current {
        Some(index) => if index < item_count - 1 { index + 1 } else { item_count - 1 },
        None => 0,
    })
}

/// The catalog and the state of the scan that fills it. Each scan gets a
/// new generation; only the result of the newest scan is taken.
pub struct ScanModel {
    pub projects: Vec<Project>,
    pub state: ScanState,
    generation: u64,
}

/// The scan model as values.
pub struct ScanView {
    pub projects: Seq<Project>,
    pub state: ScanState,
    pub generation: u64,
}

impl ScanView {
    /// Starting a scan: a new generation, and the state becomes Scanning.
    pub open spec fn began(self) -> ScanView {
        ScanView { generation: (if self.generation == u64::MAX { 0 } else { (self.generation + 1) as u64 }), state: ScanState::Scanning, ..self }
    }

    /// Taking the result of the scan of `generation`: it is ignored unless
    /// it belongs to the newest scan; an empty list gives Empty, a non-empty
    /// one replaces the catalog and gives Loaded, and an error keeps the
    /// catalog and gives Error.
    pub open spec fn applied(self, generation: u64, result: Result<Seq<Project>, String>) -> (bool, ScanView) {
        if generation != self.generation {
            (false, self)
        } else {
            match result {
                Ok(projects) => if projects.len() == 0 {
                    (true, ScanView { projects: Seq::empty(), state: ScanState::Empty, ..self })
                } else {
                    (true, ScanView { projects, state: ScanState::Loaded { count: projects.len() as usize }, ..self })
                },
                Err(error) => (true, ScanView { state: ScanState::Error(error), ..self }),
            }
        }
    }
}

pub open spec fn result_view(result: Result<Vec<Project>, String>) -> Result<Seq<Project>, String> {
    match result {
        Ok(v) => Ok(v@),
        Err(e) => Err(e),
    }
}

impl View for ScanModel {
    type V = ScanView;

    closed spec fn view(&self) -> ScanView {
        ScanView { projects: self.projects@, state: self.state, generation: self.generation }
    }
}

impl ScanModel {
    /// A model holding the cached catalog, before any scan.
    pub fn new(projects: Vec<Project>) -> (model: ScanModel)
        ensures
            model@ == (ScanView { projects: projects@, state: ScanState::Idle, generation: 0 }),
    {
        ScanModel { projects, state: ScanState::Idle, generation: 0 }
    }

    /// Starts a scan and returns its generation.
    pub fn begin(&mut self) -> (generation: u64)
        ensures
            final(self)@ == old(self)@.began(),
            generation == final(self)@.generation,
    {
        self.generation = self.generation.wrapping_add(1);
        self.state = ScanState::Scanning;
        self.generation
    }

    /// Takes the result of a scan; returns whether it was taken.
    pub fn apply_result(&mut self, generation: u64, result: Result<Vec<Project>, String>) -> (taken: bool)
        ensures
            (taken, final(self)@) == old(self)@.applied(generation, result_view(result)),
    {
        if generation != self.generation {
            return false;
        }
        match result {
            Ok(projects) => {
                if projects.len() == 0 {
                    self.projects.clear();
                    self.state = ScanState::Empty;
                } else {
                    let count = projects.len();
                    self.projects = projects;
                    self.state = ScanState::Loaded { count };
                }
            },
            Err(error) => {
                self.state = ScanState::Error(error);
            },
        }
        true
    }
}

/// A result that arrives for a scan after a newer scan began is ignored and
/// leaves the catalog and state as they were.
pub proof fn law_stale_scan_result_is_ignored(model: ScanView, result: Result<Seq<Project>, String>)
    ensures
        ({
            let first = model.began();
            let second = first.began();
            second.applied(first.generation, result) == (false, second)
        }),
{
}

/// The result of the newest scan is always taken.
pub proof fn law_current_scan_result_is_taken(model: ScanView, result: Result<Seq<Project>, String>)
    ensures
        model.began().applied(model.began().generation, result).0,
{
}

/// Moving the selection never leaves the list.
pub proof fn law_selection_stays_in_bounds(current: Option<usize>, item_count: usize)
    ensures
        spec_previous_selection(current, item_count) matches Some(s) ==> s < item_count,
        spec_next_selection(current, item_count) matches Some(s) ==> s < item_count,
        item_count > 0 ==> spec_previous_selection(current, item_count) is Some
            && spec_next_selection(current, item_count) is Some,
{
}

} // verus!
