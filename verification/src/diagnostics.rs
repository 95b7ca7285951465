use vstd::prelude::*;
use crate::chars::{push_text, string_of};

verus! {

/// How many persistence events the history keeps.
pub const PERSISTENCE_HISTORY_CAPACITY: usize = 8;

/// Which stored file an event concerns.
#[derive(Clone, Copy, Debug, PartialEq, Eq, Structural)]
pub enum PersistenceStore {
    Config,
    ProjectCache,
    Todos,
}

/// Where a recovered file came from.
#[derive(Clone, Copy, Debug, PartialEq, Eq, Structural)]
pub enum PersistenceRecoverySource {
    Backup,
    Temporary,
}

/// What was being done when another instance interfered.
#[derive(Clone, Copy, Debug, PartialEq, Eq, Structural)]
pub enum PersistenceOperation {
    Recovery,
    Write,
}

/// Something noteworthy that happened while loading or saving a file.
#[derive(Clone, Copy, Debug, PartialEq, Eq, Structural)]
pub enum PersistenceEvent {
    Recovered { store: PersistenceStore, source: PersistenceRecoverySource },
    Conflict { store: PersistenceStore, operation: PersistenceOperation },
}

/// A failed load or save, with the event it amounts to, if any.
#[derive(Clone, Debug, PartialEq, Eq)]
pub struct PersistenceFailure {
    pub event: Option<PersistenceEvent>,
    pub message: String,
}

impl PersistenceFailure {
    pub fn event(&self) -> (event: Option<PersistenceEvent>)
        ensures
            event == self.event,
    {
        self.event
    }
}

/// The most recent persistence events, oldest first, at most eight.
#[derive(Debug)]
pub struct PersistenceHistory {
    events: Vec<PersistenceEvent>,
}

pub open spec fn keep_newest<A>(s: Seq<A>, n: nat) -> Seq<A> {
    if s.len() <= n {
        s
    } else {
        s.subrange(s.len() - n, s.len() as int)
    }
}

impl PersistenceHistory {
    pub closed spec fn events(self) -> Seq<PersistenceEvent> {
        self.events@
    }

    /// At most eight events are kept.
    pub closed spec fn wf(self) -> bool {
        self.events@.len() <= PERSISTENCE_HISTORY_CAPACITY
    }

    /// An empty history.
    pub fn new() -> (history: PersistenceHistory)
        ensures
            history.wf(),
            history.events() == Seq::<PersistenceEvent>::empty(),
    {
        PersistenceHistory { events: Vec::new() }
    }

    /// Appends events; once eight are kept, each new one pushes out the oldest.
    pub fn record_events(&mut self, events: Vec<PersistenceEvent>)
        requires
            old(self).wf(),
        ensures
            final(self).wf(),
            final(self).events() == keep_newest(
                old(self).events() + events@,
                PERSISTENCE_HISTORY_CAPACITY as nat,
            ),
    {
        let ghost start = self.events@;
        let mut i: usize = 0;
        while i < events.len()
            invariant
                i <= events@.len(),
                self.events@.len() <= PERSISTENCE_HISTORY_CAPACITY,
                start.len() <= PERSISTENCE_HISTORY_CAPACITY,
                self.events@ == keep_newest(start + events@.subrange(0, i as int), PERSISTENCE_HISTORY_CAPACITY as nat),
            decreases events@.len() - i,
        {
            let ghost all = start + events@.subrange(0, i as int);
            let ghost before = self.events@;
            if self.events.len() == PERSISTENCE_HISTORY_CAPACITY {
                self.events.remove(0);
            }
            self.events.push(events[i]);
            i = i + 1;
            proof {
                let all2 = start + events@.subrange(0, i as int);
                assert(all2 =~= all.push(events@[i - 1]));
                assert(self.events@ =~= keep_newest(all2, PERSISTENCE_HISTORY_CAPACITY as nat));
            }
        }
        assert(events@.subrange(0, events@.len() as int) =~= events@);
    }

    /// Records the event of a failure, if it has one.
    pub fn record_failure(&mut self, failure: &PersistenceFailure)
        requires
            old(self).wf(),
        ensures
            final(self).wf(),
            final(self).events() == match failure.event {
                Some(e) => keep_newest(old(self).events().push(e), PERSISTENCE_HISTORY_CAPACITY as nat),
                None => old(self).events(),
            },
    {
        if let Some(event) = failure.event() {
            let mut one: Vec<PersistenceEvent> = Vec::new();
            one.push(event);
            self.record_events(one);
            assert(old(self).events() + one@ =~= old(self).events().push(event));
        }
    }

    /// The newest event.
    pub fn latest(&self) -> (latest: Option<&PersistenceEvent>)
        ensures
            match latest {
                Some(e) => self.events().len() > 0 && *e == self.events().last(),
                None => self.events().len() == 0,
            },
    {
        if self.events.len() == 0 {
            None
        } else {
            Some(&self.events[self.events.len() - 1])
        }
    }

    pub fn len(&self) -> (n: usize)
        ensures
            n == self.events().len(),
    {
        self.events.len()
    }

    pub fn is_empty(&self) -> (empty: bool)
        ensures
            empty == (self.events().len() == 0),
    {
        self.events.len() == 0
    }
}

impl Default for PersistenceHistory {
    fn default() -> (history: PersistenceHistory)
        ensures
            history.wf(),
            history.events() == Seq::<PersistenceEvent>::empty(),
    {
        PersistenceHistory::new()
    }
}

/// However many events are recorded, the history keeps at most eight, and
/// the newest one recorded is the latest.
pub proof fn law_history_is_bounded_and_keeps_newest(old_events: Seq<PersistenceEvent>, added: Seq<PersistenceEvent>)
    requires
        added.len() > 0,
    ensures
        keep_newest(old_events + added, PERSISTENCE_HISTORY_CAPACITY as nat).len() <= PERSISTENCE_HISTORY_CAPACITY,
        keep_newest(old_events + added, PERSISTENCE_HISTORY_CAPACITY as nat).last() == added.last(),
{
}

pub open spec fn store_label(store: PersistenceStore) -> Seq<char> {
    match store {
        PersistenceStore::Config => "Config"@,
        PersistenceStore::ProjectCache => "Project cache"@,
        PersistenceStore::Todos => "Todos"@,
    }
}

pub open spec fn recovery_source_label(source: PersistenceRecoverySource) -> Seq<char> {
    match source {
        PersistenceRecoverySource::Backup => "backup"@,
        PersistenceRecoverySource::Temporary => "an interrupted write"@,
    }
}

/// The status line shown for a persistence event.
pub open spec fn status_text(event: PersistenceEvent) -> Seq<char> {
    match event {
        PersistenceEvent::Recovered { store, source } => store_label(store) + " recovered from "@
            + recovery_source_label(source) + "."@,
        PersistenceEvent::Conflict { store, operation } => match operation {
            PersistenceOperation::Recovery => store_label(store)
                + " recovery stopped because another instance changed it."@,
            PersistenceOperation::Write => store_label(store)
                + " save blocked while another instance is writing."@,
        },
    }
}

fn store_label_text(store: PersistenceStore) -> (label: &'static str)
    ensures
        label@ == store_label(store),
{
    match store {
        PersistenceStore::Config => "Config",
        PersistenceStore::ProjectCache => "Project cache",
        PersistenceStore::Todos => "Todos",
    }
}

fn recovery_source_text(source: PersistenceRecoverySource) -> (label: &'static str)
    ensures
        label@ == recovery_source_label(source),
{
    match source {
        PersistenceRecoverySource::Backup => "backup",
        PersistenceRecoverySource::Temporary => "an interrupted write",
    }
}

/// The status line shown for a persistence event.
pub fn persistence_status_text(event: &PersistenceEvent) -> (text: String)
    ensures
        text@ == status_text(*event),
{
    let mut out: Vec<char> = Vec::new();
    match event {
        PersistenceEvent::Recovered { store, source } => {
            push_text(&mut out, store_label_text(*store));
            push_text(&mut out, " recovered from ");
            push_text(&mut out, recovery_source_text(*source));
            push_text(&mut out, ".");
        },
        PersistenceEvent::Conflict { store, operation } => {
            push_text(&mut out, store_label_text(*store));
            match operation {
                PersistenceOperation::Recovery => {
                    push_text(&mut out, " recovery stopped because another instance changed it.");
                },
                PersistenceOperation::Write => {
                    push_text(&mut out, " save blocked while another instance is writing.");
                },
            }
        },
    }
    assert(out@ =~= status_text(*event));
    string_of(&out)
}

} // verus!
