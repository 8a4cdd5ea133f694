//! The crawl's decisions: which ID comes next, whether it is fetched, how
//! long to pause and when to write the checkpoint.
//!
//! The driver performs nothing. It is told what happened and answers with
//! what is to be done next.

use vstd::prelude::*;

verus! {

/// The ID below the first one that is visited.
pub const FLOOR: usize = 99;

/// After how many processed IDs the checkpoint is written.
pub const CADENCE: u64 = 80;

/// The least time from one request to the next, in milliseconds.
pub const MIN_INTERVAL_MS: u64 = 50;

/// How many torrents the catalogue is taken to hold where nothing better is
/// known.
pub const CATALOG_SIZE: u64 = 5559585;

/// Where the driver stands with the ID at its cursor.
#[derive(Debug, Clone, Copy, PartialEq, Eq)]
pub enum Phase {
    /// Between two IDs: the next candidate is to be looked up.
    Idle,
    /// The detail page is being fetched.
    Fetching,
    /// The response is being read.
    Extracting,
    /// The result is being recorded.
    Recording,
    /// The pause before the next request.
    Throttling,
}

/// What the driver is told.
#[derive(Debug, Clone, Copy, PartialEq, Eq)]
pub enum Event {
    /// The store was asked for the next candidate and says whether it was
    /// visited.
    Looked { visited: bool },
    /// The response to the request arrived.
    Fetched,
    /// The response gave a record or the notice of absence.
    Extracted,
    /// The result was handed to the store.
    Recorded,
    /// The request or the reading failed.
    Failed,
    /// The pause is over.
    Slept,
}

/// What the driver asks for.
#[derive(Debug, Clone, Copy, PartialEq, Eq)]
pub enum Action {
    /// Look the next candidate up in the store.
    Look,
    /// Fetch the detail page of this ID.
    Fetch(usize),
    /// Read the response for this ID.
    Extract(usize),
    /// Record what the response gave for this ID.
    Record(usize),
    /// Write the checkpoint if `flush` says so, then pause.
    Pause { flush: bool },
    /// The event does not fit the phase: nothing changed.
    Refused,
    /// No ID is left.
    Halt,
}

/// What a [`Driver`] holds.
pub struct DriverView {
    pub phase: Phase,
    /// The ID that is being handled or was handled last.
    pub cursor: usize,
    /// How many IDs were fetched in this run, failures included.
    pub processed: u64,
}

impl DriverView {
    /// The driver at the start of a run.
    pub open spec fn start() -> DriverView {
        DriverView { phase: Phase::Idle, cursor: FLOOR, processed: 0 }
    }

    /// The state after `event`.
    pub open spec fn next(self, event: Event) -> DriverView {
        match (self.phase, event) {
            (Phase::Idle, Event::Looked { visited }) => if self.cursor == usize::MAX {
                self
            } else if visited {
                DriverView { cursor: (self.cursor + 1) as usize, ..self }
            } else {
                DriverView { phase: Phase::Fetching, cursor: (self.cursor + 1) as usize, ..self }
            },
            (Phase::Fetching, Event::Fetched) => DriverView { phase: Phase::Extracting, ..self },
            (Phase::Extracting, Event::Extracted) => DriverView { phase: Phase::Recording, ..self },
            (Phase::Recording, Event::Recorded) | (Phase::Fetching, Event::Failed) | (
                Phase::Extracting,
                Event::Failed,
            ) => DriverView {
                phase: Phase::Throttling,
                processed: (self.processed + 1) as u64,
                ..self
            },
            (Phase::Throttling, Event::Slept) => DriverView { phase: Phase::Idle, ..self },
            _ => self,
        }
    }

    /// What is to be done after `event`.
    pub open spec fn action(self, event: Event) -> Action {
        match (self.phase, event) {
            (Phase::Idle, Event::Looked { visited }) => if self.cursor == usize::MAX {
                Action::Halt
            } else if visited {
                Action::Look
            } else {
                Action::Fetch((self.cursor + 1) as usize)
            },
            (Phase::Fetching, Event::Fetched) => Action::Extract(self.cursor),
            (Phase::Extracting, Event::Extracted) => Action::Record(self.cursor),
            (Phase::Recording, Event::Recorded) | (Phase::Fetching, Event::Failed) | (
                Phase::Extracting,
                Event::Failed,
            ) => Action::Pause { flush: (self.processed + 1) % (CADENCE as int) == 0 },
            (Phase::Throttling, Event::Slept) => Action::Look,
            _ => Action::Refused,
        }
    }
}

/// The crawl's state.
pub struct Driver {
    phase: Phase,
    cursor: usize,
    processed: u64,
}

impl View for Driver {
    type V = DriverView;

    closed spec fn view(&self) -> DriverView {
        DriverView { phase: self.phase, cursor: self.cursor, processed: self.processed }
    }
}

impl Driver {
    /// Every processed ID was first a candidate, and candidates start above
    /// the floor.
    #[verifier::type_invariant]
    closed spec fn counted(self) -> bool {
        self.processed + FLOOR + (if self.phase is Idle || self.phase is Throttling {
            0int
        } else {
            1int
        }) <= self.cursor
    }

    /// The driver at the start of a run.
    pub fn new() -> (r: Driver)
        ensures
            r@ == DriverView::start(),
    {
        Driver { phase: Phase::Idle, cursor: FLOOR, processed: 0 }
    }

    /// The ID that is looked up next; `None` where no ID is left.
    pub fn candidate(&self) -> (r: Option<usize>)
        ensures
            r == if self@.cursor == usize::MAX {
                None
            } else {
                Some((self@.cursor + 1) as usize)
            },
    {
        if self.cursor == usize::MAX {
            None
        } else {
            Some(self.cursor + 1)
        }
    }

    /// The ID that is being handled or was handled last.
    pub fn cursor(&self) -> (r: usize)
        ensures
            r == self@.cursor,
    {
        self.cursor
    }

    /// The phase that the driver is in.
    pub fn phase(&self) -> (r: Phase)
        ensures
            r == self@.phase,
    {
        self.phase
    }

    /// How many IDs were fetched in this run.
    pub fn processed(&self) -> (r: u64)
        ensures
            r == self@.processed,
    {
        self.processed
    }

    /// Takes `event` and says what is to be done next.
    pub fn step(&mut self, event: Event) -> (r: Action)
        ensures
            final(self)@ == old(self)@.next(event),
            r == old(self)@.action(event),
    {
        proof {
            use_type_invariant(&*self);
        }
        match (self.phase, event) {
            (Phase::Idle, Event::Looked { visited }) => {
                if self.cursor == usize::MAX {
                    Action::Halt
                } else if visited {
                    self.cursor = self.cursor + 1;
                    Action::Look
                } else {
                    let id = self.cursor + 1;
                    *self = Driver { phase: Phase::Fetching, cursor: id, processed: self.processed };
                    Action::Fetch(id)
                }
            },
            (Phase::Fetching, Event::Fetched) => {
                self.phase = Phase::Extracting;
                Action::Extract(self.cursor)
            },
            (Phase::Extracting, Event::Extracted) => {
                self.phase = Phase::Recording;
                Action::Record(self.cursor)
            },
            (Phase::Recording, Event::Recorded) | (Phase::Fetching, Event::Failed) | (
                Phase::Extracting,
                Event::Failed,
            ) => {
                let processed = self.processed + 1;
                *self = Driver { phase: Phase::Throttling, cursor: self.cursor, processed };
                Action::Pause { flush: processed % CADENCE == 0 }
            },
            (Phase::Throttling, Event::Slept) => {
                self.phase = Phase::Idle;
                Action::Look
            },
            _ => Action::Refused,
        }
    }
}

/// How long to pause after a request that took `spent_ms` milliseconds, so
/// that requests are at least [`MIN_INTERVAL_MS`] apart.
pub fn pacing_delay(spent_ms: u64) -> (r: u64)
    ensures
        r == if spent_ms >= MIN_INTERVAL_MS {
            0
        } else {
            MIN_INTERVAL_MS - spent_ms
        },
{
    if spent_ms >= MIN_INTERVAL_MS {
        0
    } else {
        MIN_INTERVAL_MS - spent_ms
    }
}

/// How far the crawl has come, in hundredths of a percent of a catalogue of
/// `catalog_size` torrents, when it stands at the ID `cursor`.
pub fn progress_hundredths(cursor: usize, catalog_size: u64) -> (r: Option<u128>)
    ensures
        r == if catalog_size == 0 {
            None
        } else {
            Some((cursor as int * 10000 / catalog_size as int) as u128)
        },
{
    if catalog_size == 0 {
        None
    } else {
        let done: u128 = cursor as u128 * 10000;
        Some(done / catalog_size as u128)
    }
}

/// How many milliseconds the rest of a catalogue of `catalog_size` torrents
/// will take, at the average pace of the `processed` IDs that took
/// `elapsed_ms` milliseconds so far. `None` before the first ID.
pub fn remaining_millis(elapsed_ms: u64, processed: u64, catalog_size: u64) -> (r: Option<u128>)
    ensures
        r == if processed == 0 {
            None
        } else if processed >= catalog_size {
            Some(0u128)
        } else {
            Some(((catalog_size - processed) * elapsed_ms / processed as int) as u128)
        },
{
    if processed == 0 {
        None
    } else if processed >= catalog_size {
        Some(0)
    } else {
        let left: u64 = catalog_size - processed;
        assert(left * elapsed_ms <= 0xffff_ffff_ffff_ffff * 0xffff_ffff_ffff_ffff)
            by (nonlinear_arith)
            requires
                left <= 0xffff_ffff_ffff_ffff,
                elapsed_ms <= 0xffff_ffff_ffff_ffff,
        ;
        let total: u128 = left as u128 * elapsed_ms as u128;
        Some(total / processed as u128)
    }
}

} // verus!
