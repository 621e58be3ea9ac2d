//! The life of the venue streams, as a machine that is told what happened
//! and answers what to do next.
//!
//! The caller opens streams, fetches snapshots, reads frames and sleeps. The
//! machine decides: it buffers the diffs that arrive before the snapshots,
//! rebuilds the book from the snapshots, lets the buffered diffs follow,
//! applies diffs as they come, and starts over after a pause when a stream
//! ends or a gap shows.

use crate::aggregated_orderbook::{AggregatedOrderBook, BookState};
use crate::decode::{
    binance_diff, binance_first_update, bitstamp_diff, parse_binance_first_update, Content,
    VenueError,
};
use crate::json::{json_document, Json};
use crate::types::{Exchange, OrderBook, OrderBookUpdate};
use vstd::prelude::*;

verus! {

/// The pause before the streams are opened again, in milliseconds.
pub const BACKOFF_MILLIS: u64 = 2000;

/// A diff as a venue sent it: the update, and the id of the first update
/// that it covers. Binance numbers its updates one by one, and a diff of
/// Binance covers those from `first_update_id` to the id of the update.
pub struct Diff {
    pub first_update_id: u64,
    pub update: OrderBookUpdate,
}

/// What a diff holds.
pub struct DiffContent {
    pub first_update_id: u64,
    pub update: Content,
}

impl View for Diff {
    type V = DiffContent;

    open spec fn view(&self) -> DiffContent {
        DiffContent { first_update_id: self.first_update_id, update: self.update@ }
    }
}

/// The diff that a document of `exchange` is. One of Binance needs the id of
/// its first update beside what makes a diff frame; one of Bitstamp has no
/// such id, and the id of the update stands in for it.
pub open spec fn diff_of(exchange: Exchange, doc: Json) -> Option<DiffContent> {
    match exchange {
        Exchange::Binance => match (binance_first_update(doc), binance_diff(doc)) {
            (Some(first_update_id), Some(update)) => Some(
                DiffContent { first_update_id, update },
            ),
            _ => None,
        },
        Exchange::Bitstamp => match bitstamp_diff(doc) {
            Some(update) => Some(DiffContent { first_update_id: update.update_id, update }),
            None => None,
        },
    }
}

/// The diff that a text frame of `exchange` holds.
pub open spec fn diff_in(exchange: Exchange, text: Seq<char>) -> Option<DiffContent> {
    match json_document(text) {
        Some(doc) => diff_of(exchange, doc),
        None => None,
    }
}

impl Diff {
    /// Reads a document of `exchange` as a diff.
    pub fn from_document(exchange: Exchange, doc: &Json) -> (r: Option<Diff>)
        ensures
            match r {
                Some(diff) => diff_of(exchange, *doc) == Some(diff@),
                None => diff_of(exchange, *doc) is None,
            },
    {
        match exchange {
            Exchange::Binance => {
                let first = parse_binance_first_update(doc);
                let update = OrderBookUpdate::parse_binance_diff(doc);
                match (first, update) {
                    (Some(first_update_id), Some(update)) => Some(
                        Diff { first_update_id, update },
                    ),
                    _ => None,
                }
            },
            Exchange::Bitstamp => match OrderBookUpdate::parse_bitstamp(doc) {
                Some(update) => Some(Diff { first_update_id: update.update_id, update }),
                None => None,
            },
        }
    }

    /// Reads a text frame of `exchange` as a diff.
    pub fn from_frame(exchange: Exchange, text: &str) -> (r: Option<Diff>)
        ensures
            match r {
                Some(diff) => diff_in(exchange, text@) == Some(diff@),
                None => diff_in(exchange, text@) is None,
            },
    {
        match Json::parse(text) {
            Some(doc) => Self::from_document(exchange, &doc),
            None => None,
        }
    }
}

/// Where the machine stands.
#[derive(Clone, Copy, Debug, PartialEq, Eq, Structural)]
pub enum Phase {
    /// The streams are being opened.
    Connecting,
    /// The streams are open and the snapshots are being fetched; diffs that
    /// arrive are kept for later.
    Fetching,
    /// The snapshots are merged; no diff of Binance has followed its
    /// snapshot yet.
    Reconciling,
    /// Diffs are applied as they arrive.
    Steady,
    /// The streams are closed; the machine waits before it starts over.
    BackingOff,
    /// The machine was cancelled.
    Stopped,
}

/// What happened.
pub enum Event {
    /// Both streams are open.
    StreamsOpened,
    /// The snapshots of the venues have arrived.
    SnapshotsFetched(Vec<OrderBook>),
    /// A snapshot could not be had.
    SnapshotsFailed,
    /// A diff has arrived.
    DiffReceived(Diff),
    /// A frame has arrived that says nothing of the book: a ping, a pong,
    /// the answer to a subscription, or a frame that could not be read.
    FrameIgnored,
    /// A venue has closed its stream.
    StreamClosed,
    /// Reading a stream has failed.
    TransportFailed,
    /// The time allowed for the first diff of Binance to follow its
    /// snapshot is over.
    ReconcileTimedOut,
    /// The pause is over.
    BackoffElapsed,
    /// The caller gives up.
    Cancelled,
}

impl Event {
    /// What a text frame of `exchange` amounts to: a diff where it holds
    /// one, else a frame to ignore.
    pub fn from_frame(exchange: Exchange, text: &str) -> (event: Event)
        ensures
            match diff_in(exchange, text@) {
                Some(content) => event matches Event::DiffReceived(diff) && diff@ == content,
                None => event is FrameIgnored,
            },
    {
        match Diff::from_frame(exchange, text) {
            Some(diff) => Event::DiffReceived(diff),
            None => Event::FrameIgnored,
        }
    }

    /// What the answers to the two requests for a snapshot amount to: the
    /// snapshots, that of Bitstamp first, where both were had; else the
    /// failure to have them.
    pub fn from_snapshots(
        binance: Result<OrderBook, VenueError>,
        bitstamp: Result<OrderBook, VenueError>,
    ) -> (event: Event)
        ensures
            match (binance, bitstamp) {
                (Ok(first), Ok(second)) => event matches Event::SnapshotsFetched(snapshots)
                    && snapshots@ == seq![second, first],
                _ => event is SnapshotsFailed,
            },
    {
        match (binance, bitstamp) {
            (Ok(first), Ok(second)) => {
                let mut snapshots: Vec<OrderBook> = Vec::new();
                snapshots.push(second);
                snapshots.push(first);
                assert(snapshots@ =~= seq![second, first]);
                Event::SnapshotsFetched(snapshots)
            },
            _ => Event::SnapshotsFailed,
        }
    }
}

/// What to do next.
#[derive(Clone, Copy, Debug, PartialEq, Eq, Structural)]
pub enum Action {
    /// Open both streams.
    OpenStreams,
    /// Fetch the snapshots of both venues, and go on reading the streams.
    FetchSnapshots,
    /// Go on waiting for what happens next.
    Continue,
    /// Close the streams and wait for this many milliseconds.
    Backoff(u64),
    /// Close the streams and end.
    Stop,
}

/// What becomes of a diff.
#[derive(Clone, Copy, Debug, PartialEq, Eq, Structural)]
pub enum Admission {
    /// It is handed to the book.
    Apply,
    /// It is not newer than what the book has of its venue, and is dropped.
    Drop,
    /// It is of Binance, the first to be newer than the snapshot, and it
    /// starts past the update that follows the snapshot: updates are missing.
    Gap,
}

/// The machine: its phase, the diffs kept for later, and whether a diff of
/// Binance has followed the snapshot.
pub struct Lifecycle {
    pub phase: Phase,
    pub pending: Vec<Diff>,
    pub binance_synced: bool,
}

/// The book and the machine's flag while diffs follow a snapshot.
pub struct Progress {
    pub book: BookState,
    pub synced: bool,
    pub gap: bool,
}

/// What becomes of a diff, given the last update that the book has of its
/// venue and whether a diff of Binance has followed the snapshot.
pub open spec fn admission(last: Option<u64>, synced: bool, diff: Diff) -> Admission {
    match last {
        None => Admission::Apply,
        Some(last) => if diff.update.update_id <= last {
            Admission::Drop
        } else if diff.update.exchange == Exchange::Binance && !synced && diff.first_update_id
            > last + 1 {
            Admission::Gap
        } else {
            Admission::Apply
        },
    }
}

/// Where things stand once one more diff has followed: nothing changes
/// after a gap or for a diff that is dropped; a diff that is admitted is
/// handed to the book, and one of Binance that the book applies sets the
/// flag.
pub open spec fn fed(p: Progress, diff: Diff) -> Progress {
    if p.gap {
        p
    } else {
        match admission(p.book.last_update_id.of(diff.update.exchange), p.synced, diff) {
            Admission::Drop => p,
            Admission::Gap => Progress { book: p.book, synced: p.synced, gap: true },
            Admission::Apply => Progress {
                book: p.book.after_update(diff.update),
                synced: p.synced || (diff.update.exchange == Exchange::Binance && p.book.verdict(
                    diff.update,
                ) is Ok),
                gap: false,
            },
        }
    }
}

/// Where things stand once the diffs have followed one by one, first to
/// last.
pub open spec fn fed_all(p: Progress, diffs: Seq<Diff>) -> Progress
    decreases diffs.len(),
{
    if diffs.len() == 0 {
        p
    } else {
        fed(fed_all(p, diffs.drop_last()), diffs.last())
    }
}

/// The phase after diffs have followed a snapshot.
pub open spec fn phase_after(p: Progress) -> Phase {
    if p.gap {
        Phase::BackingOff
    } else if p.synced {
        Phase::Steady
    } else {
        Phase::Reconciling
    }
}

/// What to do after diffs have followed a snapshot.
pub open spec fn action_after(p: Progress) -> Action {
    if p.gap {
        Action::Backoff(BACKOFF_MILLIS)
    } else {
        Action::Continue
    }
}

/// The book rebuilt from the snapshots: without the earlier quotes of either
/// venue, and with the snapshots merged.
pub open spec fn rebuilt(book: BookState, snapshots: Seq<OrderBook>) -> BookState {
    book.purged(Exchange::Binance).purged(Exchange::Bitstamp).merged_all(snapshots)
}

/// What a step leads to.
pub struct Outcome {
    pub phase: Phase,
    pub pending: Seq<Diff>,
    pub synced: bool,
    pub book: BookState,
    pub action: Action,
}

impl Lifecycle {
    /// The machine is in order: diffs are kept only while the snapshots are
    /// fetched, and the flag is up in steady state and in no other phase.
    pub open spec fn wf(&self) -> bool {
        &&& self.phase != Phase::Fetching ==> self.pending@.len() == 0
        &&& self.binance_synced <==> self.phase == Phase::Steady
    }

    /// The machine and the book as they stand, with `action` to do.
    pub open spec fn stay(self, book: BookState, action: Action) -> Outcome {
        Outcome {
            phase: self.phase,
            pending: self.pending@,
            synced: self.binance_synced,
            book,
            action,
        }
    }

    /// The machine in `phase` with nothing kept and the flag down, the book
    /// as it stands, with `action` to do.
    pub open spec fn turn(phase: Phase, book: BookState, action: Action) -> Outcome {
        Outcome { phase, pending: Seq::empty(), synced: false, book, action }
    }

    /// The machine once diffs have followed a snapshot.
    pub open spec fn settle(p: Progress) -> Outcome {
        Outcome {
            phase: phase_after(p),
            pending: Seq::empty(),
            synced: p.synced && !p.gap,
            book: p.book,
            action: action_after(p),
        }
    }

    /// What a step leads to, from this machine and `book`, when `event`
    /// happens.
    ///
    /// A cancellation ends the machine in any phase and leaves the book as
    /// it is. A closed stream or a failed read leads to the pause, from any
    /// phase in which streams are open or being opened. Apart from these:
    /// while connecting, the opening of the streams leads to the fetching of
    /// the snapshots; while fetching, diffs are kept, and the snapshots
    /// rebuild the book, after which the diffs kept follow; while
    /// reconciling and in steady state, a diff follows as it arrives; in the
    /// pause, its end leads to connecting again. Anything else changes
    /// nothing.
    pub open spec fn next(self, book: BookState, event: Event) -> Outcome {
        match (self.phase, event) {
            (Phase::Stopped, _) => self.stay(book, Action::Stop),
            (_, Event::Cancelled) => Self::turn(Phase::Stopped, book, Action::Stop),
            (Phase::BackingOff, Event::BackoffElapsed) => Self::turn(
                Phase::Connecting,
                book,
                Action::OpenStreams,
            ),
            (Phase::BackingOff, _) => self.stay(book, Action::Continue),
            (_, Event::StreamClosed) | (_, Event::TransportFailed) => Self::turn(
                Phase::BackingOff,
                book,
                Action::Backoff(BACKOFF_MILLIS),
            ),
            (Phase::Connecting, Event::StreamsOpened) => Self::turn(
                Phase::Fetching,
                book,
                Action::FetchSnapshots,
            ),
            (Phase::Fetching, Event::DiffReceived(diff)) => Outcome {
                phase: Phase::Fetching,
                pending: self.pending@.push(diff),
                synced: self.binance_synced,
                book,
                action: Action::Continue,
            },
            (Phase::Fetching, Event::SnapshotsFetched(snapshots)) => Self::settle(
                fed_all(
                    Progress { book: rebuilt(book, snapshots@), synced: false, gap: false },
                    self.pending@,
                ),
            ),
            (Phase::Fetching, Event::SnapshotsFailed) => Self::turn(
                Phase::BackingOff,
                book,
                Action::Backoff(BACKOFF_MILLIS),
            ),
            (Phase::Reconciling, Event::DiffReceived(diff)) | (
                Phase::Steady,
                Event::DiffReceived(diff),
            ) => Self::settle(
                fed(Progress { book, synced: self.binance_synced, gap: false }, diff),
            ),
            (Phase::Reconciling, Event::ReconcileTimedOut) => Self::turn(
                Phase::BackingOff,
                book,
                Action::Backoff(BACKOFF_MILLIS),
            ),
            _ => self.stay(book, Action::Continue),
        }
    }

    /// The machine met its outcome: it is in the outcome's phase, keeps the
    /// outcome's diffs, and has the outcome's flag.
    pub open spec fn is_at(self, outcome: Outcome) -> bool {
        &&& self.phase == outcome.phase
        &&& self.pending@ == outcome.pending
        &&& self.binance_synced == outcome.synced
    }

    /// The machine before anything happened: connecting, with nothing kept.
    /// The first thing to do is to open the streams.
    pub fn new() -> (machine: Self)
        ensures
            machine.phase == Phase::Connecting,
            machine.pending@ == Seq::<Diff>::empty(),
            !machine.binance_synced,
            machine.wf(),
    {
        Lifecycle { phase: Phase::Connecting, pending: Vec::new(), binance_synced: false }
    }

    /// What becomes of `diff`, given the last update that the book has of its
    /// venue and whether a diff of Binance has followed the snapshot.
    pub fn judge(last: Option<u64>, synced: bool, diff: &Diff) -> (r: Admission)
        ensures
            r == admission(last, synced, *diff),
    {
        match last {
            None => Admission::Apply,
            Some(last) => {
                if diff.update.update_id <= last {
                    Admission::Drop
                } else if diff.update.exchange == Exchange::Binance && !synced
                    && diff.first_update_id > last && diff.first_update_id - last > 1 {
                    Admission::Gap
                } else {
                    Admission::Apply
                }
            },
        }
    }

    /// Lets one diff follow: drops it, hands it to the book, or finds a gap.
    /// Returns whether a gap was found.
    pub fn feed(&mut self, book: &mut AggregatedOrderBook, diff: &Diff) -> (gap: bool)
        ensures
            old(book).wf() ==> final(book).wf(),
            final(self).phase == old(self).phase,
            final(self).pending == old(self).pending,
            (Progress { book: final(book)@, synced: final(self).binance_synced, gap }) == fed(
                Progress { book: old(book)@, synced: old(self).binance_synced, gap: false },
                *diff,
            ),
    {
        let last = book.last_update_id.get(diff.update.exchange);
        match Self::judge(last, self.binance_synced, diff) {
            Admission::Drop => false,
            Admission::Gap => true,
            Admission::Apply => {
                let applied = book.try_apply_update(&diff.update);
                if applied.is_ok() && diff.update.exchange == Exchange::Binance {
                    self.binance_synced = true;
                }
                false
            },
        }
    }

    /// Lets the diffs follow one by one, first to last, up to the first gap.
    /// Returns whether a gap was found.
    pub fn feed_all(&mut self, book: &mut AggregatedOrderBook, diffs: &Vec<Diff>) -> (gap: bool)
        ensures
            old(book).wf() ==> final(book).wf(),
            final(self).phase == old(self).phase,
            final(self).pending == old(self).pending,
            (Progress { book: final(book)@, synced: final(self).binance_synced, gap }) == fed_all(
                Progress { book: old(book)@, synced: old(self).binance_synced, gap: false },
                diffs@,
            ),
    {
        let ghost start = Progress {
            book: old(book)@,
            synced: old(self).binance_synced,
            gap: false,
        };
        let mut i: usize = 0;
        assert(diffs@.take(0) =~= Seq::<Diff>::empty());
        while i < diffs.len()
            invariant
                0 <= i <= diffs.len(),
                old(book).wf() ==> book.wf(),
                start == (Progress {
                    book: old(book)@,
                    synced: old(self).binance_synced,
                    gap: false,
                }),
                self.phase == old(self).phase,
                self.pending == old(self).pending,
                (Progress { book: book@, synced: self.binance_synced, gap: false }) == fed_all(
                    start,
                    diffs@.take(i as int),
                ),
            decreases diffs.len() - i,
        {
            let gap = self.feed(book, &diffs[i]);
            proof {
                assert(diffs@.take(i + 1).drop_last() =~= diffs@.take(i as int));
                assert(diffs@.take(i + 1).last() == diffs@[i as int]);
                assert((Progress { book: book@, synced: self.binance_synced, gap }) == fed_all(
                    start,
                    diffs@.take(i + 1),
                ));
            }
            if gap {
                proof {
                    let here = Progress { book: book@, synced: self.binance_synced, gap: true };
                    lemma_gap_stays(here, diffs@, i + 1, start);
                }
                return true;
            }
            i = i + 1;
        }
        assert(diffs@.take(diffs.len() as int) =~= diffs@);
        false
    }

    /// Enters `phase` with nothing kept and the flag down.
    fn enter(&mut self, phase: Phase)
        ensures
            final(self).phase == phase,
            final(self).pending@ == Seq::<Diff>::empty(),
            !final(self).binance_synced,
    {
        self.phase = phase;
        self.pending = Vec::new();
        self.binance_synced = false;
    }

    /// Ends a round of following diffs: after a gap the machine goes into
    /// the pause, else into steady state where a diff of Binance has
    /// followed, else it reconciles.
    fn settle_down(&mut self, gap: bool) -> (action: Action)
        ensures
            final(self).is_at(
                Self::settle(
                    Progress { book: BookState::empty(), synced: old(self).binance_synced, gap },
                ),
            ),
            action == action_after(
                Progress { book: BookState::empty(), synced: old(self).binance_synced, gap },
            ),
    {
        self.pending = Vec::new();
        if gap {
            self.phase = Phase::BackingOff;
            self.binance_synced = false;
            Action::Backoff(BACKOFF_MILLIS)
        } else if self.binance_synced {
            self.phase = Phase::Steady;
            Action::Continue
        } else {
            self.phase = Phase::Reconciling;
            Action::Continue
        }
    }

    /// Takes note of what happened, changes the book where that is called
    /// for, and says what to do next.
    pub fn step(&mut self, book: &mut AggregatedOrderBook, event: Event) -> (action: Action)
        ensures
            old(book).wf() ==> final(book).wf(),
            final(self).is_at(old(self).next(old(book)@, event)),
            final(book)@ == old(self).next(old(book)@, event).book,
            action == old(self).next(old(book)@, event).action,
            old(self).wf() ==> final(self).wf(),
    {
        match self.phase {
            Phase::Stopped => {
                return Action::Stop;
            },
            _ => {},
        }
        match event {
            Event::Cancelled => {
                self.enter(Phase::Stopped);
                return Action::Stop;
            },
            _ => {},
        }
        match self.phase {
            Phase::BackingOff => {
                match event {
                    Event::BackoffElapsed => {
                        self.enter(Phase::Connecting);
                        return Action::OpenStreams;
                    },
                    _ => {
                        return Action::Continue;
                    },
                }
            },
            _ => {},
        }
        match event {
            Event::StreamClosed | Event::TransportFailed => {
                self.enter(Phase::BackingOff);
                Action::Backoff(BACKOFF_MILLIS)
            },
            Event::StreamsOpened => {
                match self.phase {
                    Phase::Connecting => {
                        self.enter(Phase::Fetching);
                        Action::FetchSnapshots
                    },
                    _ => Action::Continue,
                }
            },
            Event::SnapshotsFailed => {
                match self.phase {
                    Phase::Fetching => {
                        self.enter(Phase::BackingOff);
                        Action::Backoff(BACKOFF_MILLIS)
                    },
                    _ => Action::Continue,
                }
            },
            Event::ReconcileTimedOut => {
                match self.phase {
                    Phase::Reconciling => {
                        self.enter(Phase::BackingOff);
                        Action::Backoff(BACKOFF_MILLIS)
                    },
                    _ => Action::Continue,
                }
            },
            Event::DiffReceived(diff) => {
                match self.phase {
                    Phase::Fetching => {
                        self.pending.push(diff);
                        Action::Continue
                    },
                    Phase::Reconciling | Phase::Steady => {
                        let gap = self.feed(book, &diff);
                        self.settle_down(gap)
                    },
                    _ => Action::Continue,
                }
            },
            Event::SnapshotsFetched(snapshots) => {
                match self.phase {
                    Phase::Fetching => {
                        book.purge_venue(Exchange::Binance);
                        book.purge_venue(Exchange::Bitstamp);
                        book.merge_snapshots(snapshots);
                        let mut kept: Vec<Diff> = Vec::new();
                        core::mem::swap(&mut kept, &mut self.pending);
                        self.binance_synced = false;
                        let gap = self.feed_all(book, &kept);
                        self.settle_down(gap)
                    },
                    _ => Action::Continue,
                }
            },
            _ => Action::Continue,
        }
    }
}

/// A step leaves a machine that is in order in order.
pub proof fn law_steps_keep_the_machine_in_order(
    machine: Lifecycle,
    book: BookState,
    event: Event,
    after: Lifecycle,
)
    requires
        machine.wf(),
        after.is_at(machine.next(book, event)),
    ensures
        after.wf(),
{
}

/// A cancellation ends the machine in any phase and leaves the book as it
/// is.
pub proof fn law_cancelling_leaves_the_book(machine: Lifecycle, book: BookState)
    ensures
        machine.next(book, Event::Cancelled).phase == Phase::Stopped,
        machine.next(book, Event::Cancelled).action == Action::Stop,
        machine.next(book, Event::Cancelled).book == book,
{
}

/// A stream that ends, by a close or by a failed read, leads to a pause of
/// two seconds from any phase but the pause itself and the end; the book
/// stays as it is, and what was kept is dropped.
pub proof fn law_a_stream_that_ends_leads_to_the_pause(
    machine: Lifecycle,
    book: BookState,
    closed: bool,
)
    requires
        machine.phase != Phase::Stopped,
        machine.phase != Phase::BackingOff,
    ensures
        ({
            let event = if closed {
                Event::StreamClosed
            } else {
                Event::TransportFailed
            };
            let outcome = machine.next(book, event);
            &&& outcome.phase == Phase::BackingOff
            &&& outcome.action == Action::Backoff(2000)
            &&& outcome.book == book
            &&& outcome.pending == Seq::<Diff>::empty()
        }),
{
}

/// Once the snapshots are merged, a diff that is not newer than what the
/// book has of its venue is dropped: the book and the phase stay, and the
/// machine goes on.
pub proof fn law_a_stale_diff_is_dropped(machine: Lifecycle, book: BookState, diff: Diff)
    requires
        machine.wf(),
        machine.phase == Phase::Reconciling || machine.phase == Phase::Steady,
        book.last_update_id.of(diff.update.exchange) matches Some(last) && diff.update.update_id
            <= last,
    ensures
        machine.next(book, Event::DiffReceived(diff)).book == book,
        machine.next(book, Event::DiffReceived(diff)).phase == machine.phase,
        machine.next(book, Event::DiffReceived(diff)).action == Action::Continue,
{
}

/// While no diff of Binance has followed the snapshot, one that is newer
/// and starts past the update after the snapshot leads to the pause, and the
/// book stays as it is; one that covers that update is handed to the book.
pub proof fn law_the_first_diff_of_binance_bridges_or_restarts(
    machine: Lifecycle,
    book: BookState,
    diff: Diff,
)
    requires
        machine.wf(),
        machine.phase == Phase::Reconciling,
        diff.update.exchange == Exchange::Binance,
        book.last_update_id.of(Exchange::Binance) matches Some(last) && last
            < diff.update.update_id,
    ensures
        ({
            let last = book.last_update_id.of(Exchange::Binance).unwrap();
            let outcome = machine.next(book, Event::DiffReceived(diff));
            if diff.first_update_id > last + 1 {
                &&& outcome.phase == Phase::BackingOff
                &&& outcome.action == Action::Backoff(BACKOFF_MILLIS)
                &&& outcome.book == book
            } else {
                &&& outcome.book == book.after_update(diff.update)
                &&& outcome.action == Action::Continue
                &&& outcome.phase == (if book.verdict(diff.update) is Ok {
                    Phase::Steady
                } else {
                    Phase::Reconciling
                })
            }
        }),
{
}

/// A diff of Bitstamp that is newer than what the book has of Bitstamp is
/// handed to the book, wherever Binance stands.
pub proof fn law_bitstamp_needs_no_bridge(machine: Lifecycle, book: BookState, diff: Diff)
    requires
        machine.phase == Phase::Reconciling || machine.phase == Phase::Steady,
        diff.update.exchange == Exchange::Bitstamp,
        book.last_update_id.of(Exchange::Bitstamp) matches Some(last) ==> last
            < diff.update.update_id,
    ensures
        machine.next(book, Event::DiffReceived(diff)).book == book.after_update(diff.update),
        machine.next(book, Event::DiffReceived(diff)).action == Action::Continue,
{
}

/// Once a gap is found, the diffs that come after it change nothing.
pub proof fn lemma_gap_stays(p: Progress, diffs: Seq<Diff>, n: int, start: Progress)
    requires
        0 <= n <= diffs.len(),
        p.gap,
        p == fed_all(start, diffs.take(n)),
    ensures
        fed_all(start, diffs) == p,
    decreases diffs.len() - n,
{
    if n == diffs.len() {
        assert(diffs.take(n) =~= diffs);
    } else {
        assert(diffs.take(n + 1).drop_last() =~= diffs.take(n));
        lemma_gap_stays(p, diffs, n + 1, start);
    }
}

} // verus!
