//! The archiver's schedule.
//!
//! A single background thread polls the log stream and any archive streams for
//! records, writes their lines, flushes, and waits when there is nothing to do.
//! On shutdown it drains what is left. The thread asks [`Archiver::action`]
//! what to do, does it, and reports what came of it to [`Archiver::advance`].
//!
//! Stream 0 is the log stream; the archive streams follow.

use vstd::prelude::*;

verus! {

/// What the archiver thread is to do.
#[derive(Clone, Copy, Debug, PartialEq, Eq, Structural)]
pub enum Action {
    /// Read the running flag.
    LoadRunning,
    /// Take a record from this stream, if there is one, and write its line.
    Poll(usize),
    /// Flush this stream's writer.
    Flush(usize),
    /// Park until woken, or until the timeout has passed.
    Park,
    /// Spin for a moment.
    Spin,
    /// Return.
    Stop,
}

/// What came of an action.
#[derive(Clone, Copy, Debug, PartialEq, Eq, Structural)]
pub enum Event {
    /// The running flag, as it was read.
    Running(bool),
    /// There was a record, and its line was written.
    Record,
    /// There was no record.
    Empty,
    /// The writer was flushed, or the wait is over.
    Done,
}

/// Where the archiver stands.
#[derive(Clone, Copy, Debug, PartialEq, Eq, Structural)]
pub enum Phase {
    /// About to begin a round.
    Check,
    /// Polling a stream.
    Poll(usize),
    /// Flushing a stream after a round with work.
    Flush(usize),
    /// Waiting after a round without work.
    Idle,
    /// Draining a stream after shutdown.
    Drain(usize),
    /// Flushing a stream that was drained.
    DrainFlush(usize),
    /// Done.
    Stopped,
}

/// The state of the archiver's schedule.
#[derive(Clone, Copy, Debug, PartialEq, Eq, Structural)]
pub struct Archiver {
    /// How many streams there are.
    pub streams: usize,
    /// Whether the archiver parks when idle. Otherwise it spins.
    pub parks: bool,
    pub phase: Phase,
    /// Whether this round has seen a record.
    pub had_work: bool,
}

/// The events that can come of an action.
pub open spec fn answers(a: Action, e: Event) -> bool {
    match a {
        Action::LoadRunning => e is Running,
        Action::Poll(_) => e is Record || e is Empty,
        Action::Flush(_) => e is Done,
        Action::Park => e is Done,
        Action::Spin => e is Done,
        Action::Stop => false,
    }
}

impl Archiver {
    /// The phase speaks of a stream that exists.
    pub open spec fn wf(self) -> bool {
        &&& self.streams > 0
        &&& match self.phase {
            Phase::Poll(i) => i < self.streams,
            Phase::Flush(i) => i < self.streams,
            Phase::Drain(i) => i < self.streams,
            Phase::DrainFlush(i) => i < self.streams,
            _ => true,
        }
    }

    /// What is to be done in this state.
    pub open spec fn due(self) -> Action {
        match self.phase {
            Phase::Check => Action::LoadRunning,
            Phase::Poll(i) => Action::Poll(i),
            Phase::Flush(i) => Action::Flush(i),
            Phase::Idle => if self.parks {
                Action::Park
            } else {
                Action::Spin
            },
            Phase::Drain(i) => Action::Poll(i),
            Phase::DrainFlush(i) => Action::Flush(i),
            Phase::Stopped => Action::Stop,
        }
    }

    /// The phase that follows an event.
    pub open spec fn phase_after(self, e: Event) -> Phase {
        match self.phase {
            Phase::Check => if e == Event::Running(true) {
                Phase::Poll(0)
            } else {
                Phase::Drain(0)
            },
            Phase::Poll(i) => if e == Event::Record {
                Phase::Poll(i)
            } else if i + 1 < self.streams {
                Phase::Poll((i + 1) as usize)
            } else if self.had_work {
                Phase::Flush(0)
            } else {
                Phase::Idle
            },
            Phase::Flush(i) => if i + 1 < self.streams {
                Phase::Flush((i + 1) as usize)
            } else {
                Phase::Check
            },
            Phase::Idle => Phase::Check,
            Phase::Drain(i) => if e == Event::Record {
                Phase::Drain(i)
            } else {
                Phase::DrainFlush(i)
            },
            Phase::DrainFlush(i) => if i + 1 < self.streams {
                Phase::Drain((i + 1) as usize)
            } else {
                Phase::Stopped
            },
            Phase::Stopped => Phase::Stopped,
        }
    }

    /// The state that follows an event.
    pub open spec fn after(self, e: Event) -> Archiver {
        Archiver {
            phase: self.phase_after(e),
            had_work: if self.phase is Check {
                false
            } else {
                self.had_work || e == Event::Record
            },
            ..self
        }
    }

    /// The state after a run of events.
    pub open spec fn after_all(self, events: Seq<Event>) -> Archiver
        decreases events.len(),
    {
        if events.len() == 0 {
            self
        } else {
            self.after_all(events.drop_last()).after(events.last())
        }
    }

    /// The action that the event at index `i` answers.
    pub open spec fn action_at(self, events: Seq<Event>, i: int) -> Action {
        self.after_all(events.take(i)).due()
    }

    /// Every event of the run answers the action that was due.
    pub open spec fn runs(self, events: Seq<Event>) -> bool {
        forall|i: int| 0 <= i < events.len() ==> answers(self.action_at(events, i), #[trigger] events[i])
    }

    /// The schedule for a log stream and so many archive streams.
    pub open spec fn initial(archives: usize, parks: bool) -> Archiver {
        Archiver { streams: (archives + 1) as usize, parks, phase: Phase::Check, had_work: false }
    }

    /// The schedule at the start.
    pub fn new(archives: usize, parks: bool) -> (a: Archiver)
        requires
            archives < usize::MAX,
        ensures
            a == Archiver::initial(archives, parks),
            a.wf(),
    {
        Archiver { streams: archives + 1, parks, phase: Phase::Check, had_work: false }
    }

    /// What is to be done now.
    pub fn action(&self) -> (a: Action)
        ensures
            a == self.due(),
    {
        match self.phase {
            Phase::Check => Action::LoadRunning,
            Phase::Poll(i) => Action::Poll(i),
            Phase::Flush(i) => Action::Flush(i),
            Phase::Idle => if self.parks {
                Action::Park
            } else {
                Action::Spin
            },
            Phase::Drain(i) => Action::Poll(i),
            Phase::DrainFlush(i) => Action::Flush(i),
            Phase::Stopped => Action::Stop,
        }
    }

    /// Takes note of what came of the action that was due.
    pub fn advance(&mut self, e: Event)
        requires
            old(self).wf(),
            answers(old(self).due(), e),
        ensures
            *final(self) == old(self).after(e),
            final(self).wf(),
    {
        let record: bool = matches!(e, Event::Record);
        let phase: Phase = match self.phase {
            Phase::Check => match e {
                Event::Running(true) => Phase::Poll(0),
                _ => Phase::Drain(0),
            },
            Phase::Poll(i) => if record {
                Phase::Poll(i)
            } else if i + 1 < self.streams {
                Phase::Poll(i + 1)
            } else if self.had_work {
                Phase::Flush(0)
            } else {
                Phase::Idle
            },
            Phase::Flush(i) => if i + 1 < self.streams {
                Phase::Flush(i + 1)
            } else {
                Phase::Check
            },
            Phase::Idle => Phase::Check,
            Phase::Drain(i) => if record {
                Phase::Drain(i)
            } else {
                Phase::DrainFlush(i)
            },
            Phase::DrainFlush(i) => if i + 1 < self.streams {
                Phase::Drain(i + 1)
            } else {
                Phase::Stopped
            },
            Phase::Stopped => Phase::Stopped,
        };
        let had_work: bool = match self.phase {
            Phase::Check => false,
            _ => self.had_work || record,
        };
        self.phase = phase;
        self.had_work = had_work;
    }
}

// -- What every run keeps ------------------------------------------------------

/// Stream `i` was found empty and then flushed, at these indices of the run,
/// after index `k`.
pub open spec fn drained_at(start: Archiver, events: Seq<Event>, k: int, i: int, a: int, b: int) -> bool {
    &&& k < a < b < events.len()
    &&& start.action_at(events, a) == Action::Poll(i as usize)
    &&& events[a] == Event::Empty
    &&& start.action_at(events, b) == Action::Flush(i as usize)
}

/// Since index `k` of the run the first `m` streams were each found empty and
/// then flushed.
pub open spec fn drained_since(start: Archiver, events: Seq<Event>, k: int, m: int) -> bool {
    forall|i: int| #![trigger drained(start, events, k, i)] 0 <= i < m ==> drained(start, events, k, i)
}

/// Since index `k` of the run, stream `i` was found empty and then flushed.
pub open spec fn drained(start: Archiver, events: Seq<Event>, k: int, i: int) -> bool {
    exists|a: int, b: int| drained_at(start, events, k, i, a, b)
}

/// At index `k` of the run the running flag was read as cleared.
pub open spec fn shutdown_at(start: Archiver, events: Seq<Event>, k: int) -> bool {
    &&& 0 <= k < events.len()
    &&& start.action_at(events, k) == Action::LoadRunning
    &&& events[k] == Event::Running(false)
}

/// A longer run keeps the actions of a shorter one.
proof fn lemma_action_kept(start: Archiver, events: Seq<Event>, i: int)
    requires
        0 < events.len(),
        0 <= i < events.len(),
    ensures
        i < events.len() - 1 ==> start.action_at(events, i) == start.action_at(events.drop_last(), i),
        i == events.len() - 1 ==> start.action_at(events, i) == start.after_all(
            events.drop_last(),
        ).due(),
{
    if i < events.len() - 1 {
        assert(events.take(i) =~= events.drop_last().take(i));
    } else {
        assert(events.take(i) =~= events.drop_last());
    }
}

proof fn lemma_runs_shorter(start: Archiver, events: Seq<Event>)
    requires
        start.runs(events),
        0 < events.len(),
    ensures
        start.runs(events.drop_last()),
        answers(start.after_all(events.drop_last()).due(), events.last()),
{
    let shorter = events.drop_last();
    assert forall|i: int| 0 <= i < shorter.len() implies answers(
        start.action_at(shorter, i),
        #[trigger] shorter[i],
    ) by {
        lemma_action_kept(start, events, i);
        assert(answers(start.action_at(events, i), events[i]));
    }
    let last = events.len() - 1;
    lemma_action_kept(start, events, last);
    assert(answers(start.action_at(events, last), events[last]));
}

/// No run leaves the states whose phase speaks of a stream that exists.
pub proof fn law_runs_keep_wf(start: Archiver, events: Seq<Event>)
    requires
        start.wf(),
        start.runs(events),
    ensures
        start.after_all(events).wf(),
        start.after_all(events).streams == start.streams,
        start.after_all(events).parks == start.parks,
    decreases events.len(),
{
    if events.len() > 0 {
        lemma_runs_shorter(start, events);
        law_runs_keep_wf(start, events.drop_last());
    }
}

proof fn lemma_drained_kept(start: Archiver, events: Seq<Event>, k: int, i: int)
    requires
        0 < events.len(),
        0 <= k,
        drained(start, events.drop_last(), k, i),
    ensures
        drained(start, events, k, i),
{
    let shorter = events.drop_last();
    let (a, b) = choose|a: int, b: int| drained_at(start, shorter, k, i, a, b);
    lemma_action_kept(start, events, a);
    lemma_action_kept(start, events, b);
    assert(drained_at(start, events, k, i, a, b));
}

/// What a run has drained when it stands in a phase after shutdown, which was
/// seen at index `k`.
spec fn drained_in(start: Archiver, events: Seq<Event>, k: int, phase: Phase) -> bool {
    match phase {
        Phase::Drain(m) => {
            &&& shutdown_at(start, events, k)
            &&& drained_since(start, events, k, m as int)
        },
        Phase::DrainFlush(m) => {
            &&& shutdown_at(start, events, k)
            &&& drained_since(start, events, k, m as int)
            &&& k < events.len() - 1
            &&& start.action_at(events, events.len() - 1) == Action::Poll(m)
            &&& events.last() == Event::Empty
        },
        Phase::Stopped => {
            &&& shutdown_at(start, events, k)
            &&& drained_since(start, events, k, start.streams as int)
        },
        _ => true,
    }
}

/// One more event keeps what was drained.
proof fn lemma_drained_since_kept(start: Archiver, events: Seq<Event>, k: int, m: int)
    requires
        0 < events.len(),
        shutdown_at(start, events.drop_last(), k),
        drained_since(start, events.drop_last(), k, m),
    ensures
        shutdown_at(start, events, k),
        drained_since(start, events, k, m),
{
    let shorter = events.drop_last();
    lemma_action_kept(start, events, k);
    assert forall|i: int| #![trigger drained(start, events, k, i)] 0 <= i < m implies drained(
        start,
        events,
        k,
        i,
    ) by {
        assert(drained(start, shorter, k, i));
        lemma_drained_kept(start, events, k, i);
    }
}

/// A flush behind a poll that found nothing drains one stream more.
proof fn lemma_drained_one_more(start: Archiver, events: Seq<Event>, k: int, m: usize)
    requires
        0 < events.len(),
        drained_in(start, events.drop_last(), k, Phase::DrainFlush(m)),
        start.after_all(events.drop_last()).due() == Action::Flush(m),
    ensures
        shutdown_at(start, events, k),
        drained_since(start, events, k, m + 1),
{
    let last = events.len() - 1;
    lemma_drained_since_kept(start, events, k, m as int);
    assert(drained(start, events, k, m as int)) by {
        lemma_action_kept(start, events, last);
        lemma_action_kept(start, events, last - 1);
        assert(events.drop_last().last() == events[last - 1]);
        assert(drained_at(start, events, k, m as int, last - 1, last));
    }
    assert forall|i: int| #![trigger drained(start, events, k, i)] 0 <= i < m + 1 implies drained(
        start,
        events,
        k,
        i,
    ) by {
        if i < m {
        } else {
            assert(i == m as int);
        }
    }
}

/// After shutdown a run has drained what its phase says.
proof fn lemma_draining(start: Archiver, events: Seq<Event>) -> (k: int)
    requires
        start.wf(),
        start.phase is Check,
        start.runs(events),
    ensures
        drained_in(start, events, k, start.after_all(events).phase),
    decreases events.len(),
{
    if events.len() == 0 {
        0
    } else {
        let shorter = events.drop_last();
        let last = events.len() - 1;
        lemma_runs_shorter(start, events);
        law_runs_keep_wf(start, shorter);
        let k = lemma_draining(start, shorter);
        let s = start.after_all(shorter);
        lemma_action_kept(start, events, last);
        match s.phase {
            Phase::Check => last,
            Phase::Drain(m) => {
                lemma_drained_since_kept(start, events, k, m as int);
                k
            },
            Phase::DrainFlush(m) => {
                lemma_drained_one_more(start, events, k, m);
                k
            },
            _ => k,
        }
    }
}

/// The archiver stops only after shutdown, and not before it has, since then,
/// found every stream empty and flushed it.
pub proof fn law_stop_drains_all(start: Archiver, events: Seq<Event>)
    requires
        start.wf(),
        start.phase is Check,
        start.runs(events),
        start.after_all(events).due() == Action::Stop,
    ensures
        exists|k: int|
            #[trigger] shutdown_at(start, events, k) && drained_since(
                start,
                events,
                k,
                start.streams as int,
            ),
{
    let k = lemma_draining(start, events);
    assert(shutdown_at(start, events, k));
}

/// The record written at index `r` of the run has been followed by a flush of
/// its stream.
pub open spec fn flushed_after(start: Archiver, events: Seq<Event>, r: int) -> bool {
    exists|b: int|
        r < b < events.len() && start.action_at(events, r) is Poll && #[trigger] start.action_at(
            events,
            b,
        ) == Action::Flush(start.action_at(events, r)->Poll_0)
}

/// Every record of the run that came from a stream with one of these numbers
/// has been flushed.
pub open spec fn all_flushed(start: Archiver, events: Seq<Event>, from: int, below: int) -> bool {
    forall|r: int|
        #![trigger flushed_after(start, events, r)]
        0 <= r < events.len() && events[r] == Event::Record && start.action_at(events, r) is Poll
            && from <= start.action_at(events, r)->Poll_0 < below ==> flushed_after(
            start,
            events,
            r,
        )
}

proof fn lemma_flushed_kept(start: Archiver, events: Seq<Event>, from: int, below: int)
    requires
        0 < events.len(),
        all_flushed(start, events.drop_last(), from, below),
        events.last() == Event::Record ==> {
            &&& start.after_all(events.drop_last()).due() is Poll
            &&& !(from <= start.after_all(events.drop_last()).due()->Poll_0 < below)
        },
    ensures
        all_flushed(start, events, from, below),
{
    let shorter = events.drop_last();
    assert forall|r: int|
        #![trigger flushed_after(start, events, r)]
        0 <= r < events.len() && events[r] == Event::Record && start.action_at(events, r) is Poll
            && from <= start.action_at(events, r)->Poll_0 < below implies flushed_after(
        start,
        events,
        r,
    ) by {
        lemma_action_kept(start, events, r);
        if r < shorter.len() {
            assert(flushed_after(start, shorter, r));
            let b = choose|b: int|
                r < b < shorter.len() && #[trigger] start.action_at(shorter, b) == Action::Flush(
                    start.action_at(shorter, r)->Poll_0,
                );
            lemma_action_kept(start, events, b);
            assert(start.action_at(events, b) == Action::Flush(
                start.action_at(events, r)->Poll_0,
            ));
        }
    }
}

/// A flush settles every record of its stream.
proof fn lemma_flush_settles(start: Archiver, events: Seq<Event>, i: usize)
    requires
        0 < events.len(),
        start.after_all(events.drop_last()).due() == Action::Flush(i),
        events.last() == Event::Done,
    ensures
        all_flushed(start, events, i as int, i + 1),
{
    let last = events.len() - 1;
    lemma_action_kept(start, events, last);
    assert forall|r: int|
        #![trigger flushed_after(start, events, r)]
        0 <= r < events.len() && events[r] == Event::Record && start.action_at(events, r) is Poll
            && i <= start.action_at(events, r)->Poll_0 < i + 1 implies flushed_after(
        start,
        events,
        r,
    ) by {
        assert(start.action_at(events, last) == Action::Flush(
            start.action_at(events, r)->Poll_0,
        ));
    }
}

proof fn lemma_flush_joins(start: Archiver, events: Seq<Event>, a: int, b: int, c: int)
    requires
        all_flushed(start, events, a, b),
        all_flushed(start, events, b, c),
    ensures
        all_flushed(start, events, a, c),
{
}

/// Which records a run has flushed, by where it stands.
proof fn lemma_flushing(start: Archiver, events: Seq<Event>)
    requires
        start.wf(),
        start.phase is Check,
        start.runs(events),
    ensures
        match start.after_all(events).phase {
            Phase::Check => all_flushed(start, events, 0, start.streams as int),
            Phase::Idle => all_flushed(start, events, 0, start.streams as int),
            Phase::Stopped => all_flushed(start, events, 0, start.streams as int),
            Phase::Poll(i) => !start.after_all(events).had_work ==> all_flushed(
                start,
                events,
                0,
                start.streams as int,
            ),
            Phase::Flush(i) => all_flushed(start, events, 0, i as int),
            Phase::Drain(i) => all_flushed(start, events, 0, i as int) && all_flushed(
                start,
                events,
                i + 1,
                start.streams as int,
            ),
            Phase::DrainFlush(i) => all_flushed(start, events, 0, i as int) && all_flushed(
                start,
                events,
                i + 1,
                start.streams as int,
            ),
        },
    decreases events.len(),
{
    if events.len() > 0 {
        let shorter = events.drop_last();
        let n = start.streams as int;
        lemma_runs_shorter(start, events);
        law_runs_keep_wf(start, shorter);
        lemma_flushing(start, shorter);
        let s = start.after_all(shorter);
        match s.phase {
            Phase::Check => {
                lemma_flushed_kept(start, events, 0, n);
                lemma_flushed_part(start, events, 0, n);
            },
            Phase::Poll(i) => {
                if events.last() != Event::Record {
                    if !s.had_work {
                        lemma_flushed_kept(start, events, 0, n);
                    }
                    assert(all_flushed(start, events, 0, 0));
                }
            },
            Phase::Flush(i) => {
                lemma_flushed_kept(start, events, 0, i as int);
                lemma_flush_settles(start, events, i);
                lemma_flush_joins(start, events, 0, i as int, i + 1);
            },
            Phase::Idle => {
                lemma_flushed_kept(start, events, 0, n);
            },
            Phase::Drain(i) => {
                lemma_flushed_kept(start, events, 0, i as int);
                lemma_flushed_kept(start, events, i + 1, n);
            },
            Phase::DrainFlush(i) => {
                lemma_flushed_kept(start, events, 0, i as int);
                lemma_flushed_kept(start, events, i + 1, n);
                lemma_flush_settles(start, events, i);
                lemma_flush_joins(start, events, 0, i as int, i + 1);
                if i + 1 < n {
                    assert(all_flushed(start, events, i + 2, n));
                }
            },
            Phase::Stopped => {},
        }
    }
}

proof fn lemma_flushed_part(start: Archiver, events: Seq<Event>, from: int, below: int)
    requires
        all_flushed(start, events, from, below),
    ensures
        all_flushed(start, events, from + 1, below),
        all_flushed(start, events, from, from),
{
}

/// Every line that was written has been flushed whenever the archiver waits,
/// looks at the running flag, or stops.
pub proof fn law_flushed_before_waiting(start: Archiver, events: Seq<Event>)
    requires
        start.wf(),
        start.phase is Check,
        start.runs(events),
        ({
            let a = start.after_all(events).due();
            a == Action::LoadRunning || a == Action::Park || a == Action::Spin || a == Action::Stop
        }),
    ensures
        all_flushed(start, events, 0, start.streams as int),
{
    lemma_flushing(start, events);
}

/// The archiver parks where a timeout is set and spins where none is, and it
/// does either only at the end of a round that saw no record.
pub proof fn law_waits_only_idle(start: Archiver, events: Seq<Event>)
    requires
        start.wf(),
        start.phase is Check,
        start.runs(events),
    ensures
        start.after_all(events).due() == Action::Park ==> start.parks,
        start.after_all(events).due() == Action::Spin ==> !start.parks,
        start.after_all(events).phase is Idle ==> !start.after_all(events).had_work,
    decreases events.len(),
{
    law_runs_keep_wf(start, events);
    if events.len() > 0 {
        lemma_runs_shorter(start, events);
        law_waits_only_idle(start, events.drop_last());
    }
}

// -- What a round and a shutdown amount to ---------------------------------------

/// A schedule starts with as many streams as there are archive streams and one
/// more, and begins with the running flag.
pub proof fn law_start(archives: usize, parks: bool)
    requires
        archives < usize::MAX,
    ensures
        Archiver::initial(archives, parks).wf(),
        Archiver::initial(archives, parks).phase is Check,
        Archiver::initial(archives, parks).streams == archives + 1,
        Archiver::initial(archives, parks).parks == parks,
        Archiver::initial(archives, parks).due() == Action::LoadRunning,
{
}

/// A run goes on event by event, each one answering the action that is due when
/// it comes.
pub proof fn law_run_steps(start: Archiver, events: Seq<Event>, e: Event)
    ensures
        start.after_all(seq![]) == start,
        start.after_all(events.push(e)) == start.after_all(events).after(e),
        start.action_at(events.push(e), events.len() as int) == start.after_all(events).due(),
        start.runs(seq![]),
        start.runs(events.push(e)) <==> start.runs(events) && answers(
            start.after_all(events).due(),
            e,
        ),
{
    let longer = events.push(e);
    assert(longer.drop_last() =~= events);
    assert(longer.take(events.len() as int) =~= events);
    if start.runs(longer) {
        lemma_runs_shorter(start, longer);
    }
    if start.runs(events) && answers(start.after_all(events).due(), e) {
        assert forall|i: int| 0 <= i < longer.len() implies answers(
            start.action_at(longer, i),
            #[trigger] longer[i],
        ) by {
            if i < events.len() {
                assert(longer.take(i) =~= events.take(i));
                assert(answers(start.action_at(events, i), events[i]));
            }
        }
    }
}

/// What can come of each action.
pub proof fn law_answers(a: Action, e: Event)
    ensures
        a == Action::LoadRunning ==> (answers(a, e) <==> e == Event::Running(true) || e
            == Event::Running(false)),
        a is Poll ==> (answers(a, e) <==> e == Event::Record || e == Event::Empty),
        a is Flush || a == Action::Park || a == Action::Spin ==> (answers(a, e) <==> e
            == Event::Done),
        a == Action::Stop ==> !answers(a, e),
{
}

/// What comes next: behind the running flag the log stream is polled; a stream
/// that had a record is polled again; streams are polled and flushed in order;
/// behind a wait the running flag is read.
pub proof fn law_next_action(s: Archiver, e: Event)
    requires
        s.wf(),
        answers(s.due(), e),
    ensures
        ({
            let next = s.after(e).due();
            &&& s.due() == Action::LoadRunning ==> next == Action::Poll(0)
            &&& s.due() is Poll && e == Event::Record ==> next == s.due()
            &&& s.due() matches Action::Poll(i) ==> e == Event::Empty ==> next == Action::Poll(
                (i + 1) as usize,
            ) || next == Action::Flush(0) || next == Action::Flush(i) || next == Action::Park
                || next == Action::Spin
            &&& s.due() matches Action::Flush(i) ==> next == Action::Flush((i + 1) as usize) || next
                == Action::Poll((i + 1) as usize) || next == Action::LoadRunning || next
                == Action::Stop
            &&& s.due() == Action::Park || s.due() == Action::Spin ==> next == Action::LoadRunning
        }),
{
}

/// Stream `i` was polled and found empty between two indices of the run.
pub open spec fn found_empty(start: Archiver, events: Seq<Event>, a: int, b: int, i: int) -> bool {
    exists|c: int|
        a < c < b && #[trigger] start.action_at(events, c) == Action::Poll(i as usize) && events[c]
            == Event::Empty
}

/// Stream `i` was flushed between two indices of the run.
pub open spec fn flushed(start: Archiver, events: Seq<Event>, a: int, b: int, i: int) -> bool {
    exists|c: int|
        a < c < b && #[trigger] start.action_at(events, c) == Action::Flush(i as usize)
}

/// How many records were written between two indices of the run.
pub open spec fn records_between(events: Seq<Event>, a: int, b: int) -> nat {
    events.subrange(a + 1, b).filter(|e: Event| e == Event::Record).len()
}

proof fn lemma_records_step(events: Seq<Event>, a: int, b: int)
    requires
        0 <= a < b < events.len(),
    ensures
        records_between(events, a, a + 1) == 0,
        records_between(events, a, b + 1) == records_between(events, a, b) + (if events[b]
            == Event::Record {
            1nat
        } else {
            0
        }),
{
    reveal(Seq::filter);
    assert(events.subrange(a + 1, a + 1) =~= Seq::<Event>::empty());
    assert(events.subrange(a + 1, b + 1).drop_last() =~= events.subrange(a + 1, b));
    assert(events.subrange(a + 1, b + 1).last() == events[b]);
}

/// A run that is cut off is still a run, and its states are those on the way.
proof fn lemma_run_cut(start: Archiver, events: Seq<Event>, c: int)
    requires
        start.wf(),
        start.runs(events),
        0 <= c <= events.len(),
    ensures
        start.after_all(events.take(c)).wf(),
        start.after_all(events.take(c)).streams == start.streams,
        start.after_all(events.take(c)).parks == start.parks,
        c < events.len() ==> start.after_all(events.take(c + 1)) == start.after_all(
            events.take(c),
        ).after(events[c]),
        c < events.len() ==> answers(start.after_all(events.take(c)).due(), events[c]),
{
    let cut = events.take(c);
    assert forall|i: int| 0 <= i < cut.len() implies answers(
        start.action_at(cut, i),
        #[trigger] cut[i],
    ) by {
        assert(cut.take(i) =~= events.take(i));
        assert(answers(start.action_at(events, i), events[i]));
    }
    law_runs_keep_wf(start, cut);
    if c < events.len() {
        assert(events.take(c + 1).drop_last() =~= cut);
        assert(answers(start.action_at(events, c), events[c]));
    }
}

/// The first `m` streams were polled and found empty between two indices.
spec fn first_found_empty(start: Archiver, events: Seq<Event>, a: int, c: int, m: int) -> bool {
    forall|i: int|
        #![trigger found_empty(start, events, a, c, i)]
        0 <= i < m ==> found_empty(start, events, a, c, i)
}

/// The first `m` streams were flushed between two indices.
spec fn first_flushed(start: Archiver, events: Seq<Event>, a: int, c: int, m: int) -> bool {
    forall|i: int|
        #![trigger flushed(start, events, a, c, i)]
        0 <= i < m ==> flushed(start, events, a, c, i)
}

/// Where a round stands that began at index `a`, by what it has done.
spec fn in_round(start: Archiver, events: Seq<Event>, a: int, c: int) -> bool {
    let s = start.after_all(events.take(c));
    let r = records_between(events, a, c);
    let n = start.streams as int;
    match s.phase {
        Phase::Poll(m) => {
            &&& first_found_empty(start, events, a, c, m as int)
            &&& s.had_work == (r > 0)
            &&& c == a + 1 + m + r
        },
        Phase::Flush(m) => {
            &&& first_found_empty(start, events, a, c, n)
            &&& first_flushed(start, events, a, c, m as int)
            &&& r > 0
            &&& c == a + 1 + n + r + m
        },
        Phase::Idle => {
            &&& first_found_empty(start, events, a, c, n)
            &&& r == 0
            &&& c == a + 1 + n
        },
        Phase::Check => {
            &&& first_found_empty(start, events, a, c, n)
            &&& r > 0 ==> c == a + 1 + 2 * n + r && first_flushed(start, events, a, c, n)
            &&& r == 0 ==> c == a + 2 + n && start.action_at(events, c - 1) == (if start.parks {
                Action::Park
            } else {
                Action::Spin
            })
        },
        _ => false,
    }
}

proof fn lemma_marks_kept(start: Archiver, events: Seq<Event>, a: int, c: int, i: int)
    ensures
        found_empty(start, events, a, c, i) ==> found_empty(start, events, a, c + 1, i),
        flushed(start, events, a, c, i) ==> flushed(start, events, a, c + 1, i),
{
    if found_empty(start, events, a, c, i) {
        let x = choose|x: int|
            a < x < c && #[trigger] start.action_at(events, x) == Action::Poll(i as usize)
                && events[x] == Event::Empty;
        assert(start.action_at(events, x) == Action::Poll(i as usize));
    }
    if flushed(start, events, a, c, i) {
        let x = choose|x: int|
            a < x < c && #[trigger] start.action_at(events, x) == Action::Flush(i as usize);
        assert(start.action_at(events, x) == Action::Flush(i as usize));
    }
}

/// One event more keeps what was found empty and flushed, and adds its own.
proof fn lemma_marks_step(start: Archiver, events: Seq<Event>, a: int, c: int, m: int)
    requires
        0 <= a < c,
    ensures
        first_found_empty(start, events, a, c, m) ==> first_found_empty(start, events, a, c + 1, m),
        first_flushed(start, events, a, c, m) ==> first_flushed(start, events, a, c + 1, m),
        first_found_empty(start, events, a, c, m) && start.action_at(events, c) == Action::Poll(
            m as usize,
        ) && events[c] == Event::Empty ==> first_found_empty(start, events, a, c + 1, m + 1),
        first_flushed(start, events, a, c, m) && start.action_at(events, c) == Action::Flush(
            m as usize,
        ) ==> first_flushed(start, events, a, c + 1, m + 1),
{
    if first_found_empty(start, events, a, c, m) {
        assert forall|i: int|
            #![trigger found_empty(start, events, a, c + 1, i)]
            0 <= i < m implies found_empty(start, events, a, c + 1, i) by {
            assert(found_empty(start, events, a, c, i));
            lemma_marks_kept(start, events, a, c, i);
        }
        if start.action_at(events, c) == Action::Poll(m as usize) && events[c] == Event::Empty {
            assert(found_empty(start, events, a, c + 1, m));
            assert forall|i: int|
                #![trigger found_empty(start, events, a, c + 1, i)]
                0 <= i < m + 1 implies found_empty(start, events, a, c + 1, i) by {
                if i < m {
                    assert(found_empty(start, events, a, c, i));
                    lemma_marks_kept(start, events, a, c, i);
                }
            }
        }
    }
    if first_flushed(start, events, a, c, m) {
        assert forall|i: int|
            #![trigger flushed(start, events, a, c + 1, i)]
            0 <= i < m implies flushed(start, events, a, c + 1, i) by {
            assert(flushed(start, events, a, c, i));
            lemma_marks_kept(start, events, a, c, i);
        }
        if start.action_at(events, c) == Action::Flush(m as usize) {
            assert(flushed(start, events, a, c + 1, m));
            assert forall|i: int|
                #![trigger flushed(start, events, a, c + 1, i)]
                0 <= i < m + 1 implies flushed(start, events, a, c + 1, i) by {
                if i < m {
                    assert(flushed(start, events, a, c, i));
                    lemma_marks_kept(start, events, a, c, i);
                }
            }
        }
    }
}

proof fn lemma_in_round_step(start: Archiver, events: Seq<Event>, a: int, c: int)
    requires
        start.wf(),
        start.runs(events),
        0 <= a < c < events.len(),
        in_round(start, events, a, c),
        start.action_at(events, c) != Action::LoadRunning,
    ensures
        in_round(start, events, a, c + 1),
{
    lemma_run_cut(start, events, c);
    lemma_records_step(events, a, c);
    let s = start.after_all(events.take(c));
    let n = start.streams as int;
    lemma_marks_step(start, events, a, c, n);
    match s.phase {
        Phase::Poll(m) => {
            lemma_marks_step(start, events, a, c, m as int);
            assert(first_flushed(start, events, a, c + 1, 0));
        },
        Phase::Flush(m) => {
            lemma_marks_step(start, events, a, c, m as int);
        },
        _ => {},
    }
}

proof fn lemma_in_round(start: Archiver, events: Seq<Event>, a: int, c: int)
    requires
        start.wf(),
        start.runs(events),
        0 <= a < c <= events.len(),
        start.action_at(events, a) == Action::LoadRunning,
        events[a] == Event::Running(true),
        forall|x: int| a < x < c ==> #[trigger] start.action_at(events, x) != Action::LoadRunning,
    ensures
        in_round(start, events, a, c),
    decreases c,
{
    if c == a + 1 {
        lemma_run_cut(start, events, a);
        assert(events.subrange(a + 1, a + 1) =~= Seq::<Event>::empty());
        reveal(Seq::filter);
    } else {
        lemma_in_round(start, events, a, c - 1);
        assert(start.action_at(events, c - 1) != Action::LoadRunning);
        lemma_in_round_step(start, events, a, c - 1);
    }
}

/// A round, from one look at the running flag to the next: every stream is
/// polled until it is found empty, whatever the others held. Where any of them
/// had a record, every stream is flushed, and the archiver does not wait. Where
/// none had, it waits once, right before it looks at the flag again. It does
/// nothing else.
pub proof fn law_round(start: Archiver, events: Seq<Event>, a: int, b: int, i: int)
    requires
        start.wf(),
        start.runs(events),
        0 <= a < b < events.len(),
        start.action_at(events, a) == Action::LoadRunning,
        events[a] == Event::Running(true),
        forall|x: int| a < x < b ==> #[trigger] start.action_at(events, x) != Action::LoadRunning,
        start.action_at(events, b) == Action::LoadRunning,
        0 <= i < start.streams,
    ensures
        exists|c: int|
            a < c < b && #[trigger] start.action_at(events, c) == Action::Poll(i as usize)
                && events[c] == Event::Empty,
        ({
            let r = events.subrange(a + 1, b).filter(|e: Event| e == Event::Record).len();
            &&& r > 0 ==> b == a + 1 + 2 * start.streams + r
            &&& r > 0 ==> exists|c: int|
                a < c < b && #[trigger] start.action_at(events, c) == Action::Flush(i as usize)
            &&& r == 0 ==> b == a + 2 + start.streams
            &&& r == 0 && start.parks ==> start.action_at(events, b - 1) == Action::Park
            &&& r == 0 && !start.parks ==> start.action_at(events, b - 1) == Action::Spin
        }),
{
    lemma_in_round(start, events, a, b);
    lemma_run_cut(start, events, b);
    let s = start.after_all(events.take(b));
    assert(s.due() == Action::LoadRunning);
    assert(s.phase is Check);
    assert(found_empty(start, events, a, b, i));
    if records_between(events, a, b) > 0 {
        assert(flushed(start, events, a, b, i));
    }
}

/// A round comes to its end: before the running flag is looked at again, there
/// are no more steps than one poll that finds nothing and one flush for each
/// stream, beside the records that were written, and the archiver does not stop.
pub proof fn law_round_ends(start: Archiver, events: Seq<Event>, a: int, c: int)
    requires
        start.wf(),
        start.runs(events),
        0 <= a < c <= events.len(),
        start.action_at(events, a) == Action::LoadRunning,
        events[a] == Event::Running(true),
        forall|x: int| a < x < c ==> #[trigger] start.action_at(events, x) != Action::LoadRunning,
    ensures
        c <= a + 1 + 2 * start.streams + events.subrange(a + 1, c).filter(
            |e: Event| e == Event::Record,
        ).len(),
        start.after_all(events.take(c)).due() != Action::Stop,
{
    lemma_in_round(start, events, a, c);
    lemma_run_cut(start, events, c);
    assert(records_between(events, a, c) >= 0);
}

/// Between any two looks at the running flag of which the first found it set,
/// every stream was polled and found empty.
pub proof fn law_every_stream_polled(start: Archiver, events: Seq<Event>, a: int, b: int, i: int)
    requires
        start.wf(),
        start.runs(events),
        0 <= a < b < events.len(),
        start.action_at(events, a) == Action::LoadRunning,
        events[a] == Event::Running(true),
        start.action_at(events, b) == Action::LoadRunning,
        0 <= i < start.streams,
    ensures
        exists|c: int|
            a < c < b && #[trigger] start.action_at(events, c) == Action::Poll(i as usize)
                && events[c] == Event::Empty,
    decreases b - a,
{
    if exists|x: int| a < x < b && #[trigger] start.action_at(events, x) == Action::LoadRunning {
        let x = choose|x: int|
            a < x < b && #[trigger] start.action_at(events, x) == Action::LoadRunning;
        law_every_stream_polled(start, events, a, x, i);
        let c = choose|c: int|
            a < c < x && #[trigger] start.action_at(events, c) == Action::Poll(i as usize)
                && events[c] == Event::Empty;
        assert(a < c < b && start.action_at(events, c) == Action::Poll(i as usize));
    } else {
        law_round(start, events, a, b, i);
    }
}

/// Where a shutdown stands that was seen at index `k`, by how far it has got.
spec fn in_shutdown(start: Archiver, events: Seq<Event>, k: int, c: int) -> bool {
    let r = records_between(events, k, c);
    let n = start.streams as int;
    match start.after_all(events.take(c)).phase {
        Phase::Drain(m) => c == k + 1 + 2 * m + r,
        Phase::DrainFlush(m) => c == k + 2 + 2 * m + r,
        Phase::Stopped => c == k + 1 + 2 * n + r,
        _ => false,
    }
}

proof fn lemma_in_shutdown(start: Archiver, events: Seq<Event>, k: int, c: int)
    requires
        start.wf(),
        start.runs(events),
        0 <= k < c <= events.len(),
        start.action_at(events, k) == Action::LoadRunning,
        events[k] == Event::Running(false),
    ensures
        in_shutdown(start, events, k, c),
    decreases c,
{
    if c == k + 1 {
        lemma_run_cut(start, events, k);
        assert(events.subrange(k + 1, k + 1) =~= Seq::<Event>::empty());
        reveal(Seq::filter);
    } else {
        lemma_in_shutdown(start, events, k, c - 1);
        lemma_run_cut(start, events, c - 1);
        lemma_records_step(events, k, c - 1);
    }
}

/// After the running flag was read as cleared, the archiver neither waits nor
/// looks at the flag again. It stops when each stream was found empty once and
/// flushed once, beside the records that it wrote, and not before or after.
pub proof fn law_shutdown(start: Archiver, events: Seq<Event>, k: int, c: int)
    requires
        start.wf(),
        start.runs(events),
        0 <= k < c <= events.len(),
        start.action_at(events, k) == Action::LoadRunning,
        events[k] == Event::Running(false),
    ensures
        ({
            let a = start.after_all(events.take(c)).due();
            let r = events.subrange(k + 1, c).filter(|e: Event| e == Event::Record).len();
            &&& a is Poll || a is Flush || a == Action::Stop
            &&& a == Action::Stop <==> c == k + 1 + 2 * start.streams + r
        }),
{
    lemma_in_shutdown(start, events, k, c);
    lemma_run_cut(start, events, c);
}

}
