//! Waking a waiting consumer.
//!
//! A wait goes in steps: the awaiter looks once and says whether the wait is
//! over, and the caller spins or snoozes and asks again.

use crate::clock::duration_nanos;
use std::io;
use std::sync::atomic::{AtomicUsize, Ordering};
use std::sync::Arc;
use std::time::Duration;
use vstd::prelude::*;

verus! {

/// `std::io::Error`, carried and never looked into.
#[verifier::external_type_specification]
#[verifier::external_body]
pub struct ExIoError(io::Error);

/// What one look at an awaiter's state says.
#[derive(Clone, Copy, Debug, PartialEq, Eq, Structural)]
pub enum WaitStep {
    /// There was a notification. It is used up.
    Woken,
    /// The timeout has passed.
    TimedOut,
    /// The timeout is running: look again at once.
    Spin,
    /// There is no timeout: back off, then look again.
    Snooze,
}

impl WaitStep {
    /// The wait is over.
    pub open spec fn is_over(self) -> bool {
        self == WaitStep::Woken || self == WaitStep::TimedOut
    }
}

/// Wakes a waiting consumer.
pub trait EventNotifier {
    /// It was notified. What that takes is left open for a type that does not
    /// say.
    open spec fn notified(&self) -> bool {
        arbitrary()
    }

    fn notify(&self)
        ensures
            self.notified(),
    ;
}

/// Waits for a notification.
pub trait EventAwaiter {
    type Notifier: EventNotifier;

    /// A wait with this timeout, after this time, may come to this step. It is
    /// left open for a type that does not say.
    open spec fn may_answer(timeout: Option<Duration>, waited: Duration, step: WaitStep) -> bool {
        arbitrary()
    }

    /// A wait with this timeout, after this time, may fail with this error. It
    /// is left open for a type that does not say.
    open spec fn may_fail(timeout: Option<Duration>, waited: Duration, e: io::Error) -> bool {
        arbitrary()
    }

    /// One wait with this timeout, after this time, may lead from here to there
    /// and come to this step. It is left open for a type that does not say.
    open spec fn may_lead(
        &self,
        after: &Self,
        timeout: Option<Duration>,
        waited: Duration,
        step: WaitStep,
    ) -> bool {
        arbitrary()
    }

    /// What ends its waits.
    open spec fn woken_by(&self) -> Arc<Self::Notifier> {
        arbitrary()
    }

    /// Takes one step of a wait that has lasted for `waited` so far.
    fn wait(&mut self, timeout: Option<Duration>, waited: Duration) -> (r: io::Result<WaitStep>)
        ensures
            r matches Ok(step) ==> Self::may_answer(timeout, waited, step),
            r matches Ok(step) ==> old(self).may_lead(final(self), timeout, waited, step),
            r matches Err(e) ==> Self::may_fail(timeout, waited, e),
            final(self).woken_by() == old(self).woken_by(),
    ;

    fn notifier(&self) -> (n: Arc<Self::Notifier>)
        ensures
            n == self.woken_by(),
    ;
}

/// The number of notifications that a counter was made with.
pub uninterp spec fn started_at(counter: AtomicUsize) -> nat;

/// The counter that a handle reaches, which it shares with its notifiers.
pub uninterp spec fn counter_behind(handle: Arc<AtomicUsize>) -> Arc<AtomicUsize>;

/// The number of notifications that was last read through a handle.
pub uninterp spec fn last_count(handle: Arc<AtomicUsize>) -> nat;

/// How many notifications were taken off the counter through a handle.
pub uninterp spec fn taken_off(handle: Arc<AtomicUsize>) -> nat;

/// `AtomicUsize::default` behind an `Arc`: a handle to a counter that holds
/// zero. What it holds later on depends on everyone who shares it, and is left
/// open.
#[verifier::external_body]
fn new_counter() -> (handle: Arc<AtomicUsize>)
    ensures
        started_at(*counter_behind(handle)) == 0,
        taken_off(handle) == 0,
{
    Arc::new(AtomicUsize::default())
}

/// `Arc::clone`: the counter that the handle reaches.
#[verifier::external_body]
fn share_counter(handle: &Arc<AtomicUsize>) -> (counter: Arc<AtomicUsize>)
    ensures
        counter == counter_behind(*handle),
{
    handle.clone()
}

/// `AtomicUsize::load` through a handle, with acquire ordering: the number of
/// notifications that is there. Which number that is depends on everyone who
/// shares the counter, and is left open.
#[verifier::external_body]
fn read_count(handle: &mut Arc<AtomicUsize>) -> (n: usize)
    ensures
        last_count(*final(handle)) == n,
        taken_off(*final(handle)) == taken_off(*old(handle)),
        counter_behind(*final(handle)) == counter_behind(*old(handle)),
{
    handle.load(Ordering::Acquire)
}

/// `AtomicUsize::fetch_sub` through a handle, with release ordering: so many
/// notifications are taken off the counter.
#[verifier::external_body]
fn take_off(handle: &mut Arc<AtomicUsize>, n: usize)
    ensures
        taken_off(*final(handle)) == taken_off(*old(handle)) + n,
        last_count(*final(handle)) == last_count(*old(handle)),
        counter_behind(*final(handle)) == counter_behind(*old(handle)),
{
    handle.fetch_sub(n, Ordering::Release);
}

impl EventNotifier for AtomicUsize {
    /// Whether a counter was raised does not show in it: everyone who shares it
    /// changes its count. So nothing is claimed of it here.
    open spec fn notified(&self) -> bool {
        true
    }

    fn notify(&self) {
        self.fetch_add(1, Ordering::Relaxed);
    }
}

/// What a wait comes to, from the number of notifications, the timeout and the
/// time that has passed.
pub open spec fn step_of(counter: nat, timeout: Option<Duration>, waited: Duration) -> WaitStep {
    if counter > 0 {
        WaitStep::Woken
    } else {
        match timeout {
            Some(limit) => if duration_nanos(waited) >= duration_nanos(limit) {
                WaitStep::TimedOut
            } else {
                WaitStep::Spin
            },
            None => WaitStep::Snooze,
        }
    }
}

/// The number of notifications that are left after a step of a wait: one that
/// ends it by a notification uses that one up.
pub open spec fn left_after(counter: nat, timeout: Option<Duration>, waited: Duration) -> nat {
    if step_of(counter, timeout, waited) == WaitStep::Woken {
        (counter - 1) as nat
    } else {
        counter
    }
}

/// What happens to a counter of notifications.
pub enum Signal {
    /// Somebody notifies.
    Notify,
    /// A step of a wait with this timeout, after this time.
    Wait(Option<Duration>, Duration),
}

/// The number of notifications that are left after these signals.
pub open spec fn left_after_all(counter: nat, signals: Seq<Signal>) -> nat
    decreases signals.len(),
{
    if signals.len() == 0 {
        counter
    } else {
        let before = left_after_all(counter, signals.drop_last());
        match signals.last() {
            Signal::Notify => before + 1,
            Signal::Wait(timeout, waited) => left_after(before, timeout, waited),
        }
    }
}

/// The signal at index `i` is a step that a notification ends.
pub open spec fn wakes_at(counter: nat, signals: Seq<Signal>, i: int) -> bool {
    signals[i] matches Signal::Wait(timeout, waited) && step_of(
        left_after_all(counter, signals.take(i)),
        timeout,
        waited,
    ) == WaitStep::Woken
}

/// How many of the signals are notifications.
pub open spec fn notified(signals: Seq<Signal>) -> nat
    decreases signals.len(),
{
    if signals.len() == 0 {
        0
    } else {
        notified(signals.drop_last()) + (if signals.last() is Notify {
            1nat
        } else {
            0
        })
    }
}

/// How many of the signals are steps that a notification ends.
pub open spec fn woken(counter: nat, signals: Seq<Signal>) -> nat
    decreases signals.len(),
{
    if signals.len() == 0 {
        0
    } else {
        woken(counter, signals.drop_last()) + (if wakes_at(counter, signals, signals.len() - 1) {
            1nat
        } else {
            0
        })
    }
}

/// Notifications are neither merged nor lost: each one ends one wait or is
/// still there, however notifications and waits alternate.
pub proof fn law_no_notification_lost(counter: nat, signals: Seq<Signal>)
    ensures
        counter + notified(signals) == woken(counter, signals) + left_after_all(counter, signals),
    decreases signals.len(),
{
    if signals.len() > 0 {
        law_no_notification_lost(counter, signals.drop_last());
        assert(signals.take(signals.len() - 1) =~= signals.drop_last());
    }
}

/// Where `counter` notifications came before, exactly that many waits end by a
/// notification, and they are the first ones.
pub proof fn law_one_wait_per_notification(counter: nat, signals: Seq<Signal>, i: int)
    requires
        0 <= i < signals.len(),
        forall|k: int| 0 <= k < signals.len() ==> (#[trigger] signals[k]) is Wait,
    ensures
        wakes_at(counter, signals, i) <==> i < counter,
        left_after_all(counter, signals.take(i)) == (if i < counter {
            (counter - i) as nat
        } else {
            0
        }),
    decreases i,
{
    if i > 0 {
        law_one_wait_per_notification(counter, signals, i - 1);
        assert(signals.take(i).drop_last() =~= signals.take(i - 1));
        assert(signals.take(i).last() == signals[i - 1]);
    }
    assert(signals[i] is Wait);
}

/// A notification ends a wait, whatever the timeout; without one, a wait ends
/// where its timeout has passed, and never where it has none.
pub proof fn law_wait_ends(counter: nat, timeout: Option<Duration>, waited: Duration)
    ensures
        counter > 0 ==> step_of(counter, timeout, waited) == WaitStep::Woken,
        counter == 0 && timeout is None ==> !step_of(counter, timeout, waited).is_over(),
        timeout matches Some(limit) ==> duration_nanos(waited) >= duration_nanos(limit) ==> step_of(
            counter,
            timeout,
            waited,
        ).is_over(),
{
}

/// What a wait comes to, from the number of notifications as it was read.
pub fn wait_step(counter: usize, timeout: Option<Duration>, waited: Duration) -> (step: WaitStep)
    ensures
        step == step_of(counter as nat, timeout, waited),
{
    if counter > 0 {
        return WaitStep::Woken;
    }
    match timeout {
        Some(limit) => if waited.as_nanos() >= limit.as_nanos() {
            WaitStep::TimedOut
        } else {
            WaitStep::Spin
        },
        None => WaitStep::Snooze,
    }
}

/// What a step of a wait comes to, and how many notifications it leaves, from
/// their number as it was read.
pub fn settle_wait(counter: usize, timeout: Option<Duration>, waited: Duration) -> (r: (
    WaitStep,
    usize,
))
    ensures
        r.0 == step_of(counter as nat, timeout, waited),
        r.1 == left_after(counter as nat, timeout, waited),
{
    let step: WaitStep = wait_step(counter, timeout, waited);
    match step {
        WaitStep::Woken => (step, counter - 1),
        _ => (step, counter),
    }
}

/// Waits by looking at a counter of notifications.
pub struct SpinEventAwaiter(Arc<AtomicUsize>);

impl SpinEventAwaiter {
    /// The counter of notifications, which its notifiers share.
    pub closed spec fn counter(self) -> Arc<AtomicUsize> {
        counter_behind(self.0)
    }

    /// The number of notifications that was last read.
    pub closed spec fn last_count(self) -> nat {
        last_count(self.0)
    }

    /// How many notifications were used up.
    pub closed spec fn used_up(self) -> nat {
        taken_off(self.0)
    }

    /// An awaiter that nobody has notified.
    pub fn new() -> (a: SpinEventAwaiter)
        ensures
            started_at(*a.counter()) == 0,
            a.used_up() == 0,
            a.woken_by() == a.counter(),
    {
        SpinEventAwaiter(new_counter())
    }
}

impl EventAwaiter for SpinEventAwaiter {
    type Notifier = AtomicUsize;

    open spec fn may_answer(timeout: Option<Duration>, waited: Duration, step: WaitStep) -> bool {
        exists|counter: nat| step == #[trigger] step_of(counter, timeout, waited)
    }

    open spec fn may_fail(timeout: Option<Duration>, waited: Duration, e: io::Error) -> bool {
        false
    }

    open spec fn may_lead(
        &self,
        after: &Self,
        timeout: Option<Duration>,
        waited: Duration,
        step: WaitStep,
    ) -> bool {
        &&& step == step_of(after.last_count(), timeout, waited)
        &&& waited_once(*self, *after, timeout, waited)
        &&& after.counter() == self.counter()
    }

    open spec fn woken_by(&self) -> Arc<AtomicUsize> {
        self.counter()
    }

    /// Never fails. The step follows from the count as it is read here. A step
    /// that a notification ends uses that one up, and no other step does.
    fn wait(&mut self, timeout: Option<Duration>, waited: Duration) -> (r: io::Result<WaitStep>)
        ensures
            r matches Ok(step) && step == step_of(final(self).last_count(), timeout, waited),
            waited_once(*old(self), *final(self), timeout, waited),
            final(self).used_up() == old(self).used_up() + (if r matches Ok(WaitStep::Woken) {
                1nat
            } else {
                0
            }),
    {
        let counter: usize = read_count(&mut self.0);
        let (step, left) = settle_wait(counter, timeout, waited);
        if left < counter {
            take_off(&mut self.0, counter - left);
        }
        Ok(step)
    }

    fn notifier(&self) -> (n: Arc<AtomicUsize>) {
        share_counter(&self.0)
    }
}

/// One wait leads from `before` to `after`, as the contract of
/// [`SpinEventAwaiter`]'s wait has it.
pub open spec fn waited_once(
    before: SpinEventAwaiter,
    after: SpinEventAwaiter,
    timeout: Option<Duration>,
    waited: Duration,
) -> bool {
    after.used_up() == before.used_up() + (if step_of(after.last_count(), timeout, waited)
        == WaitStep::Woken {
        1nat
    } else {
        0
    })
}

/// Where `pending` notifications came before, and nobody else notifies or waits
/// meanwhile, so that each wait finds what those before it have left, exactly
/// the first `pending` waits end by a notification, whatever their timeouts.
pub proof fn law_waits_end_by_notifications(
    pending: nat,
    awaiters: Seq<SpinEventAwaiter>,
    timeouts: Seq<Option<Duration>>,
    waited: Seq<Duration>,
    i: int,
)
    requires
        awaiters.len() == timeouts.len() + 1,
        forall|k: int|
            #![trigger timeouts[k]]
            0 <= k < timeouts.len() ==> waited_once(
                awaiters[k],
                awaiters[k + 1],
                timeouts[k],
                waited[k],
            ) && awaiters[k + 1].last_count() == pending + awaiters[0].used_up()
                - awaiters[k].used_up(),
        0 <= i < timeouts.len(),
    ensures
        step_of(awaiters[i + 1].last_count(), timeouts[i], waited[i]) == WaitStep::Woken <==> i
            < pending,
        awaiters[i].used_up() == awaiters[0].used_up() + (if i < pending {
            i
        } else {
            pending as int
        }),
    decreases i,
{
    assert(waited_once(awaiters[i], awaiters[i + 1], timeouts[i], waited[i]));
    if i > 0 {
        law_waits_end_by_notifications(pending, awaiters, timeouts, waited, i - 1);
        assert(waited_once(awaiters[i - 1], awaiters[i], timeouts[i - 1], waited[i - 1]));
    }
}

/// What a step of a wait comes to, in each case, and what it leaves.
pub proof fn law_wait_steps(counter: nat, timeout: Option<Duration>, waited: Duration)
    ensures
        counter > 0 ==> step_of(counter, timeout, waited) == WaitStep::Woken && left_after(
            counter,
            timeout,
            waited,
        ) == counter - 1,
        counter == 0 ==> left_after(counter, timeout, waited) == 0,
        counter == 0 && timeout is None ==> step_of(counter, timeout, waited) == WaitStep::Snooze,
        counter == 0 && timeout is Some && duration_nanos(waited) < duration_nanos(
            timeout.unwrap(),
        ) ==> step_of(counter, timeout, waited) == WaitStep::Spin,
        counter == 0 && timeout is Some && duration_nanos(waited) >= duration_nanos(
            timeout.unwrap(),
        ) ==> step_of(counter, timeout, waited) == WaitStep::TimedOut,
        WaitStep::Woken.is_over() && WaitStep::TimedOut.is_over(),
        !WaitStep::Spin.is_over() && !WaitStep::Snooze.is_over(),
{
}

/// One wait of a [`SpinEventAwaiter`] comes to what the count asks for that it
/// finds, uses up a notification exactly where one ended it, and stays with its
/// counter.
pub proof fn law_spin_wait(
    before: SpinEventAwaiter,
    after: SpinEventAwaiter,
    timeout: Option<Duration>,
    waited: Duration,
    step: WaitStep,
)
    requires
        before.may_lead(&after, timeout, waited, step),
    ensures
        step == WaitStep::Woken <==> after.last_count() > 0,
        step == WaitStep::Woken ==> after.used_up() == before.used_up() + 1,
        step != WaitStep::Woken ==> after.used_up() == before.used_up(),
        step == WaitStep::TimedOut <==> after.last_count() == 0 && timeout is Some
            && duration_nanos(waited) >= duration_nanos(timeout.unwrap()),
        step == WaitStep::Snooze <==> after.last_count() == 0 && timeout is None,
        after.counter() == before.counter(),
        SpinEventAwaiter::may_answer(timeout, waited, step),
{
}

}
