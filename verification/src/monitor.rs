//! The overload monitor.
//!
//! Samples the total of the drop counters once per interval. Whenever the total rose since
//! the last sample, and at no other time, its step is to tell the
//! [`OverloadAction`](crate::OverloadAction).

use vstd::prelude::*;

use crate::overload::Overloaded;
use crate::span::Span;

verus! {

/// The state of the monitor between two samples.
#[derive(Debug)]
pub struct OverloadMonitor {
    name: &'static str,
    interval: Span,
    last_total: u64,
}

/// What the monitor wants done when it has woken up.
#[derive(Debug, Clone, Copy)]
pub enum MonitorStep {
    /// Leave: the sink is cancelled.
    Exit,
    /// Wait for the next interval.
    Wait,
    /// Tell the overload action about this event, once, then wait for the next interval.
    Tell(Overloaded<'static>),
}

/// The rise from one sample to the next; a fall counts as no rise.
pub open spec fn rise(last: u64, total: u64) -> u64 {
    if total > last {
        (total - last) as u64
    } else {
        0
    }
}

/// What a monitor knows between two samples.
pub struct MonitorView {
    /// The sink that is watched.
    pub name: &'static str,
    /// The sampling interval.
    pub interval: Span,
    /// The total at the last sample.
    pub last_total: u64,
}

impl View for OverloadMonitor {
    type V = MonitorView;

    closed spec fn view(&self) -> MonitorView {
        MonitorView { name: self.name, interval: self.interval, last_total: self.last_total }
    }
}

impl MonitorView {
    /// What a wake-up of a monitor that knows this comes to.
    pub open spec fn step(self, cancelled: bool, total: u64) -> MonitorStep {
        if cancelled {
            MonitorStep::Exit
        } else {
            match announced(self.name, self.interval, self.last_total, total) {
                Some(event) => MonitorStep::Tell(event),
                None => MonitorStep::Wait,
            }
        }
    }

    /// After a wake-up.
    pub open spec fn ticked(self, cancelled: bool, total: u64) -> MonitorView {
        MonitorView {
            last_total: if cancelled {
                self.last_total
            } else {
                total
            },
            ..self
        }
    }

    /// After a series of wake-ups that found nothing cancelled.
    pub open spec fn ticked_all(self, totals: Seq<u64>) -> MonitorView
        decreases totals.len(),
    {
        if totals.len() == 0 {
            self
        } else {
            self.ticked_all(totals.drop_last()).ticked(false, totals.last())
        }
    }

    /// The events that a series of wake-ups that found nothing cancelled tells, in order.
    pub open spec fn told(self, totals: Seq<u64>) -> Seq<Overloaded<'static>>
        decreases totals.len(),
    {
        if totals.len() == 0 {
            Seq::empty()
        } else {
            let before = self.told(totals.drop_last());
            match self.ticked_all(totals.drop_last()).step(false, totals.last()) {
                MonitorStep::Tell(event) => before.push(event),
                _ => before,
            }
        }
    }
}

impl OverloadMonitor {
    /// The sink that is watched.
    pub open spec fn name(&self) -> &'static str {
        self@.name
    }

    /// The sampling interval.
    pub open spec fn interval(&self) -> Span {
        self@.interval
    }

    /// The total at the last sample.
    pub open spec fn last_total(&self) -> u64 {
        self@.last_total
    }

    /// A monitor that has seen no drop yet.
    pub fn new(name: &'static str, interval: Span) -> (monitor: OverloadMonitor)
        ensures
            monitor.name() == name,
            monitor.interval() == interval,
            monitor.last_total() == 0,
    {
        OverloadMonitor { name, interval, last_total: 0 }
    }

    /// The event that a sample of `total` gives rise to, if any.
    pub open spec fn event(&self, total: u64) -> Option<Overloaded<'static>> {
        announced(self.name(), self.interval(), self.last_total(), total)
    }

    /// Takes a sample: an event if the total rose since the last one.
    pub fn sample(&mut self, total: u64) -> (event: Option<Overloaded<'static>>)
        ensures
            event == old(self).event(total),
            final(self)@ == old(self)@.ticked(false, total),
            final(self).name() == old(self).name(),
            final(self).interval() == old(self).interval(),
            final(self).last_total() == total,
    {
        let delta: u64 = total.saturating_sub(self.last_total);
        self.last_total = total;
        if delta > 0 {
            Some(
                Overloaded {
                    sink: self.name,
                    delta_full: delta,
                    total_full: total,
                    interval: self.interval,
                },
            )
        } else {
            None
        }
    }

    /// What a wake-up of the monitor comes to: it leaves once the sink is cancelled, even
    /// if a sample is due as well; else it takes a sample of `total`, and the overload
    /// action is told if the total rose.
    pub open spec fn step(&self, cancelled: bool, total: u64) -> MonitorStep {
        if cancelled {
            MonitorStep::Exit
        } else {
            match self.event(total) {
                Some(event) => MonitorStep::Tell(event),
                None => MonitorStep::Wait,
            }
        }
    }

    /// One wake-up of the monitor: says what is to be done next.
    pub fn tick(&mut self, cancelled: bool, total: u64) -> (step: MonitorStep)
        ensures
            step == old(self).step(cancelled, total),
            step == old(self)@.step(cancelled, total),
            final(self)@ == old(self)@.ticked(cancelled, total),
            final(self).name() == old(self).name(),
            final(self).interval() == old(self).interval(),
            final(self).last_total() == if cancelled {
                old(self).last_total()
            } else {
                total
            },
    {
        if cancelled {
            return MonitorStep::Exit;
        }
        match self.sample(total) {
            Some(event) => MonitorStep::Tell(event),
            None => MonitorStep::Wait,
        }
    }
}

/// The event that a monitor announces when the total went from `last` to `total`, if any.
pub open spec fn announced(
    name: &'static str,
    interval: Span,
    last: u64,
    total: u64,
) -> Option<Overloaded<'static>> {
    let delta = rise(last, total);
    if delta > 0 {
        Some(Overloaded { sink: name, delta_full: delta, total_full: total, interval })
    } else {
        None
    }
}

/// The last of a series of samples, or where it started if it is empty.
pub open spec fn latest(last: u64, totals: Seq<u64>) -> u64 {
    if totals.len() == 0 {
        last
    } else {
        totals.last()
    }
}

/// The events that a monitor announces over a series of samples, in order.
pub open spec fn announcements(
    name: &'static str,
    interval: Span,
    last: u64,
    totals: Seq<u64>,
) -> Seq<Overloaded<'static>>
    decreases totals.len(),
{
    if totals.len() == 0 {
        Seq::empty()
    } else {
        let before = announcements(name, interval, last, totals.drop_last());
        match announced(name, interval, latest(last, totals.drop_last()), totals.last()) {
            Some(event) => before.push(event),
            None => before,
        }
    }
}

/// The deltas of several events together.
pub open spec fn reported(events: Seq<Overloaded<'static>>) -> nat
    decreases events.len(),
{
    if events.len() == 0 {
        0
    } else {
        reported(events.drop_last()) + events.last().delta_full as nat
    }
}

/// A series of totals that never falls, from `last` on.
pub open spec fn climbing(last: u64, totals: Seq<u64>) -> bool {
    &&& forall|i: int| 0 <= i < totals.len() ==> last <= totals[i]
    &&& forall|i: int, j: int| 0 <= i <= j < totals.len() ==> totals[i] <= totals[j]
}

/// Every drop is announced exactly once: as long as the total does not fall, the deltas of
/// all events add up to what the total rose by, so there is none if and only if it did not
/// rise. Each event carries the monitor's name and interval, a positive delta, and the
/// total that all deltas up to its own add up to; so the totals rise from event to event,
/// and that of the last one is the latest sample.
pub proof fn drops_are_announced_once(
    name: &'static str,
    interval: Span,
    last: u64,
    totals: Seq<u64>,
)
    requires
        climbing(last, totals),
    ensures
        ({
            let events = announcements(name, interval, last, totals);
            &&& last <= latest(last, totals)
            &&& reported(events) == latest(last, totals) - last
            &&& events.len() == 0 <==> latest(last, totals) == last
            &&& events.len() > 0 ==> events.last().total_full == latest(last, totals)
            &&& forall|i: int|
                0 <= i < events.len() ==> {
                    let event = #[trigger] events[i];
                    &&& event.sink == name
                    &&& event.interval == interval
                    &&& event.delta_full > 0
                    &&& event.total_full == last + reported(events.take(i + 1))
                }
            &&& forall|i: int, j: int|
                0 <= i < j < events.len() ==> events[i].total_full < events[j].total_full
        }),
    decreases totals.len(),
{
    if totals.len() > 0 {
        let sofar = totals.drop_last();
        drops_are_announced_once(name, interval, last, sofar);
        let before = announcements(name, interval, last, sofar);
        let events = announcements(name, interval, last, totals);
        assert(events.take(events.len() as int) =~= events);
        if events.len() > before.len() {
            assert(events.drop_last() =~= before);
        }
        assert forall|i: int| 0 <= i < events.len() implies ({
            let event = #[trigger] events[i];
            &&& event.sink == name
            &&& event.interval == interval
            &&& event.delta_full > 0
            &&& event.total_full == last + reported(events.take(i + 1))
        }) by {
            if i < before.len() {
                assert(events.take(i + 1) =~= before.take(i + 1));
                assert(events[i] == before[i]);
            }
        }
        assert forall|i: int, j: int| 0 <= i < j < events.len() implies events[i].total_full
            < events[j].total_full by {
            if j < before.len() {
                assert(before[i].total_full < before[j].total_full);
            } else if i < before.len() - 1 {
                assert(before[i].total_full < before[before.len() - 1].total_full);
            }
        }
    }
}

/// A wake-up that finds nothing cancelled tells if and only if the total is above the last one,
/// with the difference as delta; one that finds the sink cancelled leaves and takes no sample.
pub proof fn every_rise_is_told(monitor: MonitorView, total: u64)
    ensures
        ({
            let step = monitor.step(false, total);
            &&& step is Tell <==> total > monitor.last_total
            &&& step is Wait <==> total <= monitor.last_total
            &&& (step matches MonitorStep::Tell(event) ==> {
                &&& event.sink == monitor.name
                &&& event.delta_full == total - monitor.last_total
                &&& event.total_full == total
                &&& event.interval == monitor.interval
            })
        }),
        ({
            let after = monitor.ticked(false, total);
            &&& after.last_total == total
            &&& after.name == monitor.name
            &&& after.interval == monitor.interval
        }),
        monitor.step(true, total) is Exit,
        monitor.ticked(true, total) == monitor,
        ({
            let event = announced(monitor.name, monitor.interval, monitor.last_total, total);
            &&& event is Some <==> total > monitor.last_total
            &&& event is Some ==> monitor.step(false, total) == MonitorStep::Tell(event->0)
        }),
{
}

/// Over a series of wake-ups that find nothing cancelled, what is told is what is to be
/// announced of these samples, and the monitor ends at the latest of them. As long as the total
/// does not fall, the deltas told add up to what it rose by, so every drop is told exactly once.
pub proof fn every_drop_is_told_once(monitor: MonitorView, totals: Seq<u64>)
    ensures
        monitor.told(totals) == announcements(
            monitor.name,
            monitor.interval,
            monitor.last_total,
            totals,
        ),
        monitor.ticked_all(totals).last_total == if totals.len() == 0 {
            monitor.last_total
        } else {
            totals.last()
        },
        climbing(monitor.last_total, totals) ==> reported(monitor.told(totals))
            == monitor.ticked_all(totals).last_total - monitor.last_total,
{
    lemma_told(monitor, totals);
    if climbing(monitor.last_total, totals) {
        drops_are_announced_once(monitor.name, monitor.interval, monitor.last_total, totals);
    }
}

proof fn lemma_told(monitor: MonitorView, totals: Seq<u64>)
    ensures
        monitor.told(totals) == announcements(
            monitor.name,
            monitor.interval,
            monitor.last_total,
            totals,
        ),
        monitor.ticked_all(totals) == (MonitorView {
            last_total: latest(monitor.last_total, totals),
            ..monitor
        }),
    decreases totals.len(),
{
    if totals.len() > 0 {
        lemma_told(monitor, totals.drop_last());
    }
}

/// A sample gives an event if and only if the total is above the last one, with the difference
/// as delta, and a wake-up tells just what the sample it takes gives.
pub proof fn samples_report_every_rise(monitor: OverloadMonitor, total: u64)
    ensures
        monitor.event(total) is Some <==> total > monitor.last_total(),
        monitor.event(total) matches Some(event) ==> {
            &&& event.sink == monitor.name()
            &&& event.delta_full == total - monitor.last_total()
            &&& event.total_full == total
            &&& event.interval == monitor.interval()
            &&& monitor.step(false, total) == MonitorStep::Tell(event)
        },
        monitor.event(total) is None ==> monitor.step(false, total) is Wait,
        monitor.step(true, total) is Exit,
{
}

} // verus!
