//! Overload notification: the event and who is told.

use vstd::prelude::*;

use crate::span::Span;

verus! {

/// A sampled overload notification.
///
/// Describes sink health over one monitor interval, not individual payloads.
#[derive(Debug, Clone, Copy)]
pub struct Overloaded<'sink> {
    /// The sink's configured name.
    pub sink: &'sink str,
    /// Drops observed during the most recent interval (always `> 0`).
    pub delta_full: u64,
    /// Cumulative drops across the sink's lifetime.
    pub total_full: u64,
    /// The monitor sampling interval.
    pub interval: Span,
}

/// What to do when the drop counts increase.
///
/// `on_overload` runs on the overload monitor, never on a producer. It is for the events
/// of [`MonitorStep::Tell`](crate::MonitorStep), once each: there is at most one per
/// monitor interval, and only when the interval saw a drop.
pub trait OverloadAction: Send + Sync + 'static {
    /// Handle a positive-delta overload sample.
    fn on_overload(&self, ev: Overloaded<'_>)
        requires
            ev.delta_full > 0,
    ;
}

} // verus!
