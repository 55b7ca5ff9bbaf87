//! An optional progress sink with verified bookkeeping.
//!
//! The display itself is indicatif's; the library keeps its own exact
//! record of what was announced and advanced, so the reporting protocol —
//! one length, advancement that never passes it — is proved, not hoped.

use vstd::prelude::*;

verus! {

#[verifier::external_type_specification]
#[verifier::external_body]
pub struct ExProgressBar(indicatif::ProgressBar);

/// Relies on indicatif's `ProgressBar::set_length`: display only, no result.
#[verifier::external_body]
fn bar_set_length(bar: &indicatif::ProgressBar, len: u64) {
    bar.set_length(len)
}

/// Relies on indicatif's `ProgressBar::inc`: display only, no result.
#[verifier::external_body]
fn bar_inc(bar: &indicatif::ProgressBar, delta: u64) {
    bar.inc(delta)
}

/// The observations recorded by a sink are non-decreasing and never pass
/// `limit`.
pub open spec fn observations_bounded(obs: Seq<u64>, limit: u64) -> bool {
    &&& forall|k1: int, k2: int|
        0 <= k1 <= k2 < obs.len() ==> #[trigger] obs[k1] <= #[trigger] obs[k2]
    &&& forall|k: int| 0 <= k < obs.len() ==> #[trigger] obs[k] <= limit
}

/// A progress sink: an optional display plus verified bookkeeping.
/// `length` is the announced size of the search, `advanced` the total
/// advancement so far, and `observed` the running totals in the order an
/// observer would have seen them.
pub struct Progress {
    /// The display to forward to, if any.
    pub bar: Option<indicatif::ProgressBar>,
    /// The announced target length.
    pub length: u64,
    /// The advancement reported so far.
    pub advanced: u64,
    /// Every running total, in reporting order.
    pub observed: Ghost<Seq<u64>>,
}

impl Progress {
    /// Whether a display is attached.
    pub open spec fn displays(self) -> bool {
        self.bar is Some
    }

    /// A sink that records advancement without displaying it.
    pub fn none() -> (r: Progress)
        ensures
            r.length == 0,
            r.advanced == 0,
            r.observed@ == Seq::<u64>::empty(),
            !r.displays(),
    {
        Progress { bar: None, length: 0, advanced: 0, observed: Ghost(Seq::empty()) }
    }

    /// A sink that forwards to an indicatif progress bar.
    pub fn with_bar(bar: indicatif::ProgressBar) -> (r: Progress)
        ensures
            r.length == 0,
            r.advanced == 0,
            r.observed@ == Seq::<u64>::empty(),
            r.displays(),
    {
        Progress { bar: Some(bar), length: 0, advanced: 0, observed: Ghost(Seq::empty()) }
    }

    /// Announce a search of `len` steps; the bookkeeping starts afresh.
    pub fn begin(&mut self, len: u64)
        ensures
            final(self).length == len,
            final(self).advanced == 0,
            final(self).observed@ == Seq::<u64>::empty(),
            final(self).bar == old(self).bar,
    {
        if let Some(bar) = &self.bar {
            bar_set_length(bar, len);
        }
        self.length = len;
        self.advanced = 0;
        self.observed = Ghost(Seq::empty());
    }

    /// Report `delta` more steps done.  The caller keeps the running total
    /// within the announced length; the new total is recorded.
    pub fn advance(&mut self, delta: u64)
        requires
            old(self).advanced + delta <= old(self).length,
        ensures
            final(self).advanced == old(self).advanced + delta,
            final(self).length == old(self).length,
            final(self).observed@ == old(self).observed@.push((old(self).advanced + delta) as u64),
            final(self).bar == old(self).bar,
    {
        if let Some(bar) = &self.bar {
            bar_inc(bar, delta);
        }
        self.advanced = self.advanced + delta;
        self.observed = Ghost(self.observed@.push(self.advanced));
    }
}

} // verus!
