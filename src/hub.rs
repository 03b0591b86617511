use vstd::prelude::*;

verus! {

/// Minimum time between two warp switches, in milliseconds.
pub const DWELL_MS: u64 = 3000;

/// What the render loop should do with the warp worker on this tick.
#[derive(Debug, Clone, Copy, PartialEq, Eq, Structural)]
pub enum HubAction {
    /// The worker is idle and the dwell time is over: generate a new spec and
    /// hand it to the worker, then call `start`.
    Dispatch,
    /// The worker is computing: poll it without blocking, and call `finish`
    /// with the map if one came back.
    Poll,
    /// Nothing to do this tick.
    Wait,
}

/// Schedules warp switches and pairs each spec with its baked map.
///
/// A spec is made visible (by `fetch`) only together with its map.
pub struct WarpMapHub<S, M> {
    current: Option<(S, M)>,
    next_spec: Option<S>,
    next_switch_ms: u64,
}

impl<S, M> WarpMapHub<S, M> {
    /// Whether a bake is in flight.
    pub closed spec fn is_computing(&self) -> bool {
        self.next_spec is Some
    }

    /// Earliest time of the next dispatch.
    pub closed spec fn switch_time(&self) -> u64 {
        self.next_switch_ms
    }

    /// The spec that the worker is baking.
    pub closed spec fn pending(&self) -> Option<S> {
        self.next_spec
    }

    /// The finished pair waiting to be fetched.
    pub closed spec fn ready(&self) -> Option<(S, M)> {
        self.current
    }

    /// An idle hub whose first switch is due at `now_ms`.
    pub fn new(now_ms: u64) -> (r: Self)
        ensures
            !r.is_computing(),
            r.switch_time() == now_ms,
            r.ready() is None,
    {
        WarpMapHub { current: None, next_spec: None, next_switch_ms: now_ms }
    }

    /// The action due at time `now_ms`.
    pub fn step(&self, now_ms: u64) -> (r: HubAction)
        ensures
            r == (if self.is_computing() {
                HubAction::Poll
            } else if self.switch_time() <= now_ms {
                HubAction::Dispatch
            } else {
                HubAction::Wait
            }),
    {
        if self.next_spec.is_some() {
            HubAction::Poll
        } else if self.next_switch_ms <= now_ms {
            HubAction::Dispatch
        } else {
            HubAction::Wait
        }
    }

    /// Records that `spec` was handed to the worker at `now_ms`; the next
    /// switch is due `DWELL_MS` later.
    pub fn start(&mut self, spec: S, now_ms: u64)
        requires
            !old(self).is_computing(),
        ensures
            final(self).is_computing(),
            final(self).pending() == Some(spec),
            final(self).switch_time() == (if now_ms <= u64::MAX - DWELL_MS {
                now_ms + DWELL_MS
            } else {
                u64::MAX as int
            }),
            final(self).ready() == old(self).ready(),
    {
        self.next_spec = Some(spec);
        self.next_switch_ms = now_ms.saturating_add(DWELL_MS);
    }

    /// Installs the worker's `map` together with the spec it was baked from,
    /// replacing any pair not yet fetched.
    pub fn finish(&mut self, map: M)
        requires
            old(self).is_computing(),
        ensures
            !final(self).is_computing(),
            final(self).ready() == Some((old(self).pending()->Some_0, map)),
            final(self).switch_time() == old(self).switch_time(),
    {
        if let Some(spec) = self.next_spec.take() {
            self.current = Some((spec, map));
        }
    }

    /// Takes the fresh pair, if any; afterwards there is none until the next
    /// bake finishes.
    pub fn fetch(&mut self) -> (r: Option<(S, M)>)
        ensures
            r == old(self).ready(),
            final(self).ready() is None,
            final(self).is_computing() == old(self).is_computing(),
            final(self).pending() == old(self).pending(),
            final(self).switch_time() == old(self).switch_time(),
    {
        self.current.take()
    }
}

} // verus!
