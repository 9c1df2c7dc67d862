use vstd::prelude::*;

verus! {

/// What tracing the current ray against the world reported.
#[derive(Clone, Copy, Debug, PartialEq, Eq, Structural)]
pub enum SurfaceEvent {
    /// No surface in the interval: the ray escapes to the sky.
    Miss,
    /// A surface was hit and its material did not scatter the ray.
    Absorbed,
    /// A surface was hit and its material sent out a new ray.
    Scattered,
}

/// What the caller of the integrator does next.
#[derive(Clone, Copy, Debug, PartialEq, Eq, Structural)]
pub enum PathAction {
    /// Query the world with the current ray and report the event.
    Trace,
    /// The path ends without light: its color is black.
    Black,
    /// The path escaped: its color is the attenuation so far times the sky.
    Sky,
}

/// The bounce budget of one path and the next thing to do with it.
#[derive(Clone, Copy, Debug, PartialEq, Eq, Structural)]
pub struct PathState {
    /// Bounces still allowed, the current one included.
    pub remaining: isize,
    pub action: PathAction,
}

/// The state of a fresh path: an exhausted budget gives black at once.
pub open spec fn initial_state(depth: isize) -> PathState {
    PathState {
        remaining: depth,
        action: if depth > 0 {
            PathAction::Trace
        } else {
            PathAction::Black
        },
    }
}

/// The state after `event`; a path that already ended stays as it is.
pub open spec fn next_state(s: PathState, event: SurfaceEvent) -> PathState {
    if s.action != PathAction::Trace {
        s
    } else {
        match event {
            SurfaceEvent::Miss => PathState { remaining: s.remaining, action: PathAction::Sky },
            SurfaceEvent::Absorbed => PathState { remaining: s.remaining, action: PathAction::Black },
            SurfaceEvent::Scattered => PathState {
                remaining: (s.remaining - 1) as isize,
                action: if s.remaining - 1 > 0 {
                    PathAction::Trace
                } else {
                    PathAction::Black
                },
            },
        }
    }
}

/// The state of a path of budget `depth` after the given events, in order.
pub open spec fn run(depth: isize, events: Seq<SurfaceEvent>) -> PathState
    decreases events.len(),
{
    if events.len() == 0 {
        initial_state(depth)
    } else {
        next_state(run(depth, events.drop_last()), events.last())
    }
}

impl PathState {
    /// A path that may still be traced has budget left.
    pub open spec fn wf(&self) -> bool {
        self.action == PathAction::Trace ==> self.remaining > 0
    }

    /// Starts a path with a budget of `depth` bounces.
    pub fn start(depth: isize) -> (r: PathState)
        ensures
            r == initial_state(depth),
            r.wf(),
    {
        if depth <= 0 {
            PathState { remaining: depth, action: PathAction::Black }
        } else {
            PathState { remaining: depth, action: PathAction::Trace }
        }
    }

    /// Takes in what the last world query reported.
    pub fn advance(&mut self, event: SurfaceEvent)
        requires
            old(self).wf(),
        ensures
            *final(self) == next_state(*old(self), event),
            final(self).wf(),
    {
        match self.action {
            PathAction::Trace => match event {
                SurfaceEvent::Miss => {
                    self.action = PathAction::Sky;
                },
                SurfaceEvent::Absorbed => {
                    self.action = PathAction::Black;
                },
                SurfaceEvent::Scattered => {
                    self.remaining = self.remaining - 1;
                    if self.remaining > 0 {
                        self.action = PathAction::Trace;
                    } else {
                        self.action = PathAction::Black;
                    }
                },
            },
            _ => {},
        }
    }
}

proof fn lemma_run_wf(depth: isize, events: Seq<SurfaceEvent>)
    ensures
        run(depth, events).wf(),
    decreases events.len(),
{
    if events.len() > 0 {
        lemma_run_wf(depth, events.drop_last());
    }
}

/// A path with no bounce budget is black, whatever the rays would have met.
pub proof fn lemma_no_budget_is_black(depth: isize, events: Seq<SurfaceEvent>)
    requires
        depth <= 0,
    ensures
        run(depth, events).action == PathAction::Black,
    decreases events.len(),
{
    if events.len() > 0 {
        lemma_no_budget_is_black(depth, events.drop_last());
    }
}

/// The world is queried at most `depth` times: a path is still being traced
/// only after fewer than `depth` events, all of them scatterings, each of
/// which used one bounce of the budget.
pub proof fn lemma_budget_bounds_bounces(depth: isize, events: Seq<SurfaceEvent>)
    ensures
        run(depth, events).action == PathAction::Trace ==> {
            &&& events.len() < depth
            &&& run(depth, events).remaining == depth - events.len()
            &&& forall|k: int| 0 <= k < events.len() ==> #[trigger] events[k]
                == SurfaceEvent::Scattered
        },
    decreases events.len(),
{
    if events.len() > 0 {
        let prefix = events.drop_last();
        lemma_budget_bounds_bounces(depth, prefix);
        lemma_run_wf(depth, prefix);
        if run(depth, events).action == PathAction::Trace {
            assert forall|k: int| 0 <= k < events.len() implies #[trigger] events[k]
                == SurfaceEvent::Scattered by {
                if k < prefix.len() {
                    assert(events[k] == prefix[k]);
                }
            }
        }
    }
}

} // verus!
