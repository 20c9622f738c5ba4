//! The transition state of an animated router: settled in a route, or moving from one route
//! to another until the animation settles.

use vstd::prelude::*;

verus! {

/// Where an animated router is.
#[derive(Clone, Copy, Debug, PartialEq, Eq)]
pub enum AnimatedRouterContext<R> {
    /// Moving from the first route to the second.
    FromTo(R, R),
    /// Settled in a route.
    In(R),
}

impl<R: Copy> AnimatedRouterContext<R> {
    /// The route it is going to, or settled in.
    pub open spec fn target(self) -> R {
        match self {
            AnimatedRouterContext::FromTo(_, to) => to,
            AnimatedRouterContext::In(to) => to,
        }
    }

    /// The route it is going to, or settled in.
    pub fn target_route(&self) -> (r: &R)
        ensures
            *r == self.target(),
    {
        match self {
            AnimatedRouterContext::FromTo(_, to) => to,
            AnimatedRouterContext::In(to) => to,
        }
    }

    /// Heads for `to`, coming from the route it was heading for (or settled in).
    pub fn set_target_route(&mut self, to: R)
        ensures
            *final(self) == AnimatedRouterContext::FromTo(old(self).target(), to),
    {
        let from: R = *self.target_route();
        *self = AnimatedRouterContext::FromTo(from, to);
    }

    /// Once the transition is over, stays in the route it was heading for.
    pub fn settle(&mut self)
        ensures
            *final(self) == AnimatedRouterContext::In(old(self).target()),
    {
        let to: R = *self.target_route();
        *self = AnimatedRouterContext::In(to);
    }
}

/// Heading for a route and then settling leaves the router in that route, and it remembers the
/// route it came from until then.
pub proof fn law_settle_after_set_target<R: Copy>(
    before: AnimatedRouterContext<R>,
    to: R,
    heading: AnimatedRouterContext<R>,
    settled: AnimatedRouterContext<R>,
)
    requires
        heading == AnimatedRouterContext::FromTo(before.target(), to),
        settled == AnimatedRouterContext::In(heading.target()),
    ensures
        heading.target() == to,
        settled == AnimatedRouterContext::In(to),
        settled.target() == to,
{
}

} // verus!
