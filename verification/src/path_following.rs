use vstd::prelude::*;

verus! {

/// A walk along a list of waypoints, remembering which one comes next.
/// `P` is the type of a waypoint.
#[derive(Debug)]
pub struct FollowPath<P> {
    path: Vec<P>,
    current_index: usize,
}

impl<P> FollowPath<P> {
    /// The waypoints, in walking order.
    pub closed spec fn waypoints(&self) -> Seq<P> {
        self.path@
    }

    /// How many waypoints have been reached so far; the next one is at this position.
    pub closed spec fn reached(&self) -> nat {
        self.current_index as nat
    }

    /// A walk along `path` that has reached none of it yet.
    pub fn new(path: Vec<P>) -> (f: Self)
        ensures
            f.waypoints() == path@,
            f.reached() == 0,
    {
        Self { path, current_index: 0 }
    }

    /// All the waypoints, in walking order.
    pub fn path(&self) -> (p: &Vec<P>)
        ensures
            p@ == self.waypoints(),
    {
        &self.path
    }

    /// The waypoint to head for, or `None` once every waypoint has been reached.
    pub fn next(&self) -> (w: Option<&P>)
        ensures
            match w {
                Some(p) => self.reached() < self.waypoints().len() && *p == self.waypoints()[self.reached() as int],
                None => self.reached() >= self.waypoints().len(),
            },
    {
        if self.current_index < self.path.len() {
            Some(&self.path[self.current_index])
        } else {
            None
        }
    }

    /// The last waypoint, or `None` for an empty path.
    pub fn destination(&self) -> (w: Option<&P>)
        ensures
            match w {
                Some(p) => self.waypoints().len() > 0 && *p == self.waypoints().last(),
                None => self.waypoints().len() == 0,
            },
    {
        let n = self.path.len();
        if n > 0 {
            Some(&self.path[n - 1])
        } else {
            None
        }
    }

    /// Marks the next waypoint as reached.
    pub fn increment(&mut self)
        requires
            old(self).reached() < usize::MAX,
        ensures
            final(self).waypoints() == old(self).waypoints(),
            final(self).reached() == old(self).reached() + 1,
    {
        self.current_index += 1;
    }

    /// One step of the walk. The walk ends (`None`) when the destination is
    /// already within attack range of the walker and an attack is queued, or
    /// when every waypoint has been reached; otherwise the walker heads for
    /// the next waypoint.
    pub fn next_step(&self, destination_in_range: bool, attack_queued: bool) -> (w: Option<&P>)
        ensures
            match w {
                Some(p) => {
                    &&& !(self.waypoints().len() > 0 && destination_in_range && attack_queued)
                    &&& self.reached() < self.waypoints().len()
                    &&& *p == self.waypoints()[self.reached() as int]
                },
                None => (self.waypoints().len() > 0 && destination_in_range && attack_queued)
                    || self.reached() >= self.waypoints().len(),
            },
    {
        if self.destination().is_some() && destination_in_range && attack_queued {
            return None;
        }
        self.next()
    }
}

} // verus!
