use vstd::prelude::*;

verus! {

/// What a task that follows a feed does next.
#[derive(Debug, Clone, Copy, PartialEq, Eq, Structural)]
pub enum FollowStep {
    /// It waits, for so many milliseconds.
    Pause(u64),
    /// It connects, and follows the feed until the connection ends.
    Connect,
}

/// How long a task waits before it looks again whether there is anything to follow, in
/// milliseconds.
pub const IDLE_PAUSE: u64 = 1000;

/// How long a task waits after its connection has failed, in milliseconds.
pub const RECONNECT_PAUSE: u64 = 2000;

/// The next step of a task that follows a feed, from how many things there are to follow and
/// whether the step before was a connection that failed. After a failure it waits before anything
/// else.
pub fn follow_step(followed: usize, failed: bool) -> (step: FollowStep)
    ensures
        step == (if failed {
            FollowStep::Pause(RECONNECT_PAUSE)
        } else if followed == 0 {
            FollowStep::Pause(IDLE_PAUSE)
        } else {
            FollowStep::Connect
        }),
{
    if failed {
        FollowStep::Pause(RECONNECT_PAUSE)
    } else if followed == 0 {
        FollowStep::Pause(IDLE_PAUSE)
    } else {
        FollowStep::Connect
    }
}

} // verus!
