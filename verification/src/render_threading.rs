use vstd::prelude::*;

verus! {

/// Blend a value towards a target by some factor.  What blending means
/// is the implementor's business; the driving loop only composes it.
pub trait Interpolate: Sized {
    type Factor;

    type Result;

    fn interp(self, target: Self, fac: Self::Factor) -> Self::Result;
}

/// Relies on std::time::SystemTime::now for a wall-clock reading, as
/// whole milliseconds since the epoch (0 for a clock reading before the
/// epoch).  Nothing is promised of the value: the clock is no function
/// of the program's state.
#[verifier::external_body]
fn clock_millis() -> u64 {
    match std::time::SystemTime::now().duration_since(std::time::UNIX_EPOCH) {
        Ok(elapsed) => elapsed.as_millis() as u64,
        Err(_) => 0,
    }
}

/// Whether a fixed-rate loop's next step is due, given how long it has
/// been since the previous step.
pub fn frame_due(elapsed_millis: u64, interval_millis: u64) -> (r: bool)
    ensures
        r == (elapsed_millis >= interval_millis),
{
    elapsed_millis >= interval_millis
}

/// One simulation step's output: when it was produced and which
/// iteration produced it.
#[derive(Debug, Copy, Clone, PartialEq, Eq, PartialOrd, Ord, Hash, Structural)]
pub struct GameState {
    pub timestamp: u64,
    pub iteration: usize,
}

impl GameState {
    /// A state stamped with the current clock reading.
    pub fn new(iteration: usize) -> (r: GameState)
        ensures
            r.iteration == iteration,
    {
        GameState { timestamp: clock_millis(), iteration }
    }
}

impl Default for GameState {
    /// The state before any step ran, stamped with the current clock
    /// reading.
    fn default() -> (r: GameState)
        ensures
            r.iteration == 0,
    {
        GameState { timestamp: clock_millis(), iteration: 0 }
    }
}

/// A double-buffered handover between one producer and one consumer:
/// the producer publishes each new state behind the previous one, the
/// consumer takes a snapshot of the last two.  `dirty` flags an
/// unconsumed publication — the producer waits for it to clear, the
/// consumer clears it; `count` remembers how many states have ever been
/// published, saturating at two, since blending needs a pair.
pub struct SharedState<T> {
    pub front: T,
    pub back: T,
    pub count: usize,
    pub dirty: bool,
}

impl<T: Copy> SharedState<T> {
    pub fn new(initial: T) -> (r: SharedState<T>)
        ensures
            r.front == initial,
            r.back == initial,
            r.count == 0,
            !r.dirty,
    {
        SharedState { front: initial, back: initial, count: 0, dirty: false }
    }

    /// Publish one new state: the previous newest slides to the front
    /// slot, the new state takes the back slot, and the handover is
    /// flagged.  The producer must have seen the previous publication
    /// consumed — that wait is where it blocks.
    pub fn publish(&mut self, state: T)
        requires
            !old(self).dirty,
        ensures
            final(self).front == old(self).back,
            final(self).back == state,
            final(self).count == (if old(self).count < 2 {
                old(self).count + 1
            } else {
                old(self).count as int
            }),
            final(self).dirty,
    {
        self.front = self.back;
        self.back = state;
        if self.count < 2 {
            self.count = self.count + 1;
        }
        self.dirty = true;
    }

    /// Take a snapshot of the two most recent states and clear the
    /// handover flag, letting the producer move on.
    pub fn consume(&mut self) -> (r: (T, T))
        ensures
            r.0 == old(self).front,
            r.1 == old(self).back,
            final(self).front == old(self).front,
            final(self).back == old(self).back,
            final(self).count == old(self).count,
            !final(self).dirty,
    {
        self.dirty = false;
        (self.front, self.back)
    }

    /// Whether two states have been published yet — only then is there
    /// a pair to blend between.
    pub fn warmed_up(&self) -> (r: bool)
        ensures
            r == (self.count >= 2),
    {
        self.count >= 2
    }
}

} // verus!
