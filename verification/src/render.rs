//! The render loop's decisions: when to stop, and what each row shows.
//!
//! The loop itself paints through a terminal backend that stays outside
//! the library; what is verified is its state machine — one quit key
//! terminates it — and the quantities a row displays.

use vstd::prelude::*;

verus! {

/// A key event the input poll may return.
#[derive(Clone, Copy, PartialEq, Eq, Structural, Debug)]
pub enum InputKey {
    Char(char),
    Other,
}

/// The render loop is either ticking or done.
#[derive(Clone, Copy, PartialEq, Eq, Structural, Debug)]
pub enum LoopState {
    Running,
    Terminated,
}

/// Whether a polled key, if any, is the quit key `q`.
pub open spec fn quits(polled: Option<InputKey>) -> bool {
    match polled {
        Some(InputKey::Char(c)) => c == 'q',
        _ => false,
    }
}

/// The state machine of the render loop.
#[derive(Clone, Copy, PartialEq, Eq, Structural, Debug)]
pub struct RenderLoop {
    pub state: LoopState,
}

impl RenderLoop {
    /// A loop about to run its first tick.
    pub fn new() -> (r: RenderLoop)
        ensures
            r.state is Running,
    {
        RenderLoop { state: LoopState::Running }
    }

    /// Account for the key event one bounded input poll returned: the quit
    /// key terminates the loop within that very tick, every other outcome
    /// leaves it running as it was.
    pub fn observe_input(&mut self, polled: Option<InputKey>) -> (quit: bool)
        ensures
            quit == quits(polled),
            quit ==> final(self).state is Terminated,
            !quit ==> *final(self) == *old(self),
    {
        let quit = match polled {
            Some(InputKey::Char(c)) => c == 'q',
            _ => false,
        };
        if quit {
            self.state = LoopState::Terminated;
        }
        quit
    }
}

/// The whole number of MiB in `size` bytes, the unit a row displays
/// (integer truncation).
pub fn mib_of(size: u64) -> (r: u64)
    ensures
        r == size / 1048576,
{
    size / 1048576
}

} // verus!
