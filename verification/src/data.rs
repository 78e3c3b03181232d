//! What travels over a channel, and how long a bounded wait may last.
use vstd::prelude::*;

verus! {

/// Marks the types whose values can be sent over a channel. The network
/// moves such a value from one end to the other and never looks into it.
pub trait Data: Sized {

}

impl Data for u8 {

}

impl Data for u64 {

}

impl Data for Vec<u8> {

}

impl Data for String {

}

/// A span of time, as timers count it.
pub trait Time: Sized {
    /// The span in ticks of the scope's clock.
    spec fn span(&self) -> u64;

    /// The span in ticks of the scope's clock.
    fn ticks(&self) -> (ticks: u64)
        ensures
            ticks == self.span(),
    ;
}

impl Time for u64 {
    open spec fn span(&self) -> u64 {
        *self
    }

    fn ticks(&self) -> (ticks: u64) {
        *self
    }
}

} // verus!
