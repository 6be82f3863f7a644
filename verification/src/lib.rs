//! One-time lazy initialization: the life cycle of a cell, its storage, and
//! the protocol by which racing callers agree on a single initializer run.

use vstd::prelude::*;

pub mod cell;
pub mod dependency;
pub mod lazy;
pub mod protocol;
pub mod race;
pub mod state;
pub mod storage;

verus! {

/// What every lazily initialized value offers: it can be forced.
pub trait LazyStatic: Sized {
    /// The value has been produced and published.
    spec fn initialized(&self) -> bool;

    /// An initialization can be carried through: the value is in place, or
    /// nothing stands in the way of producing it now.
    spec fn can_initialize(&self) -> bool;

    /// `self` is what forcing `before` may leave: the value that `before`
    /// held, or else one that the initializer of `before` has produced.
    spec fn forced_from(&self, before: &Self) -> bool;

    /// Produces the value unless it is in place already.
    fn initialize(lazy: &mut Self)
        requires
            old(lazy).can_initialize(),
        ensures
            final(lazy).initialized(),
            final(lazy).can_initialize(),
            final(lazy).forced_from(old(lazy)),
            old(lazy).initialized() ==> *final(lazy) == *old(lazy),
    ;
}

/// Initializes a lazy value if it has not been initialized already, without
/// handing the value out. This fixes the moment at which the initializer
/// runs; on a value that is in place it does nothing.
pub fn initialize<T: LazyStatic>(lazy: &mut T)
    requires
        old(lazy).can_initialize(),
    ensures
        final(lazy).initialized(),
        final(lazy).can_initialize(),
        final(lazy).forced_from(old(lazy)),
        old(lazy).initialized() ==> *final(lazy) == *old(lazy),
{
    LazyStatic::initialize(lazy);
}

} // verus!
