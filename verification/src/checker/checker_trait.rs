use vstd::prelude::*;

verus! {

/// A bug detector run over the state that a body visitor `V` computed.
pub trait CheckerTrait<V>: Sized {
    /// Creates the checker over `body_visitor`.
    fn new(body_visitor: V) -> Self;

    /// Runs the checks.
    fn run(&mut self);
}

} // verus!
