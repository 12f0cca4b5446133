//! The actor abstraction as seen by factories.

use vstd::prelude::*;

verus! {

/// An actor: constructed from serializable `Args` and node-local `Deps`.
pub trait Actor: Sized + Send + 'static {
    /// Construction arguments (may travel over the wire).
    type Args;
    /// Local dependencies (resolved on the node that hosts the actor).
    type Deps;

    fn create(args: Self::Args, deps: Self::Deps) -> Self;
}

} // verus!
