use vstd::prelude::*;

verus! {

use crate::loader::Id;

/// Typed failures of a module load, each carrying the identifier of the
/// module the failure is about.
#[derive(Debug, Clone, Copy, PartialEq, Eq, Structural)]
pub enum Error {
    /// An `Export` reference names an identifier that is not in the registry;
    /// fatal to the enclosing module's load.
    UnresolvedReference(Id),
    /// An `Export` reference names a registered module whose resolved URL is
    /// not set at composition time; fatal to the enclosing module's load.
    DependencyNotLoaded(Id),
    /// The materialize/inject collaborator reported a failure for this module.
    InjectionFailure(Id),
    /// The completion signal channel was dropped without delivering an event.
    ChannelClosed(Id),
}

} // verus!
