//! Why a conversion stops.

use vstd::prelude::*;

verus! {

/// The reasons for which a capture cannot be converted. Each of them ends the
/// whole conversion: no row of a failed run is to be kept.
#[derive(Clone, Copy, Debug, PartialEq, Eq, Structural)]
pub enum LoadError {
    /// A class identifier for which no key was assigned, or a class whose
    /// definition was needed and has not been seen.
    UnknownClass(u64),
    /// A name identifier for which no key was assigned.
    UnknownName(u64),
    /// A class that is reached again on the way up from itself.
    SuperclassCycle(u64),
    /// The instance with this identifier has fewer bytes than its fields take.
    TruncatedInstance(u64),
    /// The char array with this identifier is not valid UTF-16.
    InvalidUtf16(u64),
    /// More identifiers than there are keys.
    TooManyIdentifiers,
    /// More objects than there are keys.
    TooManyObjects,
}

} // verus!
