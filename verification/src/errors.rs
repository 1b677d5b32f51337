//! Error kinds reported by the core operations.

use vstd::prelude::*;

verus! {

/// What went wrong with a request.
///
/// `Validation` marks input that is malformed or semantically invalid (a
/// zero-width or inverted query interval, a timestamp the service cannot
/// represent). `NotFound` marks a location or sensor name that does not
/// resolve to a registered entry. `Conflict` marks an attempt to write a
/// reading whose `(timestamp, sensor, location)` triple is already stored.
#[derive(Clone, Copy, Debug, PartialEq, Eq, Structural)]
pub enum EnvError {
    Validation,
    NotFound,
    Conflict,
}

} // verus!
