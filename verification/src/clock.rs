//! The system clock, read once per sealed block.

use vstd::prelude::*;
use crate::errors::Error;

verus! {

/// Relies on std::time::SystemTime: the number of milliseconds between the
/// Unix epoch and now. Fails exactly when the clock sits before the epoch.
#[verifier::external_body]
pub(crate) fn current_millis() -> (r: Result<u128, Error>)
    ensures
        (match r {
            Ok(_) => true,
            Err(e) => e == Error::Clock,
        }),
{
    match std::time::SystemTime::now().duration_since(std::time::SystemTime::UNIX_EPOCH) {
        Ok(d) => Ok(d.as_millis()),
        Err(_) => Err(Error::Clock),
    }
}

} // verus!
