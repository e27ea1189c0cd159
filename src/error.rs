use vstd::prelude::*;

verus! {

/// Why the radio stack could not start or stop a scan.
#[derive(Clone, Debug)]
pub enum Error {
    PermissionDenied,
    RadioUnavailable,
    Other(String),
}

} // verus!
