//! Platforms without scheme registration.

use vstd::prelude::*;

verus! {

/// Registration is refused: the platform is not supported.
pub fn register_scheme(_scheme: &str) -> (r: Result<(), String>)
    ensures
        r matches Err(m) && m@ == "this platform is not supported"@,
{
    Err("this platform is not supported".to_string())
}

/// Unregistration is refused: the platform is not supported.
pub fn unregister_scheme(_scheme: &str) -> (r: Result<(), String>)
    ensures
        r matches Err(m) && m@ == "this platform is not supported"@,
{
    Err("this platform is not supported".to_string())
}

} // verus!
