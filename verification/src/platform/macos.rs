//! macOS: no runtime prerequisites beyond the system web view.

use vstd::prelude::*;
use crate::platform::PlatformResult;

verus! {

/// macOS handles Retina scaling itself; nothing needs to be set up.
pub fn init_platform() -> (r: PlatformResult<()>)
    ensures
        r is Ok,
{
    Ok(())
}

/// The system web view is always present (macOS 10.10 and later).
pub fn ensure_runtime_available() -> (r: PlatformResult<()>)
    ensures
        r is Ok,
{
    Ok(())
}

} // verus!
