//! Windows: the web view runtime check.

use vstd::prelude::*;
use crate::platform::{PlatformError, PlatformResult};

verus! {

/// The message given when the web view runtime is missing.
pub open spec fn webview2_missing_text() -> Seq<char> {
    "WebView2 runtime not available. Install Microsoft Edge or the WebView2 Runtime from https://developer.microsoft.com/microsoft-edge/webview2/"@
}

/// The runtime is available exactly when the web view runtime was found.
pub fn ensure_runtime_available(webview2_available: bool) -> (r: PlatformResult<()>)
    ensures
        webview2_available ==> r is Ok,
        !webview2_available ==> (r matches Err(PlatformError::Other(m)) && m@ == webview2_missing_text()),
{
    if webview2_available {
        Ok(())
    } else {
        Err(
            PlatformError::Other(
                "WebView2 runtime not available. Install Microsoft Edge or the WebView2 Runtime from https://developer.microsoft.com/microsoft-edge/webview2/".to_owned(),
            ),
        )
    }
}

} // verus!
