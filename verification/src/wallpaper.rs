//! The rendering modes of a wallpaper window and the errors of creating one.

use vstd::prelude::*;
use crate::text::{append_str, string_of};

verus! {

/// Rendering mode for wallpaper windows
#[derive(Debug, Clone, Copy, PartialEq, Eq, Structural)]
pub enum RenderMode {
    /// Use a web view for rendering (URLs, HTML files)
    WebView,
    /// Use native GPU rendering (shader files)
    NativeGpu,
}

/// Errors that can occur during wallpaper operations
#[derive(Debug, Clone, PartialEq, Eq)]
pub enum WallpaperError {
    /// Failed to create the webview window
    WindowCreationFailed(String),
    /// Failed to apply window styles
    StyleApplicationFailed(String),
    /// Failed to load the URL
    UrlLoadFailed(String),
    /// Platform-specific error
    PlatformError(String),
}

/// The text of a wallpaper error.
pub open spec fn wallpaper_error_text(e: WallpaperError) -> Seq<char> {
    match e {
        WallpaperError::WindowCreationFailed(m) => "Window creation failed: "@ + m@,
        WallpaperError::StyleApplicationFailed(m) => "Style application failed: "@ + m@,
        WallpaperError::UrlLoadFailed(m) => "URL load failed: "@ + m@,
        WallpaperError::PlatformError(m) => "Platform error: "@ + m@,
    }
}

impl WallpaperError {
    /// The error's text, as shown to the user.
    pub fn message(&self) -> (s: String)
        ensures
            s@ == wallpaper_error_text(*self),
    {
        let mut v: Vec<char> = Vec::new();
        match self {
            WallpaperError::WindowCreationFailed(m) => {
                append_str(&mut v, "Window creation failed: ");
                append_str(&mut v, m.as_str());
            },
            WallpaperError::StyleApplicationFailed(m) => {
                append_str(&mut v, "Style application failed: ");
                append_str(&mut v, m.as_str());
            },
            WallpaperError::UrlLoadFailed(m) => {
                append_str(&mut v, "URL load failed: ");
                append_str(&mut v, m.as_str());
            },
            WallpaperError::PlatformError(m) => {
                append_str(&mut v, "Platform error: ");
                append_str(&mut v, m.as_str());
            },
        }
        string_of(v.as_slice())
    }
}

} // verus!
