use webwallpaper::commands::{displays_to_replace, StartError, SERVER_STARTUP_FAILED, WEBVIEW_NOT_AVAILABLE};
use webwallpaper::platform::PlatformError;
use webwallpaper::wallpaper::WallpaperError;
use webwallpaper::commands::{
    file_not_found_message, is_url, local_entry, start_message, stop_after_reply,
    stop_all_outcome, stop_without_instance, target_error_exit_code, transform_url, PathKind,
    DISPLAY_NOT_FOUND, GENERAL_ERROR, NO_RUNNING_INSTANCE, SUCCESS,
};
use webwallpaper::display::{Display, TargetError};
use webwallpaper::ipc::{IpcError, IpcResponse};
use webwallpaper::server::PathStyle;

#[test]
fn urls_and_paths() {
    assert!(is_url("http://example.com"));
    assert!(is_url("https://example.com"));
    assert!(is_url("file:///tmp/a.html"));
    assert!(!is_url("./index.html"));
    assert!(!is_url("HTTP://example.com"));
    assert!(!is_url("ftp://example.com"));
}

#[test]
fn shadertoy_urls_become_embeds() {
    let embed = "https://www.shadertoy.com/embed/tlVGDt?gui=false&t=0&paused=false&muted=true";
    assert_eq!(transform_url("https://www.shadertoy.com/view/tlVGDt"), embed);
    assert_eq!(transform_url("https://www.shadertoy.com/view/tlVGDt?x=1"), embed);
    assert_eq!(transform_url("https://www.shadertoy.com/view/tlVGDt#frag"), embed);
    assert_eq!(transform_url("https://www.shadertoy.com/view/tlVGDt/more"), embed);
    assert_eq!(
        transform_url("https://www.shadertoy.com/view/"),
        "https://www.shadertoy.com/view/"
    );
    assert_eq!(transform_url("https://example.com/view/abc"), "https://example.com/view/abc");
    assert_eq!(
        transform_url("https://a.io/view/first/shadertoy.com/view/xyz"),
        "https://www.shadertoy.com/embed/first?gui=false&t=0&paused=false&muted=true"
    );
}

#[test]
fn local_entries() {
    assert_eq!(
        local_entry("./site/a.html", "/home/u/site/a.html", PathKind::File, false, PathStyle::Unix),
        Ok(("/home/u/site".to_string(), "a.html".to_string()))
    );
    assert_eq!(
        local_entry("x", "/a.html", PathKind::File, false, PathStyle::Unix),
        Ok(("/".to_string(), "a.html".to_string()))
    );
    assert_eq!(
        local_entry("./site", "/home/u/site", PathKind::Directory, true, PathStyle::Unix),
        Ok(("/home/u/site".to_string(), "index.html".to_string()))
    );
    assert_eq!(
        local_entry("./site", "/home/u/site", PathKind::Directory, false, PathStyle::Unix),
        Err("Directory does not contain index.html: ./site".to_string())
    );
    assert_eq!(
        local_entry("/dev/null", "/dev/null", PathKind::Other, false, PathStyle::Unix),
        Err("Path is neither file nor directory: /dev/null".to_string())
    );
    assert_eq!(
        local_entry("a", "a", PathKind::File, false, PathStyle::Unix),
        Err("Cannot get parent directory".to_string())
    );
    assert_eq!(file_not_found_message("nope.html"), "File not found: nope.html");
}

#[test]
fn start_messages() {
    let d0 = Display::new(0, 0, 0, 1, 1, 0, 0, 1, 1, true);
    let d2 = Display::new(2, 1, 0, 1, 1, 1, 0, 1, 1, false);
    assert_eq!(start_message(&[d0], "x.html"), "Started wallpaper on display 0: x.html");
    assert_eq!(
        start_message(&[d0, d2], "https://a"),
        "Started wallpaper on 2 display(s) [0, 2]: https://a"
    );
    assert_eq!(
        target_error_exit_code(&TargetError::DisplayNotFound { requested: 4, available: vec![] }),
        DISPLAY_NOT_FOUND
    );
    assert_eq!(target_error_exit_code(&TargetError::NoDisplays), GENERAL_ERROR);
}

#[test]
fn stop_outcomes() {
    let none = stop_without_instance(1);
    assert_eq!(none.exit_code, NO_RUNNING_INSTANCE);
    assert!(!none.remove_instance_file);
    assert!(none.is_error);
    assert_eq!(none.line, "error: No wallpaper running on display 1");

    let ok = stop_after_reply(1, &Ok(IpcResponse::Okay));
    assert_eq!(ok.exit_code, SUCCESS);
    assert!(ok.remove_instance_file);
    assert!(!ok.is_error);
    assert_eq!(ok.line, "Stopped wallpaper on display 1");

    let failed = stop_after_reply(1, &Err(IpcError::InvalidResponse));
    assert_eq!(failed.exit_code, GENERAL_ERROR);
    assert!(failed.remove_instance_file);
    assert_eq!(
        failed.line,
        "error: Failed to stop wallpaper on display 1 (process may have already exited)"
    );

    let empty = stop_all_outcome(0);
    assert_eq!(empty.exit_code, SUCCESS);
    assert!(!empty.remove_instance_file);
    assert_eq!(empty.line, "No wallpaper instances running");
    let two = stop_all_outcome(2);
    assert_eq!(two.exit_code, SUCCESS);
    assert!(two.remove_instance_file);
    assert_eq!(two.line, "Stopped 2 wallpaper instance(s)");
}

#[test]
fn transform_url_twice_is_once() {
    for url in [
        "https://www.shadertoy.com/view/tlVGDt",
        "https://www.shadertoy.com/view/abc?x=1",
        "https://example.com/page",
        "https://www.shadertoy.com/embed/tlVGDt?gui=false&t=0&paused=false&muted=true",
    ] {
        let once = transform_url(url);
        assert_eq!(transform_url(&once), once);
    }
}

#[test]
fn local_entry_on_windows_paths() {
    let w = PathStyle::Windows;
    assert_eq!(
        local_entry("site\\a.html", "C:\\Users\\u\\site\\a.html", PathKind::File, false, w),
        Ok(("C:\\Users\\u\\site".to_string(), "a.html".to_string()))
    );
    assert_eq!(
        local_entry("a.html", "C:\\a.html", PathKind::File, false, w),
        Ok(("C:\\".to_string(), "a.html".to_string()))
    );
    assert_eq!(
        local_entry("x", "\\a.html", PathKind::File, false, w),
        Ok(("\\".to_string(), "a.html".to_string()))
    );
    assert_eq!(
        local_entry("x", "C:\\a.html", PathKind::File, false, PathStyle::Unix),
        Err("Cannot get parent directory".to_string())
    );
}

#[test]
fn start_failures_exit_codes_and_messages() {
    let runtime = StartError::RuntimeUnavailable(PlatformError::Other("WebView2 runtime not available".to_string()));
    assert_eq!(runtime.exit_code(), WEBVIEW_NOT_AVAILABLE);
    assert_eq!(runtime.message(), "error: Platform error: WebView2 runtime not available");

    let port = StartError::PortInUse(8080);
    assert_eq!(port.exit_code(), SERVER_STARTUP_FAILED);
    assert_eq!(
        port.message(),
        "error: Port 8080 is already in use\nhint: Use --port to specify a different port"
    );

    let server = StartError::ServerStart("bind".to_string());
    assert_eq!(server.exit_code(), SERVER_STARTUP_FAILED);
    assert_eq!(server.message(), "error: Failed to start HTTP server: bind");

    let missing = StartError::Target(TargetError::DisplayNotFound { requested: 99, available: vec![0, 1] });
    assert_eq!(missing.exit_code(), DISPLAY_NOT_FOUND);
    assert_eq!(missing.message(), "error: Display 99 does not exist (available: 0, 1)");

    let none = StartError::Target(TargetError::NoDisplays);
    assert_eq!(none.exit_code(), GENERAL_ERROR);
    assert_eq!(none.message(), "error: No displays found");

    let input = StartError::Input("File not found: ./nonexistent.html".to_string());
    assert_eq!(input.exit_code(), GENERAL_ERROR);
    assert_eq!(input.message(), "error: File not found: ./nonexistent.html");

    let scale = StartError::InvalidOption("Scale must be between 0.1 and 2.0".to_string());
    assert_eq!(scale.exit_code(), GENERAL_ERROR);
    assert_eq!(scale.message(), "error: Scale must be between 0.1 and 2.0");

    let enumerate = StartError::DisplayEnumeration(PlatformError::DisplayEnumerationFailed("x".to_string()));
    assert_eq!(enumerate.exit_code(), GENERAL_ERROR);
    assert_eq!(enumerate.message(), "error: Failed to enumerate displays: Display enumeration failed: x");

    let dir = StartError::InstanceDirectory("denied".to_string());
    assert_eq!(dir.exit_code(), GENERAL_ERROR);
    assert_eq!(dir.message(), "error: Failed to create instance directory: denied");

    let windows = StartError::Wallpaper(WallpaperError::WindowCreationFailed("w".to_string()));
    assert_eq!(windows.exit_code(), GENERAL_ERROR);
    assert_eq!(windows.message(), "error: Wallpaper creation failed: Window creation failed: w");
}

#[test]
fn replaced_displays_are_the_running_ones() {
    let d = |i: u32| Display::new(i, 0, 0, 1, 1, 0, 0, 1, 1, false);
    let targets = vec![d(0), d(3), d(1)];
    assert_eq!(displays_to_replace(&targets, &[true, false, true]), vec![0, 1]);
    assert_eq!(displays_to_replace(&targets, &[false, false, false]), Vec::<u32>::new());
    assert_eq!(displays_to_replace(&[], &[]), Vec::<u32>::new());
}
