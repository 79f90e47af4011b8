use webwallpaper::cli::{mode_kind, random_choice, ModeKind};
use webwallpaper::ipc::{IpcCommand, IpcResponse};
use webwallpaper::display::Display;
use webwallpaper::platform::linux::{
    choose_compositor, extension_reported_active, mentions_gnome, monitor_for_display,
    no_wayland_error, unsupported_compositor_error, CompositorType,
};
use webwallpaper::platform::{apply_ipc_command, PlatformError};
use webwallpaper::wallpaper::WallpaperError;

#[test]
fn commands_close_windows() {
    let mut open = vec![0u32, 1, 2, 1];
    let r = apply_ipc_command(&mut open, IpcCommand::Ping);
    assert!(r.keep_reading && !r.no_window_left);
    assert_eq!(r.response, IpcResponse::Pong);
    assert_eq!(open, vec![0, 1, 2, 1]);
    let r = apply_ipc_command(&mut open, IpcCommand::Stop(1));
    assert!(r.keep_reading && !r.no_window_left);
    assert_eq!(r.response, IpcResponse::Okay);
    assert_eq!(open, vec![0, 2, 1]);
    let r = apply_ipc_command(&mut open, IpcCommand::Stop(9));
    assert!(r.keep_reading && !r.no_window_left);
    assert_eq!(open, vec![0, 2, 1]);
    let r = apply_ipc_command(&mut open, IpcCommand::StopAll);
    assert!(!r.keep_reading && r.no_window_left);
    assert_eq!(r.response, IpcResponse::OkCount(3));
    assert!(open.is_empty());
}

#[test]
fn stopping_one_display_keeps_the_others() {
    // two displays: stopping display 0 leaves display 1 running
    let mut open = vec![0u32, 1];
    let r = apply_ipc_command(&mut open, IpcCommand::Stop(0));
    assert_eq!(open, vec![1]);
    assert!(!r.no_window_left);
    // stopping the last one ends the instance
    let r = apply_ipc_command(&mut open, IpcCommand::Stop(1));
    assert!(open.is_empty());
    assert!(r.no_window_left);
    // stop-all on an empty instance stops nothing
    let r = apply_ipc_command(&mut open, IpcCommand::StopAll);
    assert_eq!(r.response, IpcResponse::OkCount(0));
}

#[test]
fn linux_session() {
    assert_eq!(choose_compositor(true, true), Some(CompositorType::LayerShell));
    assert_eq!(choose_compositor(false, true), Some(CompositorType::Gnome));
    assert_eq!(choose_compositor(false, false), None);
    assert!(mentions_gnome("ubuntu:GNOME"));
    assert!(mentions_gnome("gnome-xorg"));
    assert!(!mentions_gnome("Hyprland"));
    assert!(extension_reported_active("State: ACTIVE"));
    assert!(extension_reported_active("Enabled: ENABLED"));
    assert!(!extension_reported_active("State: INITIALIZED"));
    assert!(no_wayland_error().message().starts_with("Platform error: Wayland session not detected"));
    assert!(unsupported_compositor_error().message().contains("Unsupported compositor"));
}

#[test]
fn runtime_checks() {
    assert!(webwallpaper::platform::windows::ensure_runtime_available(true).is_ok());
    match webwallpaper::platform::windows::ensure_runtime_available(false) {
        Err(PlatformError::Other(m)) => assert!(m.starts_with("WebView2 runtime not available")),
        _ => panic!("expected the missing-runtime error"),
    }
    assert!(webwallpaper::platform::macos::ensure_runtime_available().is_ok());
    assert!(webwallpaper::platform::macos::init_platform().is_ok());
    assert!(webwallpaper::platform::linux::init_platform().is_ok());
}

#[test]
fn error_texts() {
    assert_eq!(PlatformError::WindowsError("w".into()).message(), "Windows error: w");
    assert_eq!(PlatformError::LinuxError("l".into()).message(), "Linux error: l");
    assert_eq!(
        PlatformError::DisplayEnumerationFailed("d".into()).message(),
        "Display enumeration failed: d"
    );
    assert_eq!(PlatformError::WebviewError("v".into()).message(), "Webview error: v");
    assert_eq!(PlatformError::Other("o".into()).message(), "Platform error: o");
    assert_eq!(
        WallpaperError::WindowCreationFailed("a".into()).message(),
        "Window creation failed: a"
    );
    assert_eq!(
        WallpaperError::StyleApplicationFailed("b".into()).message(),
        "Style application failed: b"
    );
    assert_eq!(WallpaperError::UrlLoadFailed("c".into()).message(), "URL load failed: c");
    assert_eq!(WallpaperError::PlatformError("d".into()).message(), "Platform error: d");
}

#[test]
fn modes() {
    assert_eq!(mode_kind(true, Some(1), true, true, true), ModeKind::StopAll);
    assert_eq!(mode_kind(false, Some(1), true, true, true), ModeKind::Stop(1));
    assert_eq!(mode_kind(false, None, true, true, true), ModeKind::BuiltIn { random: true });
    assert_eq!(mode_kind(false, None, false, true, true), ModeKind::BuiltIn { random: false });
    assert_eq!(mode_kind(false, None, false, false, true), ModeKind::Start);
    assert_eq!(mode_kind(false, None, false, false, false), ModeKind::ShowHelp);
    assert_eq!(random_choice(10, 3), 1);
    assert_eq!(random_choice(u128::MAX, 7), (u128::MAX as usize) % 7);
}

#[test]
fn monitor_for_display_choice() {
    let target = Display::new(2, 1920, 0, 1920, 1080, 1920, 0, 1920, 1040, false);
    let three = [(0, 0, 1920, 1080), (1920, 0, 1920, 1080), (3840, 0, 1280, 1024)];
    // the monitor numbered like the display
    assert_eq!(monitor_for_display(&target, &three, Some(0)), Some(2));
    // else the first monitor with the same geometry
    let two = [(0, 0, 1920, 1080), (1920, 0, 1920, 1080)];
    assert_eq!(monitor_for_display(&target, &two, Some(0)), Some(1));
    let twins = [(1920, 0, 1920, 1080), (1920, 0, 1920, 1080)];
    assert_eq!(monitor_for_display(&target, &twins, None), Some(0));
    // else the primary monitor
    let other = [(0, 0, 800, 600)];
    assert_eq!(monitor_for_display(&target, &other, Some(0)), Some(0));
    assert_eq!(monitor_for_display(&target, &other, None), None);
    assert_eq!(monitor_for_display(&target, &[], None), None);
}
