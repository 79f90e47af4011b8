//! Linux (Wayland): the choice between a layer-shell compositor and GNOME,
//! the reading of session and extension information, and the monitor a
//! wallpaper window goes on.

use vstd::prelude::*;
use crate::display::Display;
use crate::platform::{PlatformError, PlatformResult};
use crate::text::{chars_of, contains_chars, has_substring};

verus! {

/// The compositor strategy detected at runtime.
#[derive(Debug, Clone, Copy, PartialEq, Eq, Structural)]
pub enum CompositorType {
    /// wlr-layer-shell capable compositor (Hyprland, Sway, etc.)
    LayerShell,
    /// GNOME Mutter – requires companion GNOME Shell extension.
    Gnome,
}

/// Nothing needs to be set up before the session is inspected.
pub fn init_platform() -> (r: PlatformResult<()>)
    ensures
        r is Ok,
{
    Ok(())
}

/// The message given outside a Wayland session.
pub open spec fn no_wayland_text() -> Seq<char> {
    "Wayland session not detected. Linux support currently targets Wayland compositors such as Hyprland."@
}

/// The message given for a compositor that is neither layer-shell capable
/// nor GNOME.
pub open spec fn unsupported_compositor_text() -> Seq<char> {
    "Unsupported compositor. wewa requires either a layer-shell capable compositor (Hyprland, Sway, \u{2026}) or GNOME with the wewa companion extension."@
}

/// The strategy for a session: layer-shell when the compositor supports
/// it, otherwise GNOME when the session is GNOME, otherwise none.
pub fn choose_compositor(layer_shell_supported: bool, gnome_session: bool) -> (r: Option<
    CompositorType,
>)
    ensures
        layer_shell_supported ==> r == Some(CompositorType::LayerShell),
        !layer_shell_supported && gnome_session ==> r == Some(CompositorType::Gnome),
        !layer_shell_supported && !gnome_session ==> r is None,
{
    if layer_shell_supported {
        Some(CompositorType::LayerShell)
    } else if gnome_session {
        Some(CompositorType::Gnome)
    } else {
        None
    }
}

/// The error for a session without Wayland.
pub fn no_wayland_error() -> (e: PlatformError)
    ensures
        e matches PlatformError::Other(m) && m@ == no_wayland_text(),
{
    PlatformError::Other(
        "Wayland session not detected. Linux support currently targets Wayland compositors such as Hyprland.".to_owned(),
    )
}

/// The error for an unsupported compositor.
pub fn unsupported_compositor_error() -> (e: PlatformError)
    ensures
        e matches PlatformError::Other(m) && m@ == unsupported_compositor_text(),
{
    PlatformError::Other(
        "Unsupported compositor. wewa requires either a layer-shell capable compositor (Hyprland, Sway, \u{2026}) or GNOME with the wewa companion extension.".to_owned(),
    )
}

/// `s` with ASCII small letters made capital; other characters unchanged.
pub open spec fn ascii_uppercase(s: Seq<char>) -> Seq<char> {
    s.map_values(|c: char| if 'a' <= c && c <= 'z' { ((c as int) - 32) as char } else { c })
}

/// Whether a desktop-session variable's value names GNOME, in any ASCII
/// case.
pub fn mentions_gnome(value: &str) -> (b: bool)
    ensures
        b == has_substring(ascii_uppercase(value@), "GNOME"@),
{
    let v = chars_of(value);
    let mut up: Vec<char> = Vec::new();
    let mut i: usize = 0;
    while i < v.len()
        invariant
            i <= v.len(),
            up@ == ascii_uppercase(v@.take(i as int)),
        decreases v.len() - i,
    {
        let c = v[i];
        let u = if 'a' <= c && c <= 'z' {
            ((c as u8) - 32u8) as char
        } else {
            c
        };
        up.push(u);
        assert(ascii_uppercase(v@.take(i + 1)) =~= ascii_uppercase(v@.take(i as int)).push(u));
        i = i + 1;
    }
    assert(v@.take(v.len() as int) =~= v@);
    let word = chars_of("GNOME");
    contains_chars(up.as_slice(), word.as_slice())
}

/// Whether the extension tool's report shows the extension as active or
/// enabled.
pub fn extension_reported_active(report: &str) -> (b: bool)
    ensures
        b == (has_substring(report@, "ACTIVE"@) || has_substring(report@, "ENABLED"@)),
{
    let v = chars_of(report);
    let active = chars_of("ACTIVE");
    let enabled = chars_of("ENABLED");
    contains_chars(v.as_slice(), active.as_slice()) || contains_chars(v.as_slice(), enabled.as_slice())
}

/// The geometry of a display as a monitor reports it: position and size.
pub open spec fn geometry_of(d: Display) -> (i32, i32, u32, u32) {
    (d.x, d.y, d.width, d.height)
}

/// The monitor that shows a display, among monitors given by their
/// geometries (monitor `i` at position `i`): the monitor numbered like the
/// display when there is one; else the first monitor with the display's
/// geometry; else the primary monitor, if there is one.
pub open spec fn monitor_for_display_spec(
    target: Display,
    monitors: Seq<(i32, i32, u32, u32)>,
    primary: Option<usize>,
) -> Option<int> {
    if (target.index as int) < monitors.len() {
        Some(target.index as int)
    } else {
        match monitors.index_of_first(geometry_of(target)) {
            Some(i) => Some(i),
            None => match primary {
                Some(p) => Some(p as int),
                None => None,
            },
        }
    }
}

/// Chooses the monitor that shows a display (see
/// [`monitor_for_display_spec`]).
pub fn monitor_for_display(
    target: &Display,
    monitors: &[(i32, i32, u32, u32)],
    primary: Option<usize>,
) -> (r: Option<usize>)
    ensures
        match r {
            Some(i) => monitor_for_display_spec(*target, monitors@, primary) == Some(i as int),
            None => monitor_for_display_spec(*target, monitors@, primary) is None,
        },
{
    if (target.index as usize) < monitors.len() {
        return Some(target.index as usize);
    }
    let ghost g = geometry_of(*target);
    let mut i: usize = 0;
    while i < monitors.len()
        invariant
            i <= monitors.len(),
            g == geometry_of(*target),
            (target.index as int) >= monitors.len(),
            forall|j: int| 0 <= j < i ==> monitors@[j] != g,
        decreases monitors.len() - i,
    {
        let m = monitors[i];
        if m.0 == target.x && m.1 == target.y && m.2 == target.width && m.3 == target.height {
            proof {
                monitors@.index_of_first_ensures(g);
                assert(monitors@[i as int] == g);
                assert(monitors@.contains(g));
                let k = monitors@.index_of_first(g)->0;
                if k < i {
                    assert(monitors@[k] != g);
                }
                if i < k {
                    assert(monitors@[i as int] != g);
                }
            }
            return Some(i);
        }
        i = i + 1;
    }
    proof {
        monitors@.index_of_first_ensures(g);
        if monitors@.contains(g) {
            let k = choose|k: int| 0 <= k < monitors@.len() && monitors@[k] == g;
            assert(monitors@[k] != g);
        }
    }
    primary
}

} // verus!
