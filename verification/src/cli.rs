//! What the command line asks for, decided from the parsed options.

use vstd::prelude::*;

verus! {

/// The operational mode determined from the command-line options.
#[derive(Debug, Clone, Copy, PartialEq, Eq, Structural)]
pub enum ModeKind {
    /// Stop all wallpaper instances.
    StopAll,
    /// Stop the wallpaper on one display.
    Stop(u32),
    /// Start a built-in shader; `random` when it is to be picked at random.
    BuiltIn { random: bool },
    /// Start a wallpaper from a URL or a local path.
    Start,
    /// No command was given: show usage.
    ShowHelp,
}

/// The mode the options ask for: `--stopall` first, then `--stop`, then
/// `--random`, then `--builtin`, then a URL or path; with none of them,
/// usage is shown.
pub open spec fn mode_kind_spec(
    stopall: bool,
    stop: Option<u32>,
    random: bool,
    has_builtin: bool,
    has_url_or_path: bool,
) -> ModeKind {
    if stopall {
        ModeKind::StopAll
    } else if stop is Some {
        ModeKind::Stop(stop->0)
    } else if random {
        ModeKind::BuiltIn { random: true }
    } else if has_builtin {
        ModeKind::BuiltIn { random: false }
    } else if has_url_or_path {
        ModeKind::Start
    } else {
        ModeKind::ShowHelp
    }
}

/// Decides the mode from the options (see [`mode_kind_spec`]).
pub fn mode_kind(
    stopall: bool,
    stop: Option<u32>,
    random: bool,
    has_builtin: bool,
    has_url_or_path: bool,
) -> (m: ModeKind)
    ensures
        m == mode_kind_spec(stopall, stop, random, has_builtin, has_url_or_path),
{
    if stopall {
        ModeKind::StopAll
    } else if let Some(display) = stop {
        ModeKind::Stop(display)
    } else if random {
        ModeKind::BuiltIn { random: true }
    } else if has_builtin {
        ModeKind::BuiltIn { random: false }
    } else if has_url_or_path {
        ModeKind::Start
    } else {
        ModeKind::ShowHelp
    }
}

/// The position of the built-in shader picked at random: the clock's
/// nanoseconds, cut to a `usize`, modulo the number of shaders.
pub fn random_choice(nanos: u128, count: usize) -> (i: usize)
    requires
        count > 0,
    ensures
        i == (nanos as usize) % count,
        i < count,
{
    (nanos as usize) % count
}

} // verus!
