//! Platform-level decisions: the platform error type, the runtime checks
//! of each platform, and what a running instance does with the commands it
//! receives.

use vstd::prelude::*;
use crate::ipc::{IpcCommand, IpcResponse, ResponseView, response_for};
use crate::text::{append_str, string_of};

pub mod linux;
pub mod macos;
pub mod windows;

verus! {

/// Platform-specific errors
#[derive(Debug, Clone, PartialEq, Eq)]
pub enum PlatformError {
    /// Windows-specific error
    WindowsError(String),
    /// Linux-specific error
    LinuxError(String),
    /// Display enumeration failed
    DisplayEnumerationFailed(String),
    /// Webview creation failed
    WebviewError(String),
    /// Generic platform error
    Other(String),
}

/// Platform initialization result
pub type PlatformResult<T> = Result<T, PlatformError>;

/// The text of a platform error.
pub open spec fn platform_error_text(e: PlatformError) -> Seq<char> {
    match e {
        PlatformError::WindowsError(m) => "Windows error: "@ + m@,
        PlatformError::LinuxError(m) => "Linux error: "@ + m@,
        PlatformError::DisplayEnumerationFailed(m) => "Display enumeration failed: "@ + m@,
        PlatformError::WebviewError(m) => "Webview error: "@ + m@,
        PlatformError::Other(m) => "Platform error: "@ + m@,
    }
}

impl PlatformError {
    /// The error's text, as shown to the user.
    pub fn message(&self) -> (s: String)
        ensures
            s@ == platform_error_text(*self),
    {
        let mut v: Vec<char> = Vec::new();
        match self {
            PlatformError::WindowsError(m) => {
                append_str(&mut v, "Windows error: ");
                append_str(&mut v, m.as_str());
            },
            PlatformError::LinuxError(m) => {
                append_str(&mut v, "Linux error: ");
                append_str(&mut v, m.as_str());
            },
            PlatformError::DisplayEnumerationFailed(m) => {
                append_str(&mut v, "Display enumeration failed: ");
                append_str(&mut v, m.as_str());
            },
            PlatformError::WebviewError(m) => {
                append_str(&mut v, "Webview error: ");
                append_str(&mut v, m.as_str());
            },
            PlatformError::Other(m) => {
                append_str(&mut v, "Platform error: ");
                append_str(&mut v, m.as_str());
            },
        }
        string_of(v.as_slice())
    }
}

// ---------------------------------------------------------------------------
// Commands received by a running instance
// ---------------------------------------------------------------------------

/// The displays whose windows are still open after a command: `STOP:ALL`
/// closes all of them, `STOP:<d>` closes the first window on display `d`
/// (if there is one), and `PING` closes nothing.
pub open spec fn after_command(open: Seq<u32>, cmd: IpcCommand) -> Seq<u32> {
    match cmd {
        IpcCommand::Ping => open,
        IpcCommand::StopAll => Seq::empty(),
        IpcCommand::Stop(d) => match open.index_of_first(d) {
            Some(p) => open.remove(p),
            None => open,
        },
    }
}

/// What a running instance makes of one received command.
pub struct CommandOutcome {
    /// The answer to send back.
    pub response: IpcResponse,
    /// Whether further queued commands are to be read (not after `STOP:ALL`).
    pub keep_reading: bool,
    /// Whether no window is left open, so that the instance ends.
    pub no_window_left: bool,
}

/// Carries out one received command on the open windows (given by their
/// display indices, in window order) and gives the answer: `STOP:ALL` is
/// answered with the number of windows it closed.
pub fn apply_ipc_command(open: &mut Vec<u32>, cmd: IpcCommand) -> (r: CommandOutcome)
    requires
        old(open)@.len() <= u32::MAX,
    ensures
        final(open)@ == after_command(old(open)@, cmd),
        final(open)@.len() <= old(open)@.len(),
        r.response@ == response_for(cmd, (old(open)@.len() - final(open)@.len()) as u32),
        cmd is StopAll ==> r.response@ == ResponseView::OkCount(old(open)@.len() as u32),
        r.keep_reading == !(cmd is StopAll),
        r.no_window_left == (final(open)@.len() == 0),
{
    let before = open.len();
    let keep_reading = close_windows(open, cmd);
    proof {
        if let IpcCommand::Stop(d) = cmd {
            old(open)@.index_of_first_ensures(d);
        }
    }
    let stopped = (before - open.len()) as u32;
    CommandOutcome {
        response: IpcResponse::for_command(cmd, stopped),
        keep_reading,
        no_window_left: open.len() == 0,
    }
}

fn close_windows(open: &mut Vec<u32>, cmd: IpcCommand) -> (keep_reading: bool)
    ensures
        final(open)@ == after_command(old(open)@, cmd),
        keep_reading == !(cmd is StopAll),
{
    match cmd {
        IpcCommand::Ping => true,
        IpcCommand::StopAll => {
            open.clear();
            false
        },
        IpcCommand::Stop(d) => {
            let mut i: usize = 0;
            while i < open.len()
                invariant
                    i <= open.len(),
                    open@ == old(open)@,
                    cmd == IpcCommand::Stop(d),
                    forall|j: int| 0 <= j < i ==> open@[j] != d,
                decreases open.len() - i,
            {
                if open[i] == d {
                    proof {
                        open@.index_of_first_ensures(d);
                        assert(open@.contains(d));
                        let c = open@.index_of_first(d)->0;
                        if c < i {
                            assert(open@[c] != d);
                        }
                        if i < c {
                            assert(open@[i as int] != d);
                        }
                    }
                    open.remove(i);
                    return true;
                }
                i = i + 1;
            }
            proof {
                open@.index_of_first_ensures(d);
                if open@.contains(d) {
                    let k = choose|k: int| 0 <= k < open@.len() && open@[k] == d;
                    assert(open@[k] != d);
                }
            }
            true
        },
    }
}

/// What one received command does to the open windows: `STOP:<d>` closes
/// exactly one window of display `d` when there is one, and no window of
/// any other display; `STOP:ALL` closes every window; `PING` closes none.
pub proof fn lemma_command_effects(open: Seq<u32>, d: u32, x: u32)
    ensures
        x != d ==> after_command(open, IpcCommand::Stop(d)).to_multiset().count(x)
            == open.to_multiset().count(x),
        open.contains(d) ==> after_command(open, IpcCommand::Stop(d)).to_multiset().count(d) + 1
            == open.to_multiset().count(d),
        !open.contains(d) ==> after_command(open, IpcCommand::Stop(d)) == open,
        after_command(open, IpcCommand::StopAll).len() == 0,
        after_command(open, IpcCommand::Ping) == open,
{
    broadcast use vstd::seq_lib::group_to_multiset_ensures;
    broadcast use vstd::multiset::group_multiset_axioms;

    open.index_of_first_ensures(d);
    if open.contains(d) {
        let p = open.index_of_first(d)->0;
        assert(open.remove(p).to_multiset() =~= open.to_multiset().remove(open[p]));
        assert(open.to_multiset().count(d) > 0);
        assert(vstd::multiset::Multiset::singleton(d).count(d) == 1);
        assert(open.to_multiset().remove(d).count(d) + 1 == open.to_multiset().count(d));
    }
}

} // verus!
