//! The decisions of the command line: what kind of input was given, how
//! special URLs are rewritten, how a local path is served, and the exit
//! codes and messages of the start, stop and stop-all commands.

use vstd::prelude::*;
use crate::display::{target_error_text, Display, TargetError};
use crate::platform::{platform_error_text, PlatformError};
use crate::wallpaper::{wallpaper_error_text, WallpaperError};
use crate::ipc::{IpcError, IpcResponse};
use crate::server::{file_name, last_separator, last_separator_before, PathStyle};
use crate::text::{
    append_chars, append_str, chars_of, decimal, find_chars, has_substring, contains_chars,
    is_first_occurrence, occurs_at, push_decimal, starts_with, starts_with_chars, string_of,
};

verus! {

/// Exit code: success.
pub const SUCCESS: i32 = 0;

/// Exit code: general error (invalid arguments, missing file).
pub const GENERAL_ERROR: i32 = 1;

/// Exit code: the requested display does not exist.
pub const DISPLAY_NOT_FOUND: i32 = 2;

/// Exit code: no running instance to stop.
pub const NO_RUNNING_INSTANCE: i32 = 3;

/// Exit code: the web view runtime is not available.
pub const WEBVIEW_NOT_AVAILABLE: i32 = 4;

/// Exit code: the local server could not start (port in use).
pub const SERVER_STARTUP_FAILED: i32 = 5;

// ---------------------------------------------------------------------------
// Inputs
// ---------------------------------------------------------------------------

/// An input is a URL when it starts with `http://`, `https://` or
/// `file://`; anything else is a local path.
pub open spec fn is_url_spec(input: Seq<char>) -> bool {
    starts_with(input, "http://"@) || starts_with(input, "https://"@) || starts_with(
        input,
        "file://"@,
    )
}

/// Determine if the input is a URL or a local file path
pub fn is_url(input: &str) -> (b: bool)
    ensures
        b == is_url_spec(input@),
{
    let v = chars_of(input);
    let a = chars_of("http://");
    let b = chars_of("https://");
    let c = chars_of("file://");
    starts_with_chars(v.as_slice(), a.as_slice()) || starts_with_chars(v.as_slice(), b.as_slice())
        || starts_with_chars(v.as_slice(), c.as_slice())
}

/// The characters of `s` up to the first `?`, `#` or `/`.
pub open spec fn leading_id(s: Seq<char>) -> Seq<char>
    decreases s.len(),
{
    if s.len() == 0 || s[0] == '?' || s[0] == '#' || s[0] == '/' {
        Seq::empty()
    } else {
        seq![s[0]] + leading_id(s.drop_first())
    }
}

/// How a URL is rewritten: a ShaderToy view URL
/// (`...shadertoy.com/view/<id>...`) becomes the fullscreen embed URL of
/// the same shader, the id being what follows the first `/view/` up to the
/// next `?`, `#` or `/`; a view URL with an empty id, and every other URL,
/// is kept.
pub open spec fn transform_url_spec(url: Seq<char>) -> Seq<char> {
    if has_substring(url, "shadertoy.com/view/"@) && has_substring(url, "/view/"@) {
        let i = choose|i: int| #[trigger] is_first_occurrence(url, "/view/"@, i);
        let id = leading_id(url.skip(i + "/view/"@.len()));
        if id.len() > 0 {
            "https://www.shadertoy.com/embed/"@ + id + "?gui=false&t=0&paused=false&muted=true"@
        } else {
            url
        }
    } else {
        url
    }
}

proof fn lemma_first_occurrence_unique(s: Seq<char>, p: Seq<char>, i: int, k: int)
    requires
        is_first_occurrence(s, p, i),
        is_first_occurrence(s, p, k),
    ensures
        i == k,
{
    if i < k {
        assert(!occurs_at(s, p, i));
    }
    if k < i {
        assert(!occurs_at(s, p, k));
    }
}

proof fn lemma_leading_id_no_separator(s: Seq<char>)
    ensures
        forall|k: int| 0 <= k < leading_id(s).len() ==> #[trigger] leading_id(s)[k] != '/',
    decreases s.len(),
{
    if !(s.len() == 0 || s[0] == '?' || s[0] == '#' || s[0] == '/') {
        lemma_leading_id_no_separator(s.drop_first());
        let rest = leading_id(s.drop_first());
        assert forall|k: int| 0 <= k < leading_id(s).len() implies #[trigger] leading_id(s)[k]
            != '/' by {
            if k > 0 {
                assert(leading_id(s)[k] == rest[k - 1]);
            }
        }
    }
}

/// Rewriting is idempotent: an embed URL is kept as it is, so rewriting a
/// rewritten URL changes nothing.
pub proof fn lemma_transform_url_idempotent(url: Seq<char>)
    ensures
        transform_url_spec(transform_url_spec(url)) == transform_url_spec(url),
{
    let t = transform_url_spec(url);
    if t != url {
        let i = choose|i: int| #[trigger] is_first_occurrence(url, "/view/"@, i);
        let id = leading_id(url.skip(i + "/view/"@.len()));
        let head = "https://www.shadertoy.com/embed/"@;
        let tail = "?gui=false&t=0&paused=false&muted=true"@;
        let marker = "shadertoy.com/view/"@;
        assert(t == head + id + tail);
        reveal_strlit("https://www.shadertoy.com/embed/");
        reveal_strlit("?gui=false&t=0&paused=false&muted=true");
        reveal_strlit("shadertoy.com/view/");
        lemma_leading_id_no_separator(url.skip(i + "/view/"@.len()));
        assert(head.len() == 32);
        assert forall|k: int| 0 <= k < t.len() && t[k] == '/' implies k == 6 || k == 7 || k == 25
            || k == 31 by {
            if k >= 32 + id.len() {
                assert(t[k] == tail[k - 32 - id.len()]);
            } else if k >= 32 {
                assert(t[k] == id[k - 32]);
            } else {
                assert(t[k] == head[k]);
            }
        }
        assert forall|j: int| !occurs_at(t, marker, j) by {
            if occurs_at(t, marker, j) {
                assert(t.subrange(j, j + marker.len())[13] == marker[13]);
                assert(t.subrange(j, j + marker.len())[18] == marker[18]);
                assert(t[j + 13] == '/');
                assert(t[j + 18] == '/');
            }
        }
        assert(!has_substring(t, marker));
    }
}

/// Rewrites special URLs for a better wallpaper (see [`transform_url_spec`]).
pub fn transform_url(url: &str) -> (r: String)
    ensures
        r@ == transform_url_spec(url@),
{
    let u = chars_of(url);
    let marker = chars_of("shadertoy.com/view/");
    let view = chars_of("/view/");
    if !contains_chars(u.as_slice(), marker.as_slice()) {
        return url.to_owned();
    }
    match find_chars(u.as_slice(), view.as_slice()) {
        None => url.to_owned(),
        Some(i) => {
            proof {
                let c = choose|k: int| #[trigger] is_first_occurrence(u@, "/view/"@, k);
                lemma_first_occurrence_unique(u@, "/view/"@, i as int, c);
            }
            assert(occurs_at(u@, view@, i as int));
            let ulen = u.len();
            assert(i + view@.len() <= ulen);
            let start = i + view.len();
            let mut id: Vec<char> = Vec::new();
            let mut k: usize = start;
            while k < u.len() && u[k] != '?' && u[k] != '#' && u[k] != '/'
                invariant
                    start <= k <= u.len(),
                    leading_id(u@.skip(start as int)) == id@ + leading_id(u@.skip(k as int)),
                decreases u.len() - k,
            {
                assert(u@.skip(k as int).drop_first() =~= u@.skip(k + 1));
                id.push(u[k]);
                assert(id@ + leading_id(u@.skip(k + 1)) =~= (id@.drop_last() + seq![u@[k as int]])
                    + leading_id(u@.skip(k + 1)));
                k = k + 1;
            }
            assert(leading_id(u@.skip(k as int)) =~= Seq::<char>::empty());
            assert(id@ + Seq::<char>::empty() =~= id@);
            if id.len() == 0 {
                return url.to_owned();
            }
            let mut out: Vec<char> = Vec::new();
            append_str(&mut out, "https://www.shadertoy.com/embed/");
            append_chars(&mut out, id.as_slice());
            append_str(&mut out, "?gui=false&t=0&paused=false&muted=true");
            string_of(out.as_slice())
        },
    }
}

// ---------------------------------------------------------------------------
// Local paths
// ---------------------------------------------------------------------------

/// What a resolved local path turned out to be.
#[derive(Debug, Clone, Copy, PartialEq, Eq, Structural)]
pub enum PathKind {
    /// A regular file.
    File,
    /// A directory.
    Directory,
    /// Something else (a socket, a device, ...).
    Other,
}

/// Whether the separator at position `i` of a canonical path ends its root:
/// the leading separator, or on Windows the one after a drive (`C:\`).
pub open spec fn ends_root(path: Seq<char>, i: int, style: PathStyle) -> bool {
    i == 0 || (style == PathStyle::Windows && i == 2 && path[1] == ':')
}

/// The directory of a canonical path (`Path::parent`): everything before
/// its last separator, or the root with its separator for an entry of the
/// root; a path without separator has none.
pub open spec fn canonical_parent(path: Seq<char>, style: PathStyle) -> Option<Seq<char>> {
    match last_separator(path, style) {
        Some(i) => if ends_root(path, i, style) {
            Some(path.take(i + 1))
        } else {
            Some(path.take(i))
        },
        None => None,
    }
}

/// How a local input is served, given what the file system says of it: a
/// missing path is an error; a file is served from its directory under its
/// own name; a directory is served with its `index.html`, which must exist;
/// anything else is an error.
pub open spec fn local_entry_spec(
    input: Seq<char>,
    canonical: Seq<char>,
    kind: PathKind,
    index_html_exists: bool,
    style: PathStyle,
) -> Result<(Seq<char>, Seq<char>), Seq<char>> {
    match kind {
        PathKind::File => match (canonical_parent(canonical, style), file_name(canonical, style)) {
            (Some(dir), Some(name)) => Ok((dir, name)),
            (None, _) => Err("Cannot get parent directory"@),
            (_, None) => Err("Invalid filename"@),
        },
        PathKind::Directory => if index_html_exists {
            Ok((canonical, "index.html"@))
        } else {
            Err("Directory does not contain index.html: "@ + input)
        },
        PathKind::Other => Err("Path is neither file nor directory: "@ + input),
    }
}

/// Decides how a local input is served (see [`local_entry_spec`]); the
/// caller has resolved the input to its canonical path and found what it
/// is.  The result is the directory to serve and the file to open.
pub fn local_entry(
    input: &str,
    canonical: &str,
    kind: PathKind,
    index_html_exists: bool,
    style: PathStyle,
) -> (r: Result<(String, String), String>)
    ensures
        match r {
            Ok((dir, name)) => local_entry_spec(input@, canonical@, kind, index_html_exists, style)
                == Ok::<(Seq<char>, Seq<char>), Seq<char>>((dir@, name@)),
            Err(m) => local_entry_spec(input@, canonical@, kind, index_html_exists, style) == Err::<
                (Seq<char>, Seq<char>),
                Seq<char>,
            >(m@),
        },
{
    match kind {
        PathKind::File => {
            let c = chars_of(canonical);
            assert(c@.take(c.len() as int) =~= c@);
            let parent: Option<Vec<char>> = match last_separator_before(c.as_slice(), c.len(), style) {
                Some(i) => {
                    let root = i == 0 || (style == PathStyle::Windows && i == 2 && c[1] == ':');
                    let end = if root {
                        i + 1
                    } else {
                        i
                    };
                    let mut p: Vec<char> = Vec::new();
                    let mut k: usize = 0;
                    while k < end
                        invariant
                            k <= end <= c.len(),
                            p@ == c@.take(k as int),
                        decreases end - k,
                    {
                        p.push(c[k]);
                        assert(c@.take(k + 1) =~= c@.take(k as int).push(c@[k as int]));
                        k = k + 1;
                    }
                    Some(p)
                },
                None => None,
            };
            let name = crate::server::file_name_of(c.as_slice(), style);
            match (parent, name) {
                (Some(p), Some(n)) => Ok((string_of(p.as_slice()), string_of(n.as_slice()))),
                (None, _) => Err("Cannot get parent directory".to_owned()),
                (_, None) => Err("Invalid filename".to_owned()),
            }
        },
        PathKind::Directory => {
            if index_html_exists {
                Ok((canonical.to_owned(), "index.html".to_owned()))
            } else {
                let mut v: Vec<char> = Vec::new();
                append_str(&mut v, "Directory does not contain index.html: ");
                append_str(&mut v, input);
                Err(string_of(v.as_slice()))
            }
        },
        PathKind::Other => {
            let mut v: Vec<char> = Vec::new();
            append_str(&mut v, "Path is neither file nor directory: ");
            append_str(&mut v, input);
            Err(string_of(v.as_slice()))
        },
    }
}

/// The message for a local input that does not exist.
pub fn file_not_found_message(input: &str) -> (s: String)
    ensures
        s@ == "File not found: "@ + input@,
{
    let mut v: Vec<char> = Vec::new();
    append_str(&mut v, "File not found: ");
    append_str(&mut v, input);
    string_of(v.as_slice())
}

// ---------------------------------------------------------------------------
// Start
// ---------------------------------------------------------------------------

/// The exit code when no display could be chosen.
pub fn target_error_exit_code(e: &TargetError) -> (code: i32)
    ensures
        code == (match e {
            TargetError::DisplayNotFound { .. } => DISPLAY_NOT_FOUND,
            TargetError::NoDisplays => GENERAL_ERROR,
        }),
{
    match e {
        TargetError::DisplayNotFound { .. } => DISPLAY_NOT_FOUND,
        TargetError::NoDisplays => GENERAL_ERROR,
    }
}

/// The status line printed when wallpapers start: one display is named;
/// several are counted and listed.
pub open spec fn start_message_text(targets: Seq<Display>, input: Seq<char>) -> Seq<char> {
    if targets.len() == 1 {
        "Started wallpaper on display "@ + decimal(targets[0].index as nat) + ": "@ + input
    } else {
        "Started wallpaper on "@ + decimal(targets.len()) + " display(s) ["@
            + crate::display::index_list_text(crate::display::indices_of(targets)) + "]: "@ + input
    }
}

/// Writes the status line printed when wallpapers start.
pub fn start_message(targets: &[Display], input: &str) -> (s: String)
    ensures
        s@ == start_message_text(targets@, input@),
{
    let mut v: Vec<char> = Vec::new();
    if targets.len() == 1 {
        append_str(&mut v, "Started wallpaper on display ");
        push_decimal(&mut v, targets[0].index as u64);
        append_str(&mut v, ": ");
        append_str(&mut v, input);
    } else {
        append_str(&mut v, "Started wallpaper on ");
        push_decimal(&mut v, targets.len() as u64);
        append_str(&mut v, " display(s) [");
        let mut ix: Vec<u32> = Vec::new();
        let mut i: usize = 0;
        while i < targets.len()
            invariant
                i <= targets.len(),
                ix@ =~= crate::display::indices_of(targets@.take(i as int)),
            decreases targets.len() - i,
        {
            ix.push(targets[i].index);
            assert(targets@.take(i + 1) =~= targets@.take(i as int).push(targets@[i as int]));
            i = i + 1;
        }
        assert(targets@.take(targets.len() as int) =~= targets@);
        let list = crate::display::index_list(ix.as_slice());
        append_str(&mut v, list.as_str());
        append_str(&mut v, "]: ");
        append_str(&mut v, input);
    }
    string_of(v.as_slice())
}

/// Why starting a wallpaper failed, by the step that failed.
#[derive(Debug, Clone, PartialEq, Eq)]
pub enum StartError {
    /// An option is out of range; the check's message.
    InvalidOption(String),
    /// The displays could not be enumerated.
    DisplayEnumeration(PlatformError),
    /// The web view runtime is not available.
    RuntimeUnavailable(PlatformError),
    /// No display could be chosen.
    Target(TargetError),
    /// The instance directory could not be created; the system's message.
    InstanceDirectory(String),
    /// The input could not be prepared (a missing file, a shader without
    /// `mainImage`, ...); the message.
    Input(String),
    /// The port of the local server is taken.
    PortInUse(u16),
    /// The local server did not start; the system's message.
    ServerStart(String),
    /// The wallpaper windows could not be created.
    Wallpaper(WallpaperError),
}

/// The exit code of a failed start.
pub open spec fn start_error_code(e: StartError) -> i32 {
    match e {
        StartError::RuntimeUnavailable(_) => WEBVIEW_NOT_AVAILABLE,
        StartError::Target(t) => match t {
            TargetError::DisplayNotFound { .. } => DISPLAY_NOT_FOUND,
            TargetError::NoDisplays => GENERAL_ERROR,
        },
        StartError::PortInUse(_) => SERVER_STARTUP_FAILED,
        StartError::ServerStart(_) => SERVER_STARTUP_FAILED,
        _ => GENERAL_ERROR,
    }
}

/// What a failed start prints on the error stream.
pub open spec fn start_error_text(e: StartError) -> Seq<char> {
    match e {
        StartError::InvalidOption(m) => "error: "@ + m@,
        StartError::DisplayEnumeration(p) => "error: Failed to enumerate displays: "@
            + platform_error_text(p),
        StartError::RuntimeUnavailable(p) => "error: "@ + platform_error_text(p),
        StartError::Target(t) => "error: "@ + target_error_text(t@),
        StartError::InstanceDirectory(m) => "error: Failed to create instance directory: "@ + m@,
        StartError::Input(m) => "error: "@ + m@,
        StartError::PortInUse(port) => "error: Port "@ + decimal(port as nat)
            + " is already in use\nhint: Use --port to specify a different port"@,
        StartError::ServerStart(m) => "error: Failed to start HTTP server: "@ + m@,
        StartError::Wallpaper(w) => "error: Wallpaper creation failed: "@ + wallpaper_error_text(w),
    }
}

impl StartError {
    /// The exit code of the failed start: 4 without a web view runtime, 2
    /// for a display that does not exist, 5 when the local server cannot
    /// start, 1 otherwise.
    pub fn exit_code(&self) -> (code: i32)
        ensures
            code == start_error_code(*self),
    {
        match self {
            StartError::RuntimeUnavailable(_) => WEBVIEW_NOT_AVAILABLE,
            StartError::Target(t) => target_error_exit_code(t),
            StartError::PortInUse(_) => SERVER_STARTUP_FAILED,
            StartError::ServerStart(_) => SERVER_STARTUP_FAILED,
            _ => GENERAL_ERROR,
        }
    }

    /// What the failed start prints on the error stream.
    pub fn message(&self) -> (s: String)
        ensures
            s@ == start_error_text(*self),
    {
        let mut v: Vec<char> = Vec::new();
        match self {
            StartError::InvalidOption(m) => {
                append_str(&mut v, "error: ");
                append_str(&mut v, m.as_str());
            },
            StartError::DisplayEnumeration(p) => {
                append_str(&mut v, "error: Failed to enumerate displays: ");
                let t = p.message();
                append_str(&mut v, t.as_str());
            },
            StartError::RuntimeUnavailable(p) => {
                append_str(&mut v, "error: ");
                let t = p.message();
                append_str(&mut v, t.as_str());
            },
            StartError::Target(t) => {
                append_str(&mut v, "error: ");
                let m = t.message();
                append_str(&mut v, m.as_str());
            },
            StartError::InstanceDirectory(m) => {
                append_str(&mut v, "error: Failed to create instance directory: ");
                append_str(&mut v, m.as_str());
            },
            StartError::Input(m) => {
                append_str(&mut v, "error: ");
                append_str(&mut v, m.as_str());
            },
            StartError::PortInUse(port) => {
                append_str(&mut v, "error: Port ");
                push_decimal(&mut v, *port as u64);
                append_str(&mut v, " is already in use\nhint: Use --port to specify a different port");
            },
            StartError::ServerStart(m) => {
                append_str(&mut v, "error: Failed to start HTTP server: ");
                append_str(&mut v, m.as_str());
            },
            StartError::Wallpaper(w) => {
                append_str(&mut v, "error: Wallpaper creation failed: ");
                let t = w.message();
                append_str(&mut v, t.as_str());
            },
        }
        string_of(v.as_slice())
    }
}

/// The displays whose running wallpaper is replaced: among the first `n`
/// targets, those on which an instance is running, in order.
pub open spec fn replaced_displays(targets: Seq<Display>, running: Seq<bool>, n: nat) -> Seq<u32>
    decreases n,
{
    if n == 0 {
        Seq::empty()
    } else {
        let rest = replaced_displays(targets, running, (n - 1) as nat);
        if running[n - 1] {
            rest.push(targets[n - 1].index)
        } else {
            rest
        }
    }
}

/// The displays whose running wallpaper is stopped before a new one
/// starts: the targets on which an instance is running (`running[i]` tells
/// it of `targets[i]`), in order.
pub fn displays_to_replace(targets: &[Display], running: &[bool]) -> (r: Vec<u32>)
    requires
        running.len() == targets.len(),
    ensures
        r@ == replaced_displays(targets@, running@, targets@.len()),
{
    let mut r: Vec<u32> = Vec::new();
    let mut i: usize = 0;
    while i < targets.len()
        invariant
            i <= targets.len(),
            running.len() == targets.len(),
            r@ == replaced_displays(targets@, running@, i as nat),
        decreases targets.len() - i,
    {
        if running[i] {
            r.push(targets[i].index);
        }
        i = i + 1;
    }
    r
}

// ---------------------------------------------------------------------------
// Stop and stop-all
// ---------------------------------------------------------------------------

/// The end of a command: its exit code, whether the instance file is to
/// be removed, and the line to print (on the error stream when `is_error`).
pub struct Outcome {
    pub exit_code: i32,
    pub remove_instance_file: bool,
    pub line: String,
    pub is_error: bool,
}

/// Stopping a display on which no instance file exists: nothing is sent,
/// and the command fails with "no running instance".
pub fn stop_without_instance(display_index: u32) -> (o: Outcome)
    ensures
        o.exit_code == NO_RUNNING_INSTANCE,
        !o.remove_instance_file,
        o.is_error,
        o.line@ == "error: No wallpaper running on display "@ + decimal(display_index as nat),
{
    let mut v: Vec<char> = Vec::new();
    append_str(&mut v, "error: No wallpaper running on display ");
    push_decimal(&mut v, display_index as u64);
    Outcome { exit_code: NO_RUNNING_INSTANCE, remove_instance_file: false, line: string_of(v.as_slice()), is_error: true }
}

/// Stopping a display after the running instance was asked: the instance
/// file is removed either way (an instance that cannot be reached has
/// exited); an answer means success, a failure to get one is an error.
pub fn stop_after_reply(display_index: u32, reply: &Result<IpcResponse, IpcError>) -> (o: Outcome)
    ensures
        o.remove_instance_file,
        reply is Ok ==> o.exit_code == SUCCESS && !o.is_error && o.line@ == "Stopped wallpaper on display "@
            + decimal(display_index as nat),
        reply is Err ==> o.exit_code == GENERAL_ERROR && o.is_error && o.line@
            == "error: Failed to stop wallpaper on display "@ + decimal(display_index as nat)
            + " (process may have already exited)"@,
{
    let mut v: Vec<char> = Vec::new();
    match reply {
        Ok(_) => {
            append_str(&mut v, "Stopped wallpaper on display ");
            push_decimal(&mut v, display_index as u64);
            Outcome { exit_code: SUCCESS, remove_instance_file: true, line: string_of(v.as_slice()), is_error: false }
        },
        Err(_) => {
            append_str(&mut v, "error: Failed to stop wallpaper on display ");
            push_decimal(&mut v, display_index as u64);
            append_str(&mut v, " (process may have already exited)");
            Outcome { exit_code: GENERAL_ERROR, remove_instance_file: true, line: string_of(v.as_slice()), is_error: true }
        },
    }
}

/// Stopping all wallpapers, given how many instance files were found: with
/// none, nothing is sent and the command succeeds; otherwise every file is
/// removed whatever the running instance answered, and the files are
/// counted.
pub fn stop_all_outcome(instance_count: usize) -> (o: Outcome)
    ensures
        o.exit_code == SUCCESS,
        !o.is_error,
        o.remove_instance_file == (instance_count > 0),
        instance_count == 0 ==> o.line@ == "No wallpaper instances running"@,
        instance_count > 0 ==> o.line@ == "Stopped "@ + decimal(instance_count as nat)
            + " wallpaper instance(s)"@,
{
    if instance_count == 0 {
        return Outcome {
            exit_code: SUCCESS,
            remove_instance_file: false,
            line: "No wallpaper instances running".to_owned(),
            is_error: false,
        };
    }
    let mut v: Vec<char> = Vec::new();
    append_str(&mut v, "Stopped ");
    push_decimal(&mut v, instance_count as u64);
    append_str(&mut v, " wallpaper instance(s)");
    Outcome { exit_code: SUCCESS, remove_instance_file: true, line: string_of(v.as_slice()), is_error: false }
}

} // verus!
