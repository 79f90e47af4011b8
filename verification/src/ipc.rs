//! The control protocol between the command line and running wallpaper
//! instances.
//!
//! A request is one line of text: `PING`, `STOP:ALL` or `STOP:<display>`.
//! The answer is one line: `OK`, `OK:<count>`, `PONG` or `ERR:<message>`.
//! The byte transport (a Unix socket or a named pipe) is supplied by the
//! caller; this module builds, reads and answers the lines.

use vstd::prelude::*;
use crate::text::{
    append_str, chars_of, decimal, is_digit, is_whitespace, lemma_decimal_facts,
    lemma_digits_not_whitespace, lemma_parse_u32_decimal, trim_start, parse_u32, parse_u32_chars, push_char, push_decimal,
    starts_with, starts_with_chars, string_of, trim, trim_chars,
};

verus! {

/// A command sent from a client to a running instance.
#[derive(Debug, Clone, Copy, PartialEq, Eq, Structural)]
pub enum IpcCommand {
    /// Stop the wallpaper on one display.
    Stop(u32),
    /// Stop all wallpapers.
    StopAll,
    /// Health check.
    Ping,
}

/// The answer a running instance sends back.
#[derive(Debug, Clone, PartialEq, Eq)]
pub enum IpcResponse {
    /// The command succeeded.
    Okay,
    /// The command succeeded; the count of stopped wallpapers.
    OkCount(u32),
    /// Answer to a health check.
    Pong,
    /// The command failed, with a message.
    Error(String),
}

/// The mathematical value of an [`IpcResponse`].
pub enum ResponseView {
    Okay,
    OkCount(u32),
    Pong,
    Error(Seq<char>),
}

impl View for IpcResponse {
    type V = ResponseView;

    open spec fn view(&self) -> ResponseView {
        match self {
            IpcResponse::Okay => ResponseView::Okay,
            IpcResponse::OkCount(n) => ResponseView::OkCount(*n),
            IpcResponse::Pong => ResponseView::Pong,
            IpcResponse::Error(m) => ResponseView::Error(m@),
        }
    }
}

/// Why a client could not obtain an answer.
#[derive(Debug, Clone, PartialEq, Eq)]
pub enum IpcError {
    /// The transport failed (no instance listening, broken connection, ...).
    Connection(String),
    /// The instance answered with a line that is not a response.
    InvalidResponse,
}

// ---------------------------------------------------------------------------
// Specifications
// ---------------------------------------------------------------------------

/// The text of a command on the wire (without the line end).
pub open spec fn command_text(c: IpcCommand) -> Seq<char> {
    match c {
        IpcCommand::Stop(n) => "STOP:"@ + decimal(n as nat),
        IpcCommand::StopAll => "STOP:ALL"@,
        IpcCommand::Ping => "PING"@,
    }
}

/// How a received line is read as a command: surrounding whitespace is
/// ignored; `PING`, `STOP:ALL` and `STOP:` followed by a `u32` are commands.
pub open spec fn parse_command(s: Seq<char>) -> Option<IpcCommand> {
    let t = trim(s);
    if t == "PING"@ {
        Some(IpcCommand::Ping)
    } else if t == "STOP:ALL"@ {
        Some(IpcCommand::StopAll)
    } else if starts_with(t, "STOP:"@) {
        match parse_u32(t.skip("STOP:"@.len() as int)) {
            Some(n) => Some(IpcCommand::Stop(n)),
            None => None,
        }
    } else {
        None
    }
}

/// The text of a response on the wire (without the line end).
pub open spec fn response_text(r: ResponseView) -> Seq<char> {
    match r {
        ResponseView::Okay => "OK"@,
        ResponseView::OkCount(n) => "OK:"@ + decimal(n as nat),
        ResponseView::Pong => "PONG"@,
        ResponseView::Error(m) => "ERR:"@ + m,
    }
}

/// How a received line is read as a response: surrounding whitespace is
/// ignored; `OK`, `PONG`, `OK:` followed by a `u32`, and `ERR:` followed by
/// any message are responses.
pub open spec fn parse_response(s: Seq<char>) -> Option<ResponseView> {
    let t = trim(s);
    if t == "OK"@ {
        Some(ResponseView::Okay)
    } else if t == "PONG"@ {
        Some(ResponseView::Pong)
    } else if starts_with(t, "OK:"@) {
        match parse_u32(t.skip("OK:"@.len() as int)) {
            Some(n) => Some(ResponseView::OkCount(n)),
            None => None,
        }
    } else if starts_with(t, "ERR:"@) {
        Some(ResponseView::Error(t.skip("ERR:"@.len() as int)))
    } else {
        None
    }
}

/// The answer a running instance gives to a command it carried out, which
/// stopped `stopped` wallpapers: `PONG` to a health check, `OK` to a stop
/// for one display, `OK:<stopped>` to a stop for all.
pub open spec fn response_for(c: IpcCommand, stopped: u32) -> ResponseView {
    match c {
        IpcCommand::Ping => ResponseView::Pong,
        IpcCommand::Stop(_) => ResponseView::Okay,
        IpcCommand::StopAll => ResponseView::OkCount(stopped),
    }
}

/// A whole request line as written by a client.
pub open spec fn request_line_text(c: IpcCommand) -> Seq<char> {
    command_text(c).push('\n')
}

/// A whole response line as written by an instance.
pub open spec fn response_line_text(r: ResponseView) -> Seq<char> {
    response_text(r).push('\n')
}

/// What a client makes of the transport's result: a transport failure, an
/// answer, or an unreadable answer.
pub open spec fn reply_outcome(reply: Result<String, String>) -> Result<ResponseView, IpcErrorView> {
    match reply {
        Err(e) => Err(IpcErrorView::Connection(e@)),
        Ok(line) => match parse_response(line@) {
            Some(r) => Ok(r),
            None => Err(IpcErrorView::InvalidResponse),
        },
    }
}

/// The mathematical value of an [`IpcError`].
pub enum IpcErrorView {
    Connection(Seq<char>),
    InvalidResponse,
}

impl View for IpcError {
    type V = IpcErrorView;

    open spec fn view(&self) -> IpcErrorView {
        match self {
            IpcError::Connection(m) => IpcErrorView::Connection(m@),
            IpcError::InvalidResponse => IpcErrorView::InvalidResponse,
        }
    }
}

/// The value of a client's result.
pub open spec fn outcome_view(r: Result<IpcResponse, IpcError>) -> Result<ResponseView, IpcErrorView> {
    match r {
        Ok(x) => Ok(x@),
        Err(e) => Err(e@),
    }
}

/// `transport`, handed the request line of `command`, may have produced a
/// reply whose reading is `outcome`.
pub open spec fn exchange_gives<F: FnOnce(String) -> Result<String, String>>(
    transport: F,
    command: IpcCommand,
    outcome: Result<ResponseView, IpcErrorView>,
) -> bool {
    exists|request: String, reply: Result<String, String>|
        #![trigger call_ensures(transport, (request,), reply)]
        request@ == request_line_text(command) && call_ensures(transport, (request,), reply)
            && reply_outcome(reply) == outcome
}

// ---------------------------------------------------------------------------
// Laws
// ---------------------------------------------------------------------------

proof fn reveal_protocol_words()
    ensures
        "PING"@ == seq!['P', 'I', 'N', 'G'],
        "STOP:ALL"@ == seq!['S', 'T', 'O', 'P', ':', 'A', 'L', 'L'],
        "STOP:"@ == seq!['S', 'T', 'O', 'P', ':'],
        "OK"@ == seq!['O', 'K'],
        "OK:"@ == seq!['O', 'K', ':'],
        "PONG"@ == seq!['P', 'O', 'N', 'G'],
        "ERR:"@ == seq!['E', 'R', 'R', ':'],
{
    reveal_strlit("PING");
    reveal_strlit("STOP:ALL");
    reveal_strlit("STOP:");
    reveal_strlit("OK");
    reveal_strlit("OK:");
    reveal_strlit("PONG");
    reveal_strlit("ERR:");
    assert("PING"@ =~= seq!['P', 'I', 'N', 'G']);
    assert("STOP:ALL"@ =~= seq!['S', 'T', 'O', 'P', ':', 'A', 'L', 'L']);
    assert("STOP:"@ =~= seq!['S', 'T', 'O', 'P', ':']);
    assert("OK"@ =~= seq!['O', 'K']);
    assert("OK:"@ =~= seq!['O', 'K', ':']);
    assert("PONG"@ =~= seq!['P', 'O', 'N', 'G']);
    assert("ERR:"@ =~= seq!['E', 'R', 'R', ':']);
}

/// Trimming a text followed by a line end gives the text back when the
/// text starts and ends with a character that is not whitespace.
proof fn lemma_trim_line(t: Seq<char>)
    requires
        t.len() > 0,
        !is_whitespace(t[0]),
        !is_whitespace(t.last()),
    ensures
        trim(t) == t,
        trim(t.push('\n')) == t,
{
    let l = t.push('\n');
    assert(l.drop_last() =~= t);
    assert(trim_start(l) == l);
    assert(trim_start(t) == t);
}

proof fn lemma_command_text_shape(c: IpcCommand)
    ensures
        command_text(c).len() > 0,
        !is_whitespace(command_text(c)[0]),
        !is_whitespace(command_text(c).last()),
{
    reveal_protocol_words();
    if let IpcCommand::Stop(n) = c {
        lemma_decimal_facts(n as nat);
        lemma_digits_not_whitespace(decimal(n as nat));
        assert(command_text(c).last() == decimal(n as nat).last());
    }
}

/// Reading the text of a command gives the command back.
pub proof fn lemma_command_roundtrip(c: IpcCommand)
    ensures
        parse_command(command_text(c)) == Some(c),
        parse_command(request_line_text(c)) == Some(c),
{
    reveal_protocol_words();
    lemma_command_text_shape(c);
    let t = command_text(c);
    lemma_trim_line(t);
    match c {
        IpcCommand::Stop(n) => {
            let d = decimal(n as nat);
            lemma_decimal_facts(n as nat);
            lemma_parse_u32_decimal(n);
            assert(t.take(5) =~= "STOP:"@);
            assert(t.skip(5) =~= d);
            assert(is_digit(d[0]));
            assert(t[5] == d[0]);
            assert(t != "PING"@);
            assert(t != "STOP:ALL"@) by {
                if t == "STOP:ALL"@ {
                    assert(t[5] == 'A');
                }
            }
        },
        IpcCommand::StopAll => {
            assert(t != "PING"@);
        },
        IpcCommand::Ping => {},
    }
}

/// Reading the text of a response gives the response back, unless it is an
/// error whose message ends in whitespace (which the reader trims away).
pub proof fn lemma_response_roundtrip(r: ResponseView)
    requires
        r matches ResponseView::Error(m) ==> (m.len() == 0 || !is_whitespace(m.last())),
    ensures
        parse_response(response_text(r)) == Some(r),
        parse_response(response_line_text(r)) == Some(r),
{
    reveal_protocol_words();
    let t = response_text(r);
    match r {
        ResponseView::Okay => {
            lemma_trim_line(t);
        },
        ResponseView::Pong => {
            lemma_trim_line(t);
        },
        ResponseView::OkCount(n) => {
            let d = decimal(n as nat);
            lemma_decimal_facts(n as nat);
            lemma_digits_not_whitespace(d);
            lemma_parse_u32_decimal(n);
            assert(t.last() == d.last());
            lemma_trim_line(t);
            assert(t.take(3) =~= "OK:"@);
            assert(t.skip(3) =~= d);
            assert(t != "OK"@);
            assert(t != "PONG"@) by {
                if t == "PONG"@ {
                    assert(t[0] == 'P');
                }
            }
        },
        ResponseView::Error(m) => {
            if m.len() > 0 {
                assert(t.last() == m.last());
            }
            lemma_trim_line(t);
            assert(t.take(4) =~= "ERR:"@);
            assert(t.skip(4) =~= m);
            assert(t != "OK"@) by {
                if t == "OK"@ {
                    assert(t[0] == 'O');
                }
            }
            assert(t != "PONG"@) by {
                if t == "PONG"@ {
                    assert(t[0] == 'P');
                }
            }
            assert(!starts_with(t, "OK:"@)) by {
                if starts_with(t, "OK:"@) {
                    assert(t.take(3)[0] == 'O');
                }
            }
        },
    }
}

/// What a request is answered: when an instance receives the request line
/// of a command, it accepts that command, and the line it answers reads, at
/// the client, as the answer that belongs to the command and to the number
/// of wallpapers it stopped.
pub proof fn lemma_request_answered(c: IpcCommand, stopped: u32)
    ensures
        parse_command(request_line_text(c)) == Some(c),
        parse_response(response_line_text(response_for(c, stopped))) == Some(
            response_for(c, stopped),
        ),
{
    lemma_command_roundtrip(c);
    lemma_response_roundtrip(response_for(c, stopped));
}

// ---------------------------------------------------------------------------
// Executable code
// ---------------------------------------------------------------------------

impl IpcCommand {
    /// Reads a command from a received line.
    pub fn parse(s: &str) -> (r: Option<IpcCommand>)
        ensures
            r == parse_command(s@),
    {
        let raw = chars_of(s);
        let t = trim_chars(raw.as_slice());
        let ping = chars_of("PING");
        let stop_all = chars_of("STOP:ALL");
        let stop = chars_of("STOP:");
        if t.len() == ping.len() && starts_with_chars(t.as_slice(), ping.as_slice()) {
            assert(t@ =~= ping@);
            Some(IpcCommand::Ping)
        } else if t.len() == stop_all.len() && starts_with_chars(t.as_slice(), stop_all.as_slice()) {
            assert(t@ =~= stop_all@);
            assert(t@ != "PING"@);
            Some(IpcCommand::StopAll)
        } else if starts_with_chars(t.as_slice(), stop.as_slice()) {
            proof {
                if t@ == "PING"@ {
                    assert(t@.take(ping@.len() as int) =~= t@);
                }
                if t@ == "STOP:ALL"@ {
                    assert(t@.take(stop_all@.len() as int) =~= t@);
                }
            }
            let rest = tail_from(t.as_slice(), stop.len());
            match parse_u32_chars(rest.as_slice()) {
                Some(n) => Some(IpcCommand::Stop(n)),
                None => None,
            }
        } else {
            proof {
                if t@ == "PING"@ {
                    assert(t@.take(ping@.len() as int) =~= t@);
                }
                if t@ == "STOP:ALL"@ {
                    assert(t@.take(stop_all@.len() as int) =~= t@);
                }
            }
            None
        }
    }

    /// The command's text on the wire (without the line end).
    pub fn to_string(&self) -> (s: String)
        ensures
            s@ == command_text(*self),
    {
        let mut v: Vec<char> = Vec::new();
        match self {
            IpcCommand::Stop(n) => {
                append_str(&mut v, "STOP:");
                push_decimal(&mut v, *n as u64);
            },
            IpcCommand::StopAll => {
                append_str(&mut v, "STOP:ALL");
            },
            IpcCommand::Ping => {
                append_str(&mut v, "PING");
            },
        }
        assert(v@ =~= command_text(*self));
        string_of(v.as_slice())
    }

    /// The request line a client writes for this command.
    pub fn to_line(&self) -> (s: String)
        ensures
            s@ == request_line_text(*self),
    {
        let mut s = self.to_string();
        push_char(&mut s, '\n');
        s
    }
}

impl IpcResponse {
    /// Reads a response from a received line.
    pub fn parse(s: &str) -> (r: Option<IpcResponse>)
        ensures
            match r {
                Some(x) => parse_response(s@) == Some(x@),
                None => parse_response(s@) is None,
            },
    {
        let raw = chars_of(s);
        let t = trim_chars(raw.as_slice());
        let ok = chars_of("OK");
        let pong = chars_of("PONG");
        let ok_colon = chars_of("OK:");
        let err_colon = chars_of("ERR:");
        let is_ok = t.len() == ok.len() && starts_with_chars(t.as_slice(), ok.as_slice());
        proof {
            if t@ == "OK"@ {
                assert(t@.take(ok@.len() as int) =~= t@);
            }
            if is_ok {
                assert(t@ =~= ok@);
            }
        }
        if is_ok {
            return Some(IpcResponse::Okay);
        }
        let is_pong = t.len() == pong.len() && starts_with_chars(t.as_slice(), pong.as_slice());
        proof {
            if t@ == "PONG"@ {
                assert(t@.take(pong@.len() as int) =~= t@);
            }
            if is_pong {
                assert(t@ =~= pong@);
            }
        }
        if is_pong {
            return Some(IpcResponse::Pong);
        }
        if starts_with_chars(t.as_slice(), ok_colon.as_slice()) {
            let rest = tail_from(t.as_slice(), ok_colon.len());
            return match parse_u32_chars(rest.as_slice()) {
                Some(n) => Some(IpcResponse::OkCount(n)),
                None => None,
            };
        }
        if starts_with_chars(t.as_slice(), err_colon.as_slice()) {
            let rest = tail_from(t.as_slice(), err_colon.len());
            let msg = string_of(rest.as_slice());
            return Some(IpcResponse::Error(msg));
        }
        None
    }

    /// The response's text on the wire (without the line end).
    pub fn to_string(&self) -> (s: String)
        ensures
            s@ == response_text(self@),
    {
        let mut v: Vec<char> = Vec::new();
        match self {
            IpcResponse::Okay => {
                append_str(&mut v, "OK");
            },
            IpcResponse::OkCount(n) => {
                append_str(&mut v, "OK:");
                push_decimal(&mut v, *n as u64);
            },
            IpcResponse::Pong => {
                append_str(&mut v, "PONG");
            },
            IpcResponse::Error(m) => {
                append_str(&mut v, "ERR:");
                append_str(&mut v, m.as_str());
            },
        }
        assert(v@ =~= response_text(self@));
        string_of(v.as_slice())
    }

    /// The response line an instance writes.
    pub fn to_line(&self) -> (s: String)
        ensures
            s@ == response_line_text(self@),
    {
        let mut s = self.to_string();
        push_char(&mut s, '\n');
        s
    }

    /// The answer an instance gives to a command it carried out, which
    /// stopped `stopped` wallpapers.
    pub fn for_command(c: IpcCommand, stopped: u32) -> (r: IpcResponse)
        ensures
            r@ == response_for(c, stopped),
    {
        match c {
            IpcCommand::Ping => IpcResponse::Pong,
            IpcCommand::Stop(_) => IpcResponse::Okay,
            IpcCommand::StopAll => IpcResponse::OkCount(stopped),
        }
    }
}

/// The characters of `s` from position `k` on.
fn tail_from(s: &[char], k: usize) -> (r: Vec<char>)
    requires
        k <= s.len(),
    ensures
        r@ == s@.skip(k as int),
{
    let mut r: Vec<char> = Vec::new();
    let mut i: usize = k;
    while i < s.len()
        invariant
            k <= i <= s.len(),
            r@ == s@.subrange(k as int, i as int),
        decreases s.len() - i,
    {
        r.push(s[i]);
        assert(s@.subrange(k as int, i + 1) =~= s@.subrange(k as int, i as int).push(s@[i as int]));
        i = i + 1;
    }
    assert(s@.subrange(k as int, s.len() as int) =~= s@.skip(k as int));
    r
}

/// A client of the control protocol.  The transport writes one request line
/// to a running instance and returns the line it answers, or a description
/// of why that failed.
pub struct IpcClient;

impl IpcClient {
    /// Sends `command` through `transport` and reads the answer.  The
    /// transport is taken as `FnOnce`, so it is called exactly once, with the
    /// request line of the command.
    pub fn send_command<F: FnOnce(String) -> Result<String, String>>(
        command: &IpcCommand,
        transport: F,
    ) -> (r: Result<IpcResponse, IpcError>)
        requires
            forall|line: String| call_requires(transport, (line,)),
        ensures
            exchange_gives(transport, *command, outcome_view(r)),
    {
        let request = command.to_line();
        let ghost request_view = request@;
        let reply = transport(request);
        let ghost reply_copy = reply;
        let r = match reply {
            Err(e) => Err(IpcError::Connection(e)),
            Ok(line) => match IpcResponse::parse(line.as_str()) {
                Some(x) => Ok(x),
                None => Err(IpcError::InvalidResponse),
            },
        };
        proof {
            let req = choose|req: String| req@ == request_view && call_ensures(transport, (req,), reply_copy);
            assert(exchange_gives(transport, *command, outcome_view(r)));
        }
        r
    }

    /// Whether a running instance answers a health check with `PONG`.
    pub fn ping<F: FnOnce(String) -> Result<String, String>>(transport: F) -> (alive: bool)
        requires
            forall|line: String| call_requires(transport, (line,)),
        ensures
            exists|o: Result<ResponseView, IpcErrorView>|
                exchange_gives(transport, IpcCommand::Ping, o) && alive == (o == Ok::<ResponseView, IpcErrorView>(ResponseView::Pong)),
    {
        let r = Self::send_command(&IpcCommand::Ping, transport);
        let alive = match r {
            Ok(IpcResponse::Pong) => true,
            _ => false,
        };
        assert(exchange_gives(transport, IpcCommand::Ping, outcome_view(r)));
        alive
    }

    /// Asks the running instance to stop the wallpaper on one display.
    pub fn stop_display<F: FnOnce(String) -> Result<String, String>>(
        display_index: u32,
        transport: F,
    ) -> (r: Result<IpcResponse, IpcError>)
        requires
            forall|line: String| call_requires(transport, (line,)),
        ensures
            exchange_gives(transport, IpcCommand::Stop(display_index), outcome_view(r)),
    {
        Self::send_command(&IpcCommand::Stop(display_index), transport)
    }

    /// Asks the running instance to stop all wallpapers.
    pub fn stop_all<F: FnOnce(String) -> Result<String, String>>(transport: F) -> (r: Result<
        IpcResponse,
        IpcError,
    >)
        requires
            forall|line: String| call_requires(transport, (line,)),
        ensures
            exchange_gives(transport, IpcCommand::StopAll, outcome_view(r)),
    {
        Self::send_command(&IpcCommand::StopAll, transport)
    }
}

} // verus!
