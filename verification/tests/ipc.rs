use webwallpaper::ipc::{IpcClient, IpcCommand, IpcError, IpcResponse};
use webwallpaper::platform::apply_ipc_command;

#[test]
fn test_command_parse() {
    assert_eq!(IpcCommand::parse("PING"), Some(IpcCommand::Ping));
    assert_eq!(IpcCommand::parse("STOP:0"), Some(IpcCommand::Stop(0)));
    assert_eq!(IpcCommand::parse("STOP:1"), Some(IpcCommand::Stop(1)));
    assert_eq!(IpcCommand::parse("STOP:ALL"), Some(IpcCommand::StopAll));
    assert_eq!(IpcCommand::parse("INVALID"), None);
}

#[test]
fn test_command_to_string() {
    assert_eq!(IpcCommand::Ping.to_string(), "PING");
    assert_eq!(IpcCommand::Stop(0).to_string(), "STOP:0");
    assert_eq!(IpcCommand::StopAll.to_string(), "STOP:ALL");
}

#[test]
fn test_response_parse() {
    assert_eq!(IpcResponse::parse("OK"), Some(IpcResponse::Okay));
    assert_eq!(IpcResponse::parse("OK:3"), Some(IpcResponse::OkCount(3)));
    assert_eq!(IpcResponse::parse("PONG"), Some(IpcResponse::Pong));
    assert_eq!(
        IpcResponse::parse("ERR:test error"),
        Some(IpcResponse::Error("test error".to_string()))
    );
}

#[test]
fn test_response_to_string() {
    assert_eq!(IpcResponse::Okay.to_string(), "OK");
    assert_eq!(IpcResponse::OkCount(5).to_string(), "OK:5");
    assert_eq!(IpcResponse::Pong.to_string(), "PONG");
    assert_eq!(
        IpcResponse::Error("failed".to_string()).to_string(),
        "ERR:failed"
    );
}

#[test]
fn command_parse_trims_and_checks_numbers() {
    assert_eq!(IpcCommand::parse("  STOP:7\n"), Some(IpcCommand::Stop(7)));
    assert_eq!(IpcCommand::parse("STOP:+4"), Some(IpcCommand::Stop(4)));
    assert_eq!(IpcCommand::parse("STOP:007"), Some(IpcCommand::Stop(7)));
    assert_eq!(IpcCommand::parse("STOP:4294967295"), Some(IpcCommand::Stop(u32::MAX)));
    assert_eq!(IpcCommand::parse("STOP:4294967296"), None);
    assert_eq!(IpcCommand::parse("STOP:"), None);
    assert_eq!(IpcCommand::parse("STOP:+"), None);
    assert_eq!(IpcCommand::parse("STOP:-1"), None);
    assert_eq!(IpcCommand::parse("STOP: 1"), None);
    assert_eq!(IpcCommand::parse("ping"), None);
    assert_eq!(IpcCommand::parse(""), None);
    assert_eq!(IpcCommand::parse("\u{3000}PING\u{a0}"), Some(IpcCommand::Ping));
}

#[test]
fn command_roundtrip_on_values() {
    for c in [
        IpcCommand::Ping,
        IpcCommand::StopAll,
        IpcCommand::Stop(0),
        IpcCommand::Stop(42),
        IpcCommand::Stop(u32::MAX),
    ] {
        assert_eq!(IpcCommand::parse(&c.to_string()), Some(c));
        assert_eq!(IpcCommand::parse(&c.to_line()), Some(c));
    }
    assert_eq!(IpcCommand::Stop(12).to_line(), "STOP:12\n");
}

#[test]
fn response_roundtrip_on_values() {
    for r in [
        IpcResponse::Okay,
        IpcResponse::Pong,
        IpcResponse::OkCount(0),
        IpcResponse::OkCount(1),
        IpcResponse::OkCount(u32::MAX),
        IpcResponse::Error(String::new()),
        IpcResponse::Error("  leading kept".to_string()),
    ] {
        assert_eq!(IpcResponse::parse(&r.to_string()), Some(r.clone()));
        assert_eq!(IpcResponse::parse(&r.to_line()), Some(r.clone()));
    }
    // A message that ends in whitespace loses it: the reader trims the line.
    assert_eq!(
        IpcResponse::parse(&IpcResponse::Error("x ".to_string()).to_string()),
        Some(IpcResponse::Error("x".to_string()))
    );
}

#[test]
fn response_parse_rejects() {
    assert_eq!(IpcResponse::parse("OK:"), None);
    assert_eq!(IpcResponse::parse("OK:x"), None);
    assert_eq!(IpcResponse::parse("ERR"), None);
    assert_eq!(IpcResponse::parse("pong"), None);
    assert_eq!(IpcResponse::parse("ERR:"), Some(IpcResponse::Error(String::new())));
}

#[test]
fn server_answers_each_command() {
    let mut open = vec![0u32, 1, 2];
    let ping = apply_ipc_command(&mut open, IpcCommand::parse("PING\n").unwrap());
    assert_eq!(ping.response, IpcResponse::Pong);
    let stop = apply_ipc_command(&mut open, IpcCommand::parse("STOP:1\n").unwrap());
    assert_eq!(stop.response, IpcResponse::Okay);
    let all = apply_ipc_command(&mut open, IpcCommand::parse("STOP:ALL\n").unwrap());
    assert_eq!(all.response, IpcResponse::OkCount(2));
    assert_eq!(all.response.to_line(), "OK:2\n");
    assert_eq!(IpcCommand::parse("HELLO\n"), None);
    assert_eq!(IpcResponse::for_command(IpcCommand::StopAll, 5).to_line(), "OK:5\n");
    assert_eq!(IpcResponse::for_command(IpcCommand::Stop(4), 1), IpcResponse::Okay);
    assert_eq!(IpcResponse::for_command(IpcCommand::Ping, 0), IpcResponse::Pong);
}

/// A transport that hands the request line to an in-process instance
/// showing wallpapers on displays 0, 1 and 2.
fn loopback(line: String) -> Result<String, String> {
    let mut open = vec![0u32, 1, 2];
    match IpcCommand::parse(&line) {
        Some(cmd) => Ok(apply_ipc_command(&mut open, cmd).response.to_line()),
        None => Err("no answer".to_string()),
    }
}

#[test]
fn client_and_instance_agree() {
    assert!(IpcClient::ping(loopback));
    assert_eq!(IpcClient::stop_display(2, loopback), Ok(IpcResponse::Okay));
    assert_eq!(IpcClient::stop_all(loopback), Ok(IpcResponse::OkCount(3)));
    assert_eq!(
        IpcClient::send_command(&IpcCommand::Ping, loopback),
        Ok(IpcResponse::Pong)
    );
}

#[test]
fn client_reports_failures() {
    let refused = |_line: String| -> Result<String, String> { Err("refused".to_string()) };
    assert_eq!(
        IpcClient::stop_all(refused),
        Err(IpcError::Connection("refused".to_string()))
    );
    assert!(!IpcClient::ping(refused));
    let garbage = |_line: String| -> Result<String, String> { Ok("WHAT\n".to_string()) };
    assert_eq!(IpcClient::stop_display(0, garbage), Err(IpcError::InvalidResponse));
    let wrong = |_line: String| -> Result<String, String> { Ok("OK\n".to_string()) };
    assert!(!IpcClient::ping(wrong));
}

#[test]
fn client_sends_the_request_line() {
    let seen = std::cell::RefCell::new(String::new());
    let record = |line: String| -> Result<String, String> {
        *seen.borrow_mut() = line;
        Ok("OK".to_string())
    };
    assert_eq!(IpcClient::stop_display(9, record), Ok(IpcResponse::Okay));
    assert_eq!(seen.borrow().as_str(), "STOP:9\n");
}
