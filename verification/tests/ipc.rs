use snipe::ipc::{classify_request, parse_command, request_line, IpcCommand, IpcResponse};

#[test]
fn parses_only_versioned_whitelist_commands() {
    assert_eq!(parse_command("SNIPE/1 PING"), Ok(IpcCommand::Ping));
    assert_eq!(parse_command("SNIPE/1 SHUTDOWN_FOR_UPDATE"), Ok(IpcCommand::ShutdownForUpdate));
    assert_eq!(parse_command("SNIPE/2 PING"), Err(IpcResponse::Incompatible));
    assert_eq!(parse_command("SNIPE/1 DELETE_ALL"), Err(IpcResponse::Rejected));
    assert_eq!(parse_command("SHUTDOWN_FOR_UPDATE"), Err(IpcResponse::Rejected));
}

#[test]
fn version_parses_like_u32() {
    assert_eq!(parse_command("SNIPE/+1 PING"), Ok(IpcCommand::Ping));
    assert_eq!(parse_command("SNIPE/01 OPEN_SETTINGS"), Ok(IpcCommand::OpenSettings));
    assert_eq!(parse_command("SNIPE/ PING"), Err(IpcResponse::Rejected));
    assert_eq!(parse_command("SNIPE/4294967296 PING"), Err(IpcResponse::Rejected));
    assert_eq!(parse_command("SNIPE/4294967295 PING"), Err(IpcResponse::Incompatible));
    assert_eq!(parse_command("snipe/1 PING"), Err(IpcResponse::Rejected));
}

#[test]
fn every_request_line_is_accepted_as_its_command() {
    for c in [IpcCommand::OpenSettings, IpcCommand::Ping, IpcCommand::ShutdownForUpdate] {
        let line = request_line(c);
        assert_eq!(classify_request(&line, line.len()), Ok(c));
    }
    assert_eq!(request_line(IpcCommand::Ping), "SNIPE/1 PING\n");
}

#[test]
fn empty_or_oversized_reads_are_rejected() {
    assert_eq!(classify_request("SNIPE/1 PING\n", 0), Err(IpcResponse::Rejected));
    assert_eq!(classify_request("SNIPE/1 PING\n", 1025), Err(IpcResponse::Rejected));
    assert_eq!(classify_request("  SNIPE/1 PING \r\n", 1024), Ok(IpcCommand::Ping));
}

#[test]
fn every_response_word_reads_back() {
    for r in [
        IpcResponse::Ready,
        IpcResponse::Busy,
        IpcResponse::Cancelled,
        IpcResponse::Incompatible,
        IpcResponse::Rejected,
    ] {
        assert_eq!(IpcResponse::parse(r.as_wire()), Some(r));
        assert_eq!(IpcResponse::parse(&format!("{}\n", r.as_wire())), Some(r));
    }
    assert_eq!(IpcResponse::parse("READY"), None);
    assert_eq!(IpcResponse::parse(""), None);
}
