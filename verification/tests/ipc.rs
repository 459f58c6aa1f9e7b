use signalpane::ipc::{
    expect_events, expect_mark_read, expect_sources, expect_status, response_result, IpcClient,
    IpcResponse,
};
use signalpane::model::AppStatus;

#[test]
fn client_keeps_its_socket_path() {
    let client = IpcClient::new("/tmp/state/signalpane.sock".to_string());
    assert_eq!(client.socket_path(), "/tmp/state/signalpane.sock");
}

#[test]
fn error_responses_become_errors() {
    assert_eq!(
        response_result(IpcResponse::Error { message: "no such table".to_string() }),
        Err("no such table".to_string())
    );
    assert_eq!(
        response_result(IpcResponse::MarkRead { changed: true }),
        Ok(IpcResponse::MarkRead { changed: true })
    );
}

#[test]
fn each_call_takes_only_its_own_answer() {
    let status = AppStatus { unread_count: 1, total_count: 2, sources: Vec::new() };
    assert_eq!(
        expect_status(IpcResponse::Status { status: status.clone() }),
        Ok(status)
    );
    assert_eq!(
        expect_status(IpcResponse::Acknowledged),
        Err(IpcResponse::Acknowledged)
    );
    assert_eq!(expect_events(IpcResponse::Events { events: Vec::new() }), Ok(Vec::new()));
    assert_eq!(
        expect_events(IpcResponse::MarkRead { changed: false }),
        Err(IpcResponse::MarkRead { changed: false })
    );
    assert_eq!(expect_sources(IpcResponse::Sources { sources: Vec::new() }), Ok(Vec::new()));
    assert_eq!(expect_mark_read(IpcResponse::MarkRead { changed: true }), Ok(true));
    assert!(expect_mark_read(IpcResponse::Sources { sources: Vec::new() }).is_err());
}
