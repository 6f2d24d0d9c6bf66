use hydra::client::{
    runner_action, RunnerAction, bearer_header, gateway_target, recv_step, rpc_failure_message, GatewayError, GatewayTarget,
    RecvAction, RecvEvent, MAX_CONSECUTIVE_FAILURES,
};
use hydra::protocol::messages::{
    AbortMessage, BuildMessage, ConfigUpdate, JoinResponse, RunnerMessage, SimplePingMessage,
};
use hydra::protocol::RpcError;

#[test]
fn unix_endpoint() {
    assert_eq!(
        gateway_target("unix:///run/hydra/queue-runner.sock", false),
        Ok(GatewayTarget::Unix { path: "/run/hydra/queue-runner.sock".to_string() })
    );
}

#[test]
fn https_endpoint_defaults_to_443() {
    assert_eq!(
        gateway_target("https://hydra.example.org", false),
        Ok(GatewayTarget::Tcp {
            host: "hydra.example.org".to_string(),
            port: 443,
            addr: "hydra.example.org:443".to_string(),
            tls: true,
        })
    );
}

#[test]
fn http_endpoint_with_port() {
    assert_eq!(
        gateway_target("http://10.0.0.1:8080", false),
        Ok(GatewayTarget::Tcp {
            host: "10.0.0.1".to_string(),
            port: 8080,
            addr: "10.0.0.1:8080".to_string(),
            tls: false,
        })
    );
    match gateway_target("http://localhost", true) {
        Ok(GatewayTarget::Tcp { port, tls, .. }) => {
            assert_eq!(port, 80);
            assert!(tls);
        }
        other => panic!("unexpected {other:?}"),
    }
}

#[test]
fn bad_endpoints() {
    assert_eq!(gateway_target("not a url", false), Err(GatewayError::Unparsable));
    assert_eq!(gateway_target("data:text/plain,x", false), Err(GatewayError::NoHost));
    assert_eq!(GatewayError::Unparsable.message(), "Failed to parse gateway_endpoint");
    assert_eq!(GatewayError::NoHost.message(), "No host in gateway_endpoint");
}

#[test]
fn bearer() {
    assert_eq!(bearer_header("abc"), "Bearer abc");
}

#[test]
fn failure_messages() {
    let e = RpcError::precondition_failed("No remote store configured".to_string());
    assert_eq!(
        rpc_failure_message(Some(&e), "412 Precondition Failed"),
        "RPC error 412: No remote store configured"
    );
    assert_eq!(rpc_failure_message(None, "502 Bad Gateway"), "RPC error: status 502 Bad Gateway");
}

#[test]
fn recv_gives_up_after_ten_failures() {
    let mut failures = 0;
    for i in 1..MAX_CONSECUTIVE_FAILURES {
        let event = if i % 2 == 0 { RecvEvent::DecodeFailed } else { RecvEvent::StreamFailed };
        let (n, action) = recv_step(failures, event);
        assert_eq!((n, action), (i, RecvAction::Continue));
        failures = n;
    }
    assert_eq!(recv_step(failures, RecvEvent::DecodeFailed), (10, RecvAction::Terminate));
}

#[test]
fn recv_message_resets() {
    assert_eq!(recv_step(9, RecvEvent::Message), (0, RecvAction::Handle));
    assert_eq!(recv_step(4, RecvEvent::Closed), (4, RecvAction::Stop));
    assert_eq!(recv_step(0, RecvEvent::StreamFailed), (1, RecvAction::Continue));
}

#[test]
fn runner_messages_to_actions() {
    let join = RunnerMessage::Join(JoinResponse { machine_id: "m".to_string(), max_concurrent_downloads: 4 });
    assert_eq!(runner_action(join), RunnerAction::SetMaxConcurrentDownloads(4));
    let update = RunnerMessage::ConfigUpdate(ConfigUpdate { max_concurrent_downloads: 9 });
    assert_eq!(runner_action(update), RunnerAction::SetMaxConcurrentDownloads(9));
    let ping = RunnerMessage::Ping(SimplePingMessage { message: "ping".to_string() });
    assert_eq!(runner_action(ping), RunnerAction::Ignore);
    let build = BuildMessage {
        build_id: "b".to_string(),
        drv: "/nix/store/x.drv".to_string(),
        resolved_drv: None,
        max_log_size: 64,
        max_silent_time: 3600,
        build_timeout: 36000,
        presigned_url_opts: None,
    };
    assert_eq!(runner_action(RunnerMessage::Build(build.clone())), RunnerAction::Schedule(build));
    let abort = AbortMessage { build_id: "b".to_string() };
    assert_eq!(runner_action(RunnerMessage::Abort(abort.clone())), RunnerAction::Abort(abort));
}
