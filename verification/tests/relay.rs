use zenproxy::clients::RelayClients;
use zenproxy::error::AppError;
use zenproxy::json::parse_or_null;
use zenproxy::pool::ProxyPool;
use zenproxy::proxy::{PoolProxy, ProxyStatus};
use zenproxy::relay::{
    relay_advance, relay_awaits, relay_request, send_with, RelayAction, RelayEvent, RelayParams, RelayState,
    RelayStep, RelayTarget, MAX_ATTEMPTS,
};

fn proxy(id: &str, local_port: Option<u16>) -> PoolProxy {
    PoolProxy {
        id: id.to_string(),
        subscription_id: "s".to_string(),
        name: format!("name {id}"),
        proxy_type: "vmess".to_string(),
        server: "h".to_string(),
        port: 443,
        singbox_outbound: parse_or_null("{\"type\":\"vmess\"}"),
        status: ProxyStatus::Valid,
        local_port,
        error_count: 0,
        quality: None,
    }
}

fn params(proxy_id: Option<&str>) -> RelayParams {
    RelayParams {
        url: Some("http://target.example/".to_string()),
        method: Some("POST".to_string()),
        proxy_id: proxy_id.map(|s| s.to_string()),
        api_key: Some("key".to_string()),
        chatgpt: false,
        google: false,
        residential: false,
        risk_max: None,
        country: None,
        proxy_type: None,
    }
}

struct Server {
    pool: ProxyPool,
    clients: RelayClients,
}

impl Server {
    fn with(proxies: Vec<PoolProxy>) -> Server {
        let mut pool = ProxyPool::new();
        for p in proxies {
            pool.add(p);
        }
        Server { pool, clients: RelayClients::new() }
    }

    fn tell(&mut self, step: RelayStep, event: RelayEvent) -> RelayStep {
        assert!(relay_awaits(&step.state, &event));
        relay_advance(step.state, event, &mut self.pool, &mut self.clients)
    }

    fn admitted(&mut self, params: RelayParams) -> RelayStep {
        let step = relay_request(params);
        self.tell(step, RelayEvent::Authenticated { can_use_relay: true })
    }
}

fn error(step: RelayStep) -> AppError {
    assert!(matches!(step.state, RelayState::Finished));
    match step.action {
        RelayAction::Fail { error } => error,
        _ => panic!("no error"),
    }
}

fn sent(step: &RelayStep) -> String {
    match &step.action {
        RelayAction::Send { client, target } => {
            assert_eq!(target.url, "http://target.example/");
            assert_eq!(target.method, "POST");
            format!("{client:?}")
        }
        _ => panic!("nothing is sent"),
    }
}

#[test]
fn relays_need_an_api_key() {
    let step = relay_request(RelayParams { api_key: None, ..params(None) });
    match error(step) {
        AppError::BadRequest(m) => assert_eq!(m, "Relay requires 'api_key' query parameter"),
        other => panic!("{other:?}"),
    }
}

#[test]
fn relays_start_with_authentication() {
    let step = relay_request(params(None));
    match &step.action {
        RelayAction::Authenticate { api_key } => assert_eq!(api_key, "key"),
        _ => panic!("no authentication"),
    }
    assert!(!relay_awaits(&step.state, &RelayEvent::Delivered));
    assert!(relay_awaits(&step.state, &RelayEvent::Authenticated { can_use_relay: false }));
}

#[test]
fn clients_without_permission_are_turned_away() {
    let mut server = Server::with(vec![proxy("p", Some(20001))]);
    let step = relay_request(params(None));
    let step = server.tell(step, RelayEvent::AuthFailed { error: AppError::Unauthorized("bad key".to_string()) });
    match error(step) {
        AppError::Unauthorized(m) => assert_eq!(m, "bad key"),
        other => panic!("{other:?}"),
    }
    let step = relay_request(params(None));
    let step = server.tell(step, RelayEvent::Authenticated { can_use_relay: false });
    match error(step) {
        AppError::Unauthorized(m) => assert_eq!(m, "Relay endpoint is disabled for this user"),
        other => panic!("{other:?}"),
    }
}

#[test]
fn relays_need_a_url() {
    let mut server = Server::with(vec![proxy("p", Some(20001))]);
    let step = server.admitted(RelayParams { url: None, ..params(None) });
    match error(step) {
        AppError::BadRequest(m) => assert_eq!(m, "Missing 'url' parameter"),
        other => panic!("{other:?}"),
    }
}

#[test]
fn the_method_defaults_to_get() {
    let mut server = Server::with(vec![proxy("p", Some(20001))]);
    let step = server.admitted(RelayParams { method: None, ..params(Some("p")) });
    match step.action {
        RelayAction::Send { target, .. } => assert_eq!(target.method, "GET"),
        _ => panic!("nothing is sent"),
    }
}

#[test]
fn a_named_proxy_must_exist() {
    let mut server = Server::with(vec![proxy("p", Some(20001))]);
    let step = server.admitted(params(Some("other")));
    match error(step) {
        AppError::NotFound(m) => assert_eq!(m, "Specified proxy not found"),
        other => panic!("{other:?}"),
    }
}

#[test]
fn a_named_proxy_is_used_at_its_port() {
    let mut server = Server::with(vec![proxy("p", Some(20001)), proxy("q", Some(20002))]);
    server.pool.set_status("q", ProxyStatus::Invalid);
    let step = server.admitted(params(Some("q")));
    assert!(sent(&step).contains("127.0.0.1:20002"));
    let step = server.tell(step, RelayEvent::Delivered);
    match step.action {
        RelayAction::Respond { proxy, attempt } => {
            assert_eq!(proxy.id, "q");
            assert_eq!(attempt, None);
        }
        _ => panic!("no response"),
    }
    assert!(matches!(step.state, RelayState::Finished));
}

#[test]
fn a_named_proxy_that_fails_is_blamed_and_not_tried_again() {
    let mut server = Server::with(vec![proxy("p", Some(20001))]);
    let step = server.admitted(params(Some("p")));
    let step = server.tell(step, RelayEvent::SendFailed { cause: "refused".to_string() });
    assert_eq!(server.pool.get("p").unwrap().error_count, 1);
    match &step.action {
        RelayAction::RecordError { proxy_id } => assert_eq!(proxy_id, "p"),
        _ => panic!("nothing is recorded"),
    }
    let step = server.tell(step, RelayEvent::ErrorRecorded);
    match error(step) {
        AppError::Internal(m) => assert_eq!(m, "Relay failed: refused"),
        other => panic!("{other:?}"),
    }
}

#[test]
fn a_named_proxy_without_a_port_is_bound() {
    let mut server = Server::with(vec![proxy("p", None)]);
    let step = server.admitted(params(Some("p")));
    assert!(matches!(step.action, RelayAction::LockBindings));
    let step = server.tell(step, RelayEvent::BindingsLocked);
    match &step.action {
        RelayAction::CreateBinding { proxy_id, outbound } => {
            assert_eq!(proxy_id, "p");
            assert_eq!(outbound.to_string(), "{\"type\":\"vmess\"}");
        }
        _ => panic!("no binding"),
    }
    assert_eq!(server.pool.get("p").unwrap().local_port, None);
    let step = server.tell(step, RelayEvent::BindingCreated { port: 20077 });
    assert_eq!(server.pool.get("p").unwrap().local_port, Some(20077));
    match &step.action {
        RelayAction::SavePort { proxy_id, port } => {
            assert_eq!(proxy_id, "p");
            assert_eq!(*port, 20077);
        }
        _ => panic!("no port is saved"),
    }
    let step = server.tell(step, RelayEvent::PortSaved);
    assert!(sent(&step).contains("127.0.0.1:20077"));
    let step = server.tell(step, RelayEvent::Delivered);
    assert!(matches!(step.action, RelayAction::Respond { attempt: None, .. }));
}

#[test]
fn a_binding_that_another_request_has_made_is_used() {
    let mut server = Server::with(vec![proxy("p", None)]);
    let step = server.admitted(params(Some("p")));
    server.pool.set_local_port("p", 20088);
    let step = server.tell(step, RelayEvent::BindingsLocked);
    assert!(sent(&step).contains("127.0.0.1:20088"));
}

#[test]
fn a_proxy_that_leaves_while_it_waits_is_bound_all_the_same() {
    let mut server = Server::with(vec![proxy("p", None)]);
    let step = server.admitted(params(Some("p")));
    server.pool.remove("p");
    let step = server.tell(step, RelayEvent::BindingsLocked);
    assert!(matches!(step.action, RelayAction::CreateBinding { .. }));
    let step = server.tell(step, RelayEvent::BindingCreated { port: 20099 });
    assert!(server.pool.get("p").is_none());
    let step = server.tell(step, RelayEvent::PortSaved);
    assert!(sent(&step).contains("127.0.0.1:20099"));
}

#[test]
fn a_binding_can_fail() {
    let mut server = Server::with(vec![proxy("p", None)]);
    let step = server.admitted(params(Some("p")));
    let step = server.tell(step, RelayEvent::BindingsLocked);
    let step = server.tell(step, RelayEvent::BindingFailed { cause: "no port left".to_string() });
    match error(step) {
        AppError::Internal(m) => assert_eq!(m, "Failed to create binding: no port left"),
        other => panic!("{other:?}"),
    }
}

#[test]
fn no_proxy_may_pass_the_filter() {
    let mut server = Server::with(vec![proxy("p", None)]);
    let step = server.admitted(params(None));
    match error(step) {
        AppError::NotFound(m) => assert_eq!(m, "No proxies match the given filters"),
        other => panic!("{other:?}"),
    }
    let mut server = Server::with(vec![proxy("p", Some(20001))]);
    let step = server.admitted(RelayParams { proxy_type: Some("http".to_string()), ..params(None) });
    assert!(matches!(error(step), AppError::NotFound(_)));
}

#[test]
fn a_random_proxy_is_used_and_the_attempt_told() {
    let mut server = Server::with(vec![proxy("p", Some(20001)), proxy("q", None)]);
    let step = server.admitted(params(None));
    assert!(sent(&step).contains("127.0.0.1:20001"));
    let step = server.tell(step, RelayEvent::SendFailed { cause: "x".to_string() });
    assert!(matches!(step.action, RelayAction::RecordError { .. }));
    let step = server.tell(step, RelayEvent::ErrorRecorded);
    assert!(sent(&step).contains("127.0.0.1:20001"));
    let step = server.tell(step, RelayEvent::Delivered);
    match step.action {
        RelayAction::Respond { proxy, attempt } => {
            assert_eq!(proxy.id, "p");
            assert_eq!(attempt, Some(2));
        }
        _ => panic!("no response"),
    }
    assert_eq!(server.pool.get("p").unwrap().error_count, 1);
    assert_eq!(server.pool.get("p").unwrap().status, ProxyStatus::Valid);
}

#[test]
fn five_failures_end_a_relay() {
    let mut server = Server::with(vec![proxy("p", Some(20001))]);
    let mut step = server.admitted(params(None));
    let mut sends = 0;
    while !matches!(step.state, RelayState::Finished) {
        sent(&step);
        sends += 1;
        step = server.tell(step, RelayEvent::SendFailed { cause: "x".to_string() });
        step = server.tell(step, RelayEvent::ErrorRecorded);
    }
    assert_eq!(sends, 5);
    assert_eq!(MAX_ATTEMPTS, 5);
    assert_eq!(server.pool.get("p").unwrap().error_count, 5);
    match error(step) {
        AppError::Internal(m) => assert_eq!(m, "All 5 relay attempts failed"),
        other => panic!("{other:?}"),
    }
}

#[test]
fn a_pool_that_runs_dry_ends_a_relay() {
    let mut server = Server::with(vec![proxy("p", Some(20001))]);
    let step = server.admitted(params(None));
    let step = server.tell(step, RelayEvent::SendFailed { cause: "x".to_string() });
    server.pool.set_status("p", ProxyStatus::Invalid);
    let step = server.tell(step, RelayEvent::ErrorRecorded);
    assert!(matches!(error(step), AppError::NotFound(_)));
}

#[test]
fn a_client_that_cannot_be_made_ends_a_relay() {
    let target = RelayTarget { url: "u".to_string(), method: "GET".to_string() };
    let step = send_with(
        Err(AppError::Internal("Client build error: x".to_string())),
        RelayState::SendingDirect { proxy: proxy("p", Some(1)) },
        target,
    );
    match error(step) {
        AppError::Internal(m) => assert_eq!(m, "Client build error: x"),
        other => panic!("{other:?}"),
    }
}
