use servermint::node::NodeManager;
use servermint::relay::{AgentMessage, ClientMessage, Delivery, Frame, Outbound, Role, WebSocketServer};

fn hub_with_token(token: &str, owner: &str) -> WebSocketServer {
    let mut hub = WebSocketServer::with_registry(NodeManager::new_at(0));
    hub.issue_token_at(token.to_string(), owner.to_string(), 0);
    hub
}

fn auth(token: &str) -> Frame {
    Frame::Agent(AgentMessage::Authenticate { token: token.to_string() })
}

fn node_info() -> Frame {
    Frame::Agent(AgentMessage::NodeInfo { hostname: "vps".to_string(), cpu: 1200, memory: 4500, disk: 3000 })
}

fn relayed(ds: &[Delivery]) -> Vec<(u64, String)> {
    ds.iter()
        .map(|d| match &d.message {
            Outbound::Relay(t) => (d.socket, t.clone()),
            Outbound::Error(m) => (d.socket, format!("error:{}", m)),
        })
        .collect()
}

#[test]
fn unknown_token_earns_error_frame() {
    let mut hub = hub_with_token("T", "U");
    assert!(hub.accept(1));
    let out = hub.handle_frame_at(1, &auth("nope"), "{auth nope}", 10, "abcdef");
    assert_eq!(relayed(&out), vec![(1, "error:Invalid token".to_string())]);
    assert!(matches!(hub.role_of(1), Some(Role::Desktop { owner: None })));
    assert_eq!(hub.connection_count(), 1);
    assert_eq!(hub.registry_ref().list_nodes(&servermint::manager::ServerManager::new()).len(), 1);
}

#[test]
fn unauthenticated_agent_frame_is_rejected() {
    let mut hub = hub_with_token("T", "U");
    hub.accept(1);
    let out = hub.handle_frame_at(1, &node_info(), "{info}", 10, "x");
    assert_eq!(relayed(&out), vec![(1, "error:Not authenticated".to_string())]);
    assert_eq!(hub.connection_count(), 1);
}

#[test]
fn scenario_token_to_owner_desktop() {
    let mut hub = hub_with_token("T", "U");
    hub.accept(1);
    hub.accept(2);
    hub.accept(3);
    assert!(hub.register_desktop(2, "U".to_string()));
    assert!(hub.register_desktop(3, "V".to_string()));
    let out = hub.handle_frame_at(1, &auth("T"), "{auth T}", 100, "0123456789");
    assert_eq!(relayed(&out), vec![(2, "{auth T}".to_string())]);
    let n = hub.registry_ref().token_binding("T").unwrap();
    assert_eq!(n, "node-0123456789");
    match hub.role_of(1) {
        Some(Role::Agent { token, node_id }) => {
            assert_eq!(token, "T");
            assert_eq!(node_id, n);
        }
        _ => panic!("socket 1 should be an agent"),
    }
    assert!(hub.is_token_connected("T"));
    let out = hub.handle_frame_at(1, &node_info(), "{info}", 200, "ignored");
    assert_eq!(relayed(&out), vec![(2, "{info}".to_string())]);
    let node = hub.registry_ref().get_node(&n).unwrap();
    assert_eq!(node.last_seen, Some(200));
    assert_eq!(node.metrics.unwrap().cpu, 1200);
}

#[test]
fn node_info_reaches_every_desktop_of_owner_only() {
    let mut hub = hub_with_token("T", "U");
    for s in 1..=5 {
        hub.accept(s);
    }
    hub.register_desktop(2, "U".to_string());
    hub.register_desktop(3, "V".to_string());
    hub.register_desktop(5, "U".to_string());
    hub.handle_frame_at(1, &auth("T"), "{auth}", 1, "abcdef");
    let out = hub.handle_frame_at(1, &node_info(), "{info}", 2, "x");
    assert_eq!(relayed(&out), vec![(2, "{info}".to_string()), (5, "{info}".to_string())]);
}

#[test]
fn closed_agent_socket_is_silent() {
    let mut hub = hub_with_token("T", "U");
    hub.accept(1);
    hub.accept(2);
    hub.register_desktop(2, "U".to_string());
    hub.handle_frame_at(1, &auth("T"), "{auth}", 1, "abcdef");
    assert!(hub.disconnect(1));
    assert!(!hub.disconnect(1));
    assert!(hub.role_of(1).is_none());
    assert!(!hub.is_token_connected("T"));
    let out = hub.handle_frame_at(1, &node_info(), "{info}", 2, "x");
    assert!(out.is_empty());
    assert_eq!(hub.connection_count(), 1);
}

#[test]
fn client_frames_go_to_every_agent() {
    let mut hub = hub_with_token("T1", "U");
    hub.issue_token_at("T2".to_string(), "W".to_string(), 0);
    for s in 1..=3 {
        hub.accept(s);
    }
    hub.handle_frame_at(1, &auth("T1"), "{a1}", 1, "aaaaaa");
    hub.handle_frame_at(2, &auth("T2"), "{a2}", 1, "bbbbbb");
    let cmd = Frame::Client(ClientMessage::StartServer { server_id: "s1".to_string() });
    let out = hub.handle_frame_at(3, &cmd, "{start}", 2, "x");
    assert_eq!(relayed(&out), vec![(1, "{start}".to_string()), (2, "{start}".to_string())]);
    let from_agent = hub.handle_frame_at(1, &Frame::Client(ClientMessage::RequestNodeInfo), "{req}", 2, "x");
    assert_eq!(relayed(&from_agent), vec![(1, "{req}".to_string()), (2, "{req}".to_string())]);
}

#[test]
fn reauthentication_evicts_the_older_agent() {
    let mut hub = hub_with_token("T", "U");
    hub.accept(1);
    hub.accept(2);
    hub.handle_frame_at(1, &auth("T"), "{a}", 1, "abcdef");
    hub.handle_frame_at(2, &auth("T"), "{a}", 2, "zzzzzz");
    assert_eq!(hub.connection_count(), 1);
    assert!(hub.role_of(1).is_none());
    assert!(matches!(hub.role_of(2), Some(Role::Agent { .. })));
}

#[test]
fn unrecognized_and_unknown_socket_frames_are_dropped() {
    let mut hub = hub_with_token("T", "U");
    hub.accept(1);
    assert!(!hub.accept(1));
    assert!(hub.handle_frame_at(1, &Frame::Unrecognized, "garbage", 1, "x").is_empty());
    assert!(hub.handle_frame_at(9, &auth("T"), "{a}", 1, "x").is_empty());
    assert_eq!(hub.registry_ref().token_binding("T"), None);
    assert!(!hub.register_desktop(9, "U".to_string()));
}

#[test]
fn generated_token_authenticates() {
    let mut hub = WebSocketServer::new();
    let t = hub.generate_token("current-user");
    hub.accept(7);
    hub.accept(8);
    hub.register_desktop(8, "current-user".to_string());
    let out = hub.handle_frame(7, &auth(&t), "{auth}");
    assert_eq!(relayed(&out), vec![(8, "{auth}".to_string())]);
    assert!(hub.is_token_connected(&t));
}

#[test]
fn hub_sweeps_expired_tokens() {
    let mut hub = hub_with_token("T", "U");
    hub.issue_token_at("L".to_string(), "U".to_string(), 500_000);
    hub.cleanup_expired_tokens_at(600_000);
    assert_eq!(hub.registry_ref().token_count(), 1);
    hub.accept(1);
    let out = hub.handle_frame_at(1, &auth("T"), "{a}", 600_001, "x");
    assert_eq!(relayed(&out), vec![(1, "error:Invalid token".to_string())]);
}

#[test]
fn hub_generated_token_is_pending_and_prefixed() {
    let mut hub = WebSocketServer::new();
    let t = hub.generate_token("U");
    assert!(t.starts_with("sm-"));
    assert_eq!(t.len(), 39);
    assert_eq!(hub.registry_ref().token_binding(&t), None);
    hub.cleanup_expired_tokens();
    assert_eq!(hub.registry_ref().token_count(), 1);
}

#[test]
fn forward_to_user_reaches_only_that_owner() {
    let mut hub = hub_with_token("T", "U");
    for s in 1..=4 {
        hub.accept(s);
    }
    hub.register_desktop(1, "U".to_string());
    hub.register_desktop(2, "V".to_string());
    hub.register_desktop(4, "U".to_string());
    hub.handle_frame_at(3, &auth("T"), "{a}", 1, "abcdef");
    let out = hub.forward_to_user("U", "{x}");
    assert_eq!(relayed(&out), vec![(1, "{x}".to_string()), (4, "{x}".to_string())]);
    assert!(hub.forward_to_user("W", "{x}").is_empty());
}
