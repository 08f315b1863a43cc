use servermint::manager::ServerManager;
use servermint::node::{Node, NodeConfig, NodeManager, NodeMetrics, NodeStatus, NodeType, TOKEN_TTL_MS};

fn remote(id: &str) -> Node {
    Node {
        id: id.to_string(),
        name: "Box".to_string(),
        node_type: NodeType::Remote,
        status: NodeStatus::Offline,
        config: NodeConfig {
            name: "Box".to_string(),
            hostname: Some("box.example".to_string()),
            port: Some(22),
            ssh_key_path: None,
            username: None,
            api_token: None,
        },
        last_seen: None,
        servers: Vec::new(),
        metrics: None,
        owner: None,
    }
}

#[test]
fn registry_starts_with_local_node() {
    let m = NodeManager::new_at(1_000);
    let nodes = m.list_nodes(&ServerManager::new());
    assert_eq!(nodes.len(), 1);
    assert_eq!(nodes[0].id, "local");
    assert_eq!(nodes[0].name, "My PC");
    assert_eq!(nodes[0].node_type, NodeType::Local);
    assert_eq!(nodes[0].status, NodeStatus::Online);
    assert_eq!(nodes[0].last_seen, Some(1_000));
}

#[test]
fn token_binds_once_and_expires() {
    let mut m = NodeManager::new_at(0);
    m.issue_token_at("T".to_string(), "U".to_string(), 1_000);
    let first = m.validate_token_at("T", 2_000, "abcdef12-0000").unwrap();
    assert_eq!(first, "node-abcdef12-0000");
    let node = m.get_node(&first).unwrap();
    assert_eq!(node.name, "VPS Node abcdef");
    assert_eq!(node.node_type, NodeType::Remote);
    assert_eq!(node.status, NodeStatus::Connecting);
    assert_eq!(node.config.api_token, Some("T".to_string()));
    assert_eq!(node.owner, Some("U".to_string()));
    assert_eq!(m.validate_token_at("T", 5_000, "ffffffff-1111"), Some(first.clone()));
    assert_eq!(m.validate_token_at("T", 1_000 + TOKEN_TTL_MS - 1, "99"), Some(first.clone()));
    assert_eq!(m.validate_token_at("T", 1_000 + TOKEN_TTL_MS, "99"), None);
    assert_eq!(m.list_nodes(&ServerManager::new()).len(), 2);
}

#[test]
fn pending_token_expires_unbound() {
    let mut m = NodeManager::new_at(0);
    m.issue_token_at("T".to_string(), "U".to_string(), 0);
    assert_eq!(m.validate_token_at("T", TOKEN_TTL_MS, "abc"), None);
    assert_eq!(m.list_nodes(&ServerManager::new()).len(), 1);
    assert_eq!(m.token_binding("T"), None);
}

#[test]
fn unknown_token_is_rejected() {
    let mut m = NodeManager::new_at(0);
    assert_eq!(m.validate_token_at("sm-unknown", 10, "abc"), None);
    assert_eq!(m.list_nodes(&ServerManager::new()).len(), 1);
}

#[test]
fn short_fresh_id_still_names_node() {
    let mut m = NodeManager::new_at(0);
    m.issue_token_at("T".to_string(), "U".to_string(), 0);
    let id = m.validate_token_at("T", 1, "ab").unwrap();
    assert_eq!(id, "node-ab");
    assert_eq!(m.get_node("node-ab").unwrap().name, "VPS Node ab");
}

#[test]
fn minted_id_collision_gives_none() {
    let mut m = NodeManager::new_at(0);
    m.add_node(remote("node-abc")).unwrap();
    m.issue_token_at("T".to_string(), "U".to_string(), 0);
    assert_eq!(m.validate_token_at("T", 1, "abc"), None);
    assert_eq!(m.token_binding("T"), None);
}

#[test]
fn generated_tokens_are_distinct_and_pending() {
    let mut m = NodeManager::new();
    let a = m.generate_pairing_token("U");
    let b = m.generate_pairing_token("U");
    assert!(a.starts_with("sm-"));
    assert_eq!(a.len(), 39);
    assert_ne!(a, b);
    assert_eq!(m.token_count(), 2);
    assert_eq!(m.token_binding(&a), None);
    let n = m.validate_token(&a).unwrap();
    assert!(n.starts_with("node-"));
    assert_eq!(m.token_binding(&a), Some(n.clone()));
    assert_eq!(m.validate_token(&a), Some(n));
}

#[test]
fn reissuing_a_token_resets_it() {
    let mut m = NodeManager::new_at(0);
    m.issue_token_at("T".to_string(), "U".to_string(), 0);
    m.validate_token_at("T", 1, "aaaaaa").unwrap();
    m.issue_token_at("T".to_string(), "V".to_string(), 10);
    assert_eq!(m.token_count(), 1);
    assert_eq!(m.token_binding("T"), None);
}

#[test]
fn cleanup_drops_only_expired_tokens() {
    let mut m = NodeManager::new_at(0);
    m.issue_token_at("old".to_string(), "U".to_string(), 0);
    m.issue_token_at("new".to_string(), "U".to_string(), 500_000);
    let bound = m.validate_token_at("old", 10, "abcdef").unwrap();
    m.cleanup_expired_tokens_at(TOKEN_TTL_MS);
    assert_eq!(m.token_count(), 1);
    assert_eq!(m.token_binding("old"), None);
    assert!(m.get_node(&bound).is_some());
    assert_eq!(m.validate_token_at("new", TOKEN_TTL_MS, "x"), Some("node-x".to_string()));
}

#[test]
fn node_crud_errors() {
    let mut m = NodeManager::new_at(0);
    assert_eq!(m.add_node(remote("n1")), Ok(()));
    assert_eq!(m.add_node(remote("n1")), Err("Node with ID n1 already exists".to_string()));
    assert_eq!(m.update_node("n2", remote("n2")), Err("Node with ID n2 not found".to_string()));
    assert_eq!(m.update_node("n1", remote("n3")), Err("Node ID n3 does not match n1".to_string()));
    let mut changed = remote("n1");
    changed.name = "Renamed".to_string();
    assert_eq!(m.update_node("n1", changed), Ok(()));
    assert_eq!(m.get_node("n1").unwrap().name, "Renamed");
    assert_eq!(m.remove_node("local"), Err("Cannot remove local node".to_string()));
    assert_eq!(m.remove_node("n9"), Err("Node with ID n9 not found".to_string()));
    assert_eq!(m.remove_node("n1"), Ok(()));
    assert!(m.get_node("n1").is_none());
}

#[test]
fn metrics_and_status_updates() {
    let mut m = NodeManager::new_at(0);
    m.add_node(remote("n1")).unwrap();
    let metrics = NodeMetrics { cpu: 1250, memory: 5000, disk: 7700 };
    assert_eq!(m.update_node_metrics_at("n1", metrics, 42), Ok(()));
    let n = m.get_node("n1").unwrap();
    assert_eq!(n.metrics, Some(metrics));
    assert_eq!(n.last_seen, Some(42));
    assert_eq!(n.status, NodeStatus::Online);
    assert_eq!(m.update_node_status("n1", NodeStatus::Error), Ok(()));
    assert_eq!(m.get_node("n1").unwrap().status, NodeStatus::Error);
    assert!(m.update_node_status("zz", NodeStatus::Online).is_err());
    assert!(m.update_node_metrics("zz", metrics).is_err());
    assert_eq!(m.node_owner("n1"), None);
}

#[test]
fn local_node_lists_local_servers() {
    let m = NodeManager::new_at(0);
    let mut local = ServerManager::new();
    let cfg = servermint::server::ServerConfig {
        name: "A".to_string(),
        path: "/a".to_string(),
        version: "1.20.1".to_string(),
        server_type: "paper".to_string(),
        java_path: None,
        min_memory: 512,
        max_memory: 1024,
        jvm_args: None,
        port: 25565,
    };
    local.add_server("a".to_string(), cfg.clone()).unwrap();
    local.add_server("b".to_string(), cfg).unwrap();
    let nodes = m.list_nodes(&local);
    assert_eq!(nodes[0].servers, vec!["a", "b"]);
}

#[test]
fn node_info_by_token() {
    let mut m = NodeManager::new_at(0);
    m.issue_token_at("T".to_string(), "U".to_string(), 0);
    let info = m.get_node_info_by_token_at("T", 5, "abcdef").unwrap();
    assert_eq!(info.id, "node-abcdef");
    assert_eq!(info.hostname, None);
    assert_eq!(m.get_node_info_by_token_at("X", 5, "q").err(), Some("Invalid or unused token: X".to_string()));
    assert!(m.check_node_connected_at("T", 6, "zzz"));
    assert!(!m.check_node_connected_at("T", TOKEN_TTL_MS, "zzz"));
    m.remove_node("node-abcdef").unwrap();
    assert_eq!(
        m.get_node_info_by_token_at("T", 7, "q").err(),
        Some("Node info not available for token: T".to_string())
    );
    assert!(!m.check_node_connected("unknown"));
    assert!(m.get_node_info_by_token("unknown").is_err());
}

#[test]
fn fresh_registry_holds_the_local_node() {
    let m = NodeManager::new();
    let nodes = m.list_nodes(&ServerManager::new());
    assert_eq!(nodes.len(), 1);
    assert_eq!(nodes[0].id, "local");
    assert_eq!(nodes[0].node_type, NodeType::Local);
    assert_eq!(nodes[0].status, NodeStatus::Online);
    assert_eq!(m.token_count(), 0);
}
