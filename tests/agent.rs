use servermint::agent::{command_reply, handle_server_message, launch_reply, stop_reply, AgentAction};
use servermint::manager::ServerManager;
use servermint::relay::{AgentMessage, ClientMessage};
use servermint::status::ServerStatus;

fn create(m: &mut ServerManager, id: &str) -> AgentAction {
    let msg = ClientMessage::CreateServer {
        server_name: "Lobby".to_string(),
        server_type: "paper".to_string(),
        version: "1.20.1".to_string(),
    };
    handle_server_message(m, &msg, id, "/var/lib/servermint")
}

#[test]
fn create_then_list() {
    let mut m = ServerManager::new();
    match create(&mut m, "server-1") {
        AgentAction::Create { directory, reply: AgentMessage::CommandResult { command_id, success, message } } => {
            assert_eq!(directory, "/var/lib/servermint/server-1");
            assert_eq!(command_id, "create");
            assert!(success);
            assert_eq!(message, "Server created with ID: server-1");
        }
        other => panic!("unexpected {:?}", other),
    }
    let info = m.get_server_info("server-1").unwrap();
    assert_eq!(info.config.path, "/var/lib/servermint/server-1");
    assert_eq!(info.config.min_memory, 1024);
    assert_eq!(info.config.max_memory, 2048);
    match create(&mut m, "server-1") {
        AgentAction::Reply(AgentMessage::CommandResult { success, message, .. }) => {
            assert!(!success);
            assert_eq!(message, "Server with this ID already exists");
        }
        other => panic!("unexpected {:?}", other),
    }
    match handle_server_message(&mut m, &ClientMessage::RequestServerList, "x", "/d") {
        AgentAction::Reply(AgentMessage::ServerList { servers }) => {
            assert_eq!(servers.len(), 1);
            assert_eq!(servers[0].id, "server-1");
            assert_eq!(servers[0].name, "Lobby");
            assert_eq!(servers[0].server_type, "paper");
            assert_eq!(servers[0].version, "1.20.1");
            assert_eq!(servers[0].status, "offline");
        }
        other => panic!("unexpected {:?}", other),
    }
}

#[test]
fn start_stop_and_commands() {
    let mut m = ServerManager::new();
    create(&mut m, "s");
    match handle_server_message(&mut m, &ClientMessage::StartServer { server_id: "s".to_string() }, "x", "/d") {
        AgentAction::Launch { server_id } => assert_eq!(server_id, "s"),
        other => panic!("unexpected {:?}", other),
    }
    let send = ClientMessage::SendCommand { server_id: "s".to_string(), command: "op me".to_string(), command_id: "c1".to_string() };
    match handle_server_message(&mut m, &send, "x", "/d") {
        AgentAction::Reply(AgentMessage::CommandResult { command_id, success, message }) => {
            assert_eq!(command_id, "c1");
            assert!(!success);
            assert_eq!(message, "Server is not running");
        }
        other => panic!("unexpected {:?}", other),
    }
    m.start_server("s", true, "java".to_string()).unwrap();
    m.mark_running("s", 99).unwrap();
    match handle_server_message(&mut m, &send, "x", "/d") {
        AgentAction::WriteStdin { server_id, command_id, text } => {
            assert_eq!((server_id.as_str(), command_id.as_str(), text.as_str()), ("s", "c1", "op me\n"));
        }
        other => panic!("unexpected {:?}", other),
    }
    match handle_server_message(&mut m, &ClientMessage::StopServer { server_id: "s".to_string() }, "x", "/d") {
        AgentAction::Signal { server_id, pid } => {
            assert_eq!(server_id, "s");
            assert_eq!(pid, Some(99));
        }
        other => panic!("unexpected {:?}", other),
    }
    assert_eq!(m.get_server_info("s").unwrap().status, ServerStatus::Offline);
    match handle_server_message(&mut m, &ClientMessage::StopServer { server_id: "s".to_string() }, "x", "/d") {
        AgentAction::Reply(AgentMessage::Error { message }) => assert_eq!(message, "Server is not running"),
        other => panic!("unexpected {:?}", other),
    }
}

#[test]
fn logs_and_node_info() {
    let mut m = ServerManager::new();
    create(&mut m, "s");
    m.append_output("s", "a".to_string()).unwrap();
    m.append_output("s", "b".to_string()).unwrap();
    let req = ClientMessage::RequestLogs { server_id: "s".to_string(), lines: 1 };
    match handle_server_message(&mut m, &req, "x", "/d") {
        AgentAction::Reply(AgentMessage::ServerLogs { server_id, logs }) => {
            assert_eq!(server_id, "s");
            assert_eq!(logs, vec!["b"]);
        }
        other => panic!("unexpected {:?}", other),
    }
    let missing = ClientMessage::RequestLogs { server_id: "q".to_string(), lines: 1 };
    match handle_server_message(&mut m, &missing, "x", "/d") {
        AgentAction::Reply(AgentMessage::Error { message }) => assert_eq!(message, "Server not found"),
        other => panic!("unexpected {:?}", other),
    }
    assert!(matches!(handle_server_message(&mut m, &ClientMessage::RequestNodeInfo, "x", "/d"), AgentAction::SampleNodeInfo));
}

#[test]
fn status_and_error_texts() {
    assert_eq!(ServerStatus::Online.name(), "online");
    assert_eq!(ServerStatus::Error.name(), "error");
    assert_eq!(
        servermint::server::ServerError::SpawnFailed("denied".to_string()).message(),
        "Failed to start server: denied"
    );
}

#[test]
fn motd_names_discovered_servers() {
    let props = "#Minecraft server properties\nmotd=First\nmax-players=20\nmotd=Lobby One\n";
    assert_eq!(servermint::agent::properties_motd(props), Some("Lobby One".to_string()));
    assert_eq!(servermint::agent::properties_motd("level-name=world\n"), None);
    assert_eq!(servermint::agent::motd_from_lines(&vec!["motd=".to_string()]), Some(String::new()));
    let c = servermint::agent::discovered_config("srv-a", "/data/srv-a", Some("Lobby".to_string()), true);
    assert_eq!((c.name.as_str(), c.server_type.as_str(), c.version.as_str()), ("Lobby", "paper", "1.20.1"));
    let d = servermint::agent::discovered_config("srv-b", "/data/srv-b", None, false);
    assert_eq!((d.name.as_str(), d.server_type.as_str(), d.version.as_str(), d.path.as_str()), ("srv-b", "vanilla", "unknown", "/data/srv-b"));
}

#[test]
fn replies_after_outside_work() {
    match command_reply("c9".to_string(), Ok(())) {
        AgentMessage::CommandResult { command_id, success, message } => {
            assert_eq!((command_id.as_str(), success, message.as_str()), ("c9", true, "Command sent"));
        }
        other => panic!("unexpected {:?}", other),
    }
    match command_reply("c9".to_string(), Err("Broken pipe".to_string())) {
        AgentMessage::CommandResult { success, message, .. } => {
            assert!(!success);
            assert_eq!(message, "Broken pipe");
        }
        other => panic!("unexpected {:?}", other),
    }
    match launch_reply("s".to_string(), Ok(())) {
        AgentMessage::ServerStatus { server_id, status } => assert_eq!((server_id.as_str(), status.as_str()), ("s", "online")),
        other => panic!("unexpected {:?}", other),
    }
    match stop_reply("s".to_string(), Ok(())) {
        AgentMessage::ServerStatus { status, .. } => assert_eq!(status, "offline"),
        other => panic!("unexpected {:?}", other),
    }
    match stop_reply("s".to_string(), Err("Failed to stop server: x".to_string())) {
        AgentMessage::Error { message } => assert_eq!(message, "Failed to stop server: x"),
        other => panic!("unexpected {:?}", other),
    }
}
