use servermint::manager::ServerManager;
use servermint::server::{required_java_release, ServerConfig, ServerError, ServerInfo};
use servermint::status::ServerStatus;

fn config(server_type: &str, version: &str, jvm_args: Option<&str>) -> ServerConfig {
    ServerConfig {
        name: "Survival".to_string(),
        path: "/srv/s1".to_string(),
        version: version.to_string(),
        server_type: server_type.to_string(),
        java_path: None,
        min_memory: 1024,
        max_memory: 2048,
        jvm_args: jvm_args.map(|s| s.to_string()),
        port: 25565,
    }
}

fn manager_with(id: &str, cfg: ServerConfig) -> ServerManager {
    let mut m = ServerManager::new();
    assert_eq!(m.add_server(id.to_string(), cfg), Ok(()));
    m
}

#[test]
fn status_transition_table() {
    assert!(ServerStatus::Offline.can_transition_to(ServerStatus::Starting));
    assert!(ServerStatus::Starting.can_transition_to(ServerStatus::Online));
    assert!(ServerStatus::Online.can_transition_to(ServerStatus::Stopping));
    assert!(ServerStatus::Stopping.can_transition_to(ServerStatus::Offline));
    assert!(ServerStatus::Online.can_transition_to(ServerStatus::Error));
    assert!(ServerStatus::Error.can_transition_to(ServerStatus::Starting));
    assert!(!ServerStatus::Offline.can_transition_to(ServerStatus::Online));
    assert!(!ServerStatus::Error.can_transition_to(ServerStatus::Online));
    assert!(!ServerStatus::Stopping.can_transition_to(ServerStatus::Starting));
    assert!(ServerStatus::Starting.can_transition_to(ServerStatus::Offline));
    assert!(ServerStatus::Starting.can_transition_to(ServerStatus::Stopping));
    assert!(!ServerStatus::Online.can_transition_to(ServerStatus::Offline));
}

#[test]
fn java_launch_command() {
    let cfg = config("paper", "1.20.1", Some("-XX:+UseG1GC  -Dfile.encoding=UTF-8"));
    assert_eq!(cfg.launch_artifact(), "/srv/s1/server.jar");
    let cmd = cfg.launch_command("java".to_string());
    assert_eq!(cmd.program, "java");
    assert_eq!(cmd.working_dir, "/srv/s1");
    assert_eq!(
        cmd.args,
        vec!["-Xms1024M", "-Xmx2048M", "-XX:+UseG1GC", "-Dfile.encoding=UTF-8", "-jar", "server.jar", "nogui"]
    );
}

#[test]
fn php_launch_command_ignores_case() {
    let cfg = config("PocketMine", "5.0", None);
    assert!(cfg.is_php_runtime());
    assert_eq!(cfg.launch_artifact(), "/srv/s1/PocketMine-MP.phar");
    let cmd = cfg.launch_command("php".to_string());
    assert_eq!(cmd.args, vec!["PocketMine-MP.phar"]);
}

#[test]
fn java_release_by_version() {
    assert_eq!(required_java_release("1.21.4"), "21");
    assert_eq!(required_java_release("1.22"), "21");
    assert_eq!(required_java_release("1.20.1"), "17");
    assert_eq!(required_java_release(""), "17");
    let big = config("paper", "1.20.1", None);
    let cmd = ServerConfig { min_memory: 0, max_memory: 4_294_967_295, ..big }.launch_command("java".to_string());
    assert_eq!(&cmd.args[..2], &["-Xms0M".to_string(), "-Xmx4294967295M".to_string()]);
}

#[test]
fn scenario_paper_server_lifecycle() {
    let mut m = manager_with("s1", config("paper", "1.20.1", None));
    assert_eq!(m.get_server_info("s1").unwrap().status, ServerStatus::Offline);
    let cmd = m.start_server("s1", true, "java".to_string()).unwrap();
    assert_eq!(cmd.args.last().unwrap(), "nogui");
    assert_eq!(m.get_server_info("s1").unwrap().status, ServerStatus::Starting);
    assert_eq!(m.mark_running("s1", 4242), Ok(()));
    assert_eq!(m.get_server_info("s1").unwrap().status, ServerStatus::Online);
    assert_eq!(m.append_output("s1", "[Server thread/INFO]: Done (3.2s)!".to_string()), Ok(()));
    let out = m.get_server_output("s1", 10).unwrap();
    assert!(!out.is_empty());
    assert_eq!(out, vec!["[Server thread/INFO]: Done (3.2s)!"]);
    assert_eq!(m.stop_server("s1"), Ok(Some(4242)));
    assert_eq!(m.get_server_info("s1").unwrap().status, ServerStatus::Offline);
    assert_eq!(m.send_server_command("s1", "list"), Err(ServerError::NotRunning));
    assert_eq!(m.stop_server("s1"), Err(ServerError::NotRunning));
}

#[test]
fn start_then_stop_without_spawn_leaves_offline() {
    let mut m = manager_with("s2", config("vanilla", "1.21", None));
    assert!(m.start_server("s2", true, "java".to_string()).is_ok());
    assert_eq!(m.stop_server("s2"), Ok(None));
    assert_eq!(m.get_server_info("s2").unwrap().status, ServerStatus::Offline);
    assert_eq!(m.stop_server("s2"), Err(ServerError::NotRunning));
}

#[test]
fn start_on_online_server_is_refused() {
    let mut m = manager_with("s1", config("paper", "1.20.1", None));
    m.start_server("s1", true, "java".to_string()).unwrap();
    m.mark_running("s1", 77).unwrap();
    assert_eq!(m.start_server("s1", true, "java".to_string()).err(), Some(ServerError::AlreadyRunning));
    assert_eq!(m.get_server_info("s1").unwrap().status, ServerStatus::Online);
    assert_eq!(m.stop_server("s1"), Ok(Some(77)));
}

#[test]
fn start_errors() {
    let mut m = manager_with("s1", config("paper", "1.20.1", None));
    assert_eq!(m.start_server("nope", true, "java".to_string()).err(), Some(ServerError::NotFound));
    assert_eq!(m.start_server("s1", false, "java".to_string()).err(), Some(ServerError::MissingBinary));
    assert_eq!(m.get_server_info("s1").unwrap().status, ServerStatus::Offline);
}

#[test]
fn spawn_failure_returns_to_offline() {
    let mut m = manager_with("s1", config("paper", "1.20.1", None));
    m.start_server("s1", true, "java".to_string()).unwrap();
    assert_eq!(m.spawn_failed("s1", "No such file".to_string()), ServerError::SpawnFailed("No such file".to_string()));
    assert_eq!(m.get_server_info("s1").unwrap().status, ServerStatus::Offline);
    assert_eq!(m.spawn_failed("ghost", "x".to_string()), ServerError::NotFound);
}

#[test]
fn failure_mid_run_sets_error_and_restart_is_allowed() {
    let mut m = manager_with("s1", config("paper", "1.20.1", None));
    m.start_server("s1", true, "java".to_string()).unwrap();
    m.mark_running("s1", 9).unwrap();
    assert_eq!(m.mark_failed("s1"), Ok(()));
    assert_eq!(m.get_server_info("s1").unwrap().status, ServerStatus::Error);
    assert_eq!(m.mark_failed("s1"), Err(ServerError::NotRunning));
    assert!(m.start_server("s1", true, "java".to_string()).is_ok());
    assert_eq!(m.get_server_info("s1").unwrap().status, ServerStatus::Starting);
}

#[test]
fn mark_running_needs_a_launch() {
    let mut m = manager_with("s1", config("paper", "1.20.1", None));
    assert_eq!(m.mark_running("s1", 1), Err(ServerError::NotRunning));
    assert_eq!(m.mark_running("zz", 1), Err(ServerError::NotFound));
}

#[test]
fn command_text_gets_newline() {
    let mut m = manager_with("s1", config("paper", "1.20.1", None));
    assert_eq!(m.send_server_command("s1", "say hi"), Err(ServerError::NotRunning));
    assert_eq!(m.send_server_command("s9", "say hi"), Err(ServerError::NotFound));
    m.start_server("s1", true, "java".to_string()).unwrap();
    m.mark_running("s1", 5).unwrap();
    assert_eq!(m.send_server_command("s1", "say hi"), Ok("say hi\n".to_string()));
}

#[test]
fn output_tail_keeps_last_lines() {
    let mut m = manager_with("s1", config("paper", "1.20.1", None));
    for k in 0..5 {
        m.append_output("s1", format!("line {}", k)).unwrap();
    }
    assert_eq!(m.get_server_output("s1", 2).unwrap(), vec!["line 3", "line 4"]);
    assert_eq!(m.get_server_output("s1", 50).unwrap().len(), 5);
    assert_eq!(m.get_server_output("s1", 0).unwrap().len(), 0);
    assert_eq!(m.get_server_output("x", 3), Err(ServerError::NotFound));
    assert_eq!(m.append_output("x", "y".to_string()), Err(ServerError::NotFound));
}

#[test]
fn add_duplicate_and_remove() {
    let mut m = manager_with("s1", config("paper", "1.20.1", None));
    assert_eq!(m.add_server("s1".to_string(), config("vanilla", "1.21", None)), Err(ServerError::AlreadyExists));
    assert_eq!(m.len(), 1);
    m.start_server("s1", true, "java".to_string()).unwrap();
    m.mark_running("s1", 31).unwrap();
    assert_eq!(m.remove_server("s1"), Ok(Some(31)));
    assert_eq!(m.remove_server("s1"), Err(ServerError::NotFound));
    assert!(m.get_server_info("s1").is_err());
    assert_eq!(m.len(), 0);
}

#[test]
fn list_and_clear() {
    let mut m = manager_with("a", config("paper", "1.20.1", None));
    m.add_server("b".to_string(), config("vanilla", "1.21", None)).unwrap();
    m.start_server("b", true, "java".to_string()).unwrap();
    m.mark_running("b", 12).unwrap();
    let list = m.list_servers();
    assert_eq!(list.len(), 2);
    assert_eq!(list[0].id, "a");
    assert_eq!(list[1].status, ServerStatus::Online);
    assert_eq!(list[1].max_players, 20);
    assert_eq!(list[1].players, 0);
    assert_eq!(m.clear_all_servers(), vec![12]);
    assert_eq!(m.len(), 0);
}

#[test]
fn restore_comes_back_offline_and_last_wins() {
    let saved = vec![
        ServerInfo { id: "a".to_string(), config: config("paper", "1.20.1", None), status: ServerStatus::Online, players: 3, max_players: 20 },
        ServerInfo { id: "b".to_string(), config: config("vanilla", "1.21", None), status: ServerStatus::Error, players: 0, max_players: 20 },
        ServerInfo { id: "a".to_string(), config: config("fabric", "1.19", None), status: ServerStatus::Starting, players: 0, max_players: 20 },
    ];
    let m = ServerManager::from_saved(saved);
    assert_eq!(m.len(), 2);
    let a = m.get_server_info("a").unwrap();
    assert_eq!(a.status, ServerStatus::Offline);
    assert_eq!(a.config.server_type, "fabric");
    assert_eq!(m.get_server_info("b").unwrap().status, ServerStatus::Offline);
    assert!(m.get_server_output("a", 10).unwrap().is_empty());
}

#[test]
fn php_kind_needs_lowered_text() {
    assert!(servermint::server::is_php_kind("pocketmine"));
    assert!(!servermint::server::is_php_kind("PocketMine"));
    assert!(!servermint::server::is_php_kind("paper"));
}

#[test]
fn launch_command_from_given_words() {
    let cfg = config("paper", "1.20.1", Some("ignored here"));
    let extra = vec!["-Da=1".to_string(), "-Db=2".to_string()];
    let cmd = cfg.launch_command_for(false, &extra, "/opt/java".to_string());
    assert_eq!(cmd.program, "/opt/java");
    assert_eq!(cmd.args, vec!["-Xms1024M", "-Xmx2048M", "-Da=1", "-Db=2", "-jar", "server.jar", "nogui"]);
    let php = cfg.launch_command_for(true, &extra, "php".to_string());
    assert_eq!(php.args, vec!["PocketMine-MP.phar"]);
}

#[test]
fn ids_by_status_pick_servers_to_act_on() {
    let mut m = manager_with("a", config("paper", "1.20.1", None));
    m.add_server("b".to_string(), config("paper", "1.20.1", None)).unwrap();
    m.add_server("c".to_string(), config("paper", "1.20.1", None)).unwrap();
    m.start_server("b", true, "java".to_string()).unwrap();
    m.mark_running("b", 3).unwrap();
    assert_eq!(m.ids_with_status(ServerStatus::Offline), vec!["a", "c"]);
    assert_eq!(m.ids_with_status(ServerStatus::Online), vec!["b"]);
    assert!(m.ids_with_status(ServerStatus::Error).is_empty());
    assert_eq!(m.server_ids(), vec!["a", "b", "c"]);
}
