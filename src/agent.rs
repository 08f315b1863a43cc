use vstd::prelude::*;
use vstd::string::*;

use crate::manager::{has_id, slot, stop_outcome, tail, EntryView, ServerManager};
use crate::relay::{AgentMessage, AgentServer, ClientMessage};
use crate::server::{error_text, ServerConfig, ServerError, ServerInfo};
use crate::status::{status_name, ServerStatus};
use crate::text::{has_prefix, join2, join3, lines_of, split_lines, texts};

verus! {

/// What the agent does for one owner command. The library decides; the
/// host performs any outside work and sends the reply.
#[derive(Debug)]
pub enum AgentAction {
    /// Send this frame back.
    Reply(AgentMessage),
    /// Launch the server (see `ServerManager::start_server`), then report its status.
    Launch { server_id: String },
    /// Signal the process, if one was spawned, then report the server stopped.
    Signal { server_id: String, pid: Option<u32> },
    /// Write `text` to the server's standard input, then report the result.
    WriteStdin { server_id: String, command_id: String, text: String },
    /// Sample the host's telemetry and send it as a `NodeInfo` frame.
    SampleNodeInfo,
    /// Create the new server's directory, then send `reply`.
    Create { directory: String, reply: AgentMessage },
}

/// Memory bounds, in megabytes, and port of servers an agent creates.
pub const AGENT_MIN_MEMORY: u32 = 1024;
pub const AGENT_MAX_MEMORY: u32 = 2048;
pub const AGENT_PORT: u16 = 25565;

/// The configuration an agent gives a server it creates under `base_dir`.
pub open spec fn created_config(c: ServerConfig, name: Seq<char>, server_type: Seq<char>, version: Seq<char>, path: Seq<char>) -> bool {
    &&& c.name@ == name
    &&& c.path@ == path
    &&& c.version@ == version
    &&& c.server_type@ == server_type
    &&& c.java_path.is_none()
    &&& c.min_memory == AGENT_MIN_MEMORY
    &&& c.max_memory == AGENT_MAX_MEMORY
    &&& c.jvm_args.is_none()
    &&& c.port == AGENT_PORT
}

/// How a server appears in a `ServerList` frame.
pub open spec fn listed(a: AgentServer, e: EntryView) -> bool {
    &&& a.id@ == e.id@
    &&& a.name@ == e.config.name@
    &&& a.server_type@ == e.config.server_type@
    &&& a.version@ == e.config.version@
    &&& a.status@ == status_name(e.status)
}

/// What `handle_server_message` does with a `SendCommand` on registry `s`:
/// an unknown or stopped server earns a failed `CommandResult`; a running one
/// gets the command line written to its standard input.
pub open spec fn send_outcome(s: Seq<EntryView>, server_id: Seq<char>, command: Seq<char>, command_id: Seq<char>, r: AgentAction) -> bool {
    &&& !has_id(s, server_id) ==> (r is Reply && r->Reply_0 is CommandResult)
        && r->Reply_0->CommandResult_command_id@ == command_id
        && !r->Reply_0->CommandResult_success
        && r->Reply_0->CommandResult_message@ == error_text(ServerError::NotFound)
    &&& forall|i: int| #[trigger] slot(s, server_id, i) ==> {
        if s[i].handle.is_none() {
            &&& (r is Reply && r->Reply_0 is CommandResult)
            &&& r->Reply_0->CommandResult_command_id@ == command_id
            &&& !r->Reply_0->CommandResult_success
            &&& r->Reply_0->CommandResult_message@ == error_text(ServerError::NotRunning)
        } else {
            &&& r is WriteStdin
            &&& r->WriteStdin_server_id@ == server_id
            &&& r->WriteStdin_command_id@ == command_id
            &&& r->WriteStdin_text@ == command + "\n"@
        }
    }
}

fn agent_server(info: &ServerInfo) -> (r: AgentServer)
    ensures
        r.id@ == info.id@,
        r.name@ == info.config.name@,
        r.server_type@ == info.config.server_type@,
        r.version@ == info.config.version@,
        r.status@ == status_name(info.status),
{
    AgentServer {
        id: info.id.clone(),
        name: info.config.name.clone(),
        server_type: info.config.server_type.clone(),
        version: info.config.version.clone(),
        status: info.status.name(),
    }
}

/// Decides what the agent does for `msg`, applying any change to the
/// agent's own registry `mgr`. A created server gets the id `new_id` and
/// lives in `base_dir/new_id`.
pub fn handle_server_message(mgr: &mut ServerManager, msg: &ClientMessage, new_id: &str, base_dir: &str) -> (r: AgentAction)
    requires
        old(mgr).wf(),
    ensures
        final(mgr).wf(),
        match *msg {
            ClientMessage::RequestNodeInfo => r is SampleNodeInfo && final(mgr)@ == old(mgr)@,
            ClientMessage::RequestServerList => {
                &&& final(mgr)@ == old(mgr)@
                &&& (r is Reply && r->Reply_0 is ServerList)
                &&& r->Reply_0->ServerList_servers@.len() == old(mgr)@.len()
                &&& forall|i: int| 0 <= i < old(mgr)@.len() ==> listed(#[trigger] r->Reply_0->ServerList_servers@[i], old(mgr)@[i])
            },
            ClientMessage::CreateServer { server_name, server_type, version } => {
                &&& has_id(old(mgr)@, new_id@) ==> {
                    &&& final(mgr)@ == old(mgr)@
                    &&& (r is Reply && r->Reply_0 is CommandResult)
                    &&& r->Reply_0->CommandResult_command_id@ == "create"@
                    &&& !r->Reply_0->CommandResult_success
                    &&& r->Reply_0->CommandResult_message@ == error_text(ServerError::AlreadyExists)
                }
                &&& !has_id(old(mgr)@, new_id@) ==> {
                    &&& final(mgr)@.len() == old(mgr)@.len() + 1
                    &&& final(mgr)@.drop_last() == old(mgr)@
                    &&& final(mgr)@.last().id@ == new_id@
                    &&& created_config(final(mgr)@.last().config, server_name@, server_type@, version@, base_dir@ + "/"@ + new_id@)
                    &&& (r is Create && r->Create_reply is CommandResult)
                    &&& r->Create_directory@ == base_dir@ + "/"@ + new_id@
                    &&& r->Create_reply->CommandResult_command_id@ == "create"@
                    &&& r->Create_reply->CommandResult_success
                    &&& r->Create_reply->CommandResult_message@ == "Server created with ID: "@ + new_id@
                }
            },
            ClientMessage::StartServer { server_id } => {
                &&& final(mgr)@ == old(mgr)@
                &&& r is Launch
                &&& r->Launch_server_id@ == server_id@
            },
            ClientMessage::StopServer { server_id } => exists|res: Result<Option<u32>, ServerError>| {
                &&& stop_outcome(old(mgr)@, server_id@, res, final(mgr)@)
                &&& res is Ok ==> r is Signal && r->Signal_server_id@ == server_id@ && r->Signal_pid == res->Ok_0
                &&& res is Err ==> (r is Reply && r->Reply_0 is Error)
                    && r->Reply_0->Error_message@ == error_text(res->Err_0)
            },
            ClientMessage::SendCommand { server_id, command, command_id } => {
                &&& final(mgr)@ == old(mgr)@
                &&& send_outcome(old(mgr)@, server_id@, command@, command_id@, r)
            },
            ClientMessage::RequestLogs { server_id, lines } => {
                &&& final(mgr)@ == old(mgr)@
                &&& !has_id(old(mgr)@, server_id@) ==> (r is Reply && r->Reply_0 is Error)
                    && r->Reply_0->Error_message@ == error_text(ServerError::NotFound)
                &&& forall|i: int| #[trigger] slot(old(mgr)@, server_id@, i) ==> {
                    &&& (r is Reply && r->Reply_0 is ServerLogs)
                    &&& r->Reply_0->ServerLogs_server_id@ == server_id@
                    &&& texts(r->Reply_0->ServerLogs_logs@) == tail(old(mgr)@[i].output, lines as nat)
                }
            },
        },
{
    match msg {
        ClientMessage::RequestNodeInfo => AgentAction::SampleNodeInfo,
        ClientMessage::RequestServerList => {
            let infos = mgr.list_servers();
            let mut servers: Vec<AgentServer> = Vec::new();
            let mut i: usize = 0;
            while i < infos.len()
                invariant
                    infos@ == mgr@.map_values(|e: EntryView| crate::manager::info_of(e)),
                    i <= infos@.len(),
                    servers@.len() == i,
                    forall|k: int| 0 <= k < i ==> listed(#[trigger] servers@[k], mgr@[k]),
                decreases infos@.len() - i,
            {
                servers.push(agent_server(&infos[i]));
                i = i + 1;
            }
            AgentAction::Reply(AgentMessage::ServerList { servers })
        },
        ClientMessage::CreateServer { server_name, server_type, version } => {
            let directory = join3(base_dir, "/", new_id);
            let config = ServerConfig {
                name: server_name.clone(),
                path: directory.clone(),
                version: version.clone(),
                server_type: server_type.clone(),
                java_path: None,
                min_memory: AGENT_MIN_MEMORY,
                max_memory: AGENT_MAX_MEMORY,
                jvm_args: None,
                port: AGENT_PORT,
            };
            match mgr.add_server(new_id.to_string(), config) {
                Ok(()) => AgentAction::Create {
                    directory,
                    reply: AgentMessage::CommandResult {
                        command_id: "create".to_string(),
                        success: true,
                        message: join2("Server created with ID: ", new_id),
                    },
                },
                Err(e) => AgentAction::Reply(AgentMessage::CommandResult {
                    command_id: "create".to_string(),
                    success: false,
                    message: e.message(),
                }),
            }
        },
        ClientMessage::StartServer { server_id } => AgentAction::Launch { server_id: server_id.clone() },
        ClientMessage::StopServer { server_id } => {
            let res = mgr.stop_server(server_id.as_str());
            match res {
                Ok(pid) => AgentAction::Signal { server_id: server_id.clone(), pid },
                Err(e) => AgentAction::Reply(AgentMessage::Error { message: e.message() }),
            }
        },
        ClientMessage::SendCommand { server_id, command, command_id } => {
            match mgr.send_server_command(server_id.as_str(), command.as_str()) {
                Ok(text) => AgentAction::WriteStdin { server_id: server_id.clone(), command_id: command_id.clone(), text },
                Err(e) => AgentAction::Reply(AgentMessage::CommandResult {
                    command_id: command_id.clone(),
                    success: false,
                    message: e.message(),
                }),
            }
        },
        ClientMessage::RequestLogs { server_id, lines } => {
            match mgr.get_server_output(server_id.as_str(), *lines) {
                Ok(logs) => AgentAction::Reply(AgentMessage::ServerLogs { server_id: server_id.clone(), logs }),
                Err(e) => AgentAction::Reply(AgentMessage::Error { message: e.message() }),
            }
        },
    }
}


/// The server name a `server.properties` text gives: the rest of its last
/// line that starts with `motd=`.
pub open spec fn motd_in(lines: Seq<Seq<char>>) -> Option<Seq<char>>
    decreases lines.len(),
{
    if lines.len() == 0 {
        None
    } else if "motd="@.is_prefix_of(lines.last()) {
        Some(lines.last().subrange(5, lines.last().len() as int))
    } else {
        motd_in(lines.drop_last())
    }
}

/// The server name given by the lines of a `server.properties` file.
pub fn motd_from_lines(lines: &Vec<String>) -> (r: Option<String>)
    ensures
        match r {
            Some(m) => motd_in(texts(lines@)) == Some(m@),
            None => motd_in(texts(lines@)).is_none(),
        },
{
    proof {
        reveal_strlit("motd=");
        assert("motd="@.len() == 5);
    }
    let mut k: usize = lines.len();
    assert(texts(lines@).subrange(0, k as int) =~= texts(lines@));
    while k > 0
        invariant
            k <= lines@.len(),
            motd_in(texts(lines@)) == motd_in(texts(lines@).subrange(0, k as int)),
        decreases k,
    {
        let line = lines[k - 1].as_str();
        let ghost sub = texts(lines@).subrange(0, k as int);
        assert(sub.last() == line@);
        assert(sub.drop_last() =~= texts(lines@).subrange(0, k - 1));
        if has_prefix(line, "motd=") {
            let n = line.unicode_len();
            proof { reveal_strlit("motd="); }
            assert(line@.len() >= 5);
            return Some(line.substring_char(5, n).to_string());
        }
        k = k - 1;
    }
    None
}

/// The server name a `server.properties` text gives, if any.
pub fn properties_motd(text: &str) -> (r: Option<String>)
    ensures
        match r {
            Some(m) => motd_in(lines_of(text@)) == Some(m@),
            None => motd_in(lines_of(text@)).is_none(),
        },
{
    let lines = split_lines(text);
    motd_from_lines(&lines)
}

/// The configuration of a server found on disk in `dir_path` under the
/// directory name `id`: named by its properties if they give a name, Paper
/// 1.20.1 when the Paper cache is present, otherwise vanilla of unknown
/// version.
pub fn discovered_config(id: &str, dir_path: &str, motd: Option<String>, paper_cache_present: bool) -> (r: ServerConfig)
    ensures
        r.name@ == (match motd {
            Some(m) => m@,
            None => id@,
        }),
        r.path@ == dir_path@,
        paper_cache_present ==> r.server_type@ == "paper"@ && r.version@ == "1.20.1"@,
        !paper_cache_present ==> r.server_type@ == "vanilla"@ && r.version@ == "unknown"@,
        r.java_path.is_none(),
        r.jvm_args.is_none(),
        r.min_memory == AGENT_MIN_MEMORY,
        r.max_memory == AGENT_MAX_MEMORY,
        r.port == AGENT_PORT,
{
    let name = match motd {
        Some(m) => m,
        None => id.to_string(),
    };
    let (server_type, version) = if paper_cache_present {
        ("paper".to_string(), "1.20.1".to_string())
    } else {
        ("vanilla".to_string(), "unknown".to_string())
    };
    ServerConfig {
        name,
        path: dir_path.to_string(),
        version,
        server_type,
        java_path: None,
        min_memory: AGENT_MIN_MEMORY,
        max_memory: AGENT_MAX_MEMORY,
        jvm_args: None,
        port: AGENT_PORT,
    }
}


/// The reply to a `SendCommand` once the write to the server's standard
/// input has been made: "Command sent" when it succeeded, else the failure.
pub fn command_reply(command_id: String, written: Result<(), String>) -> (r: AgentMessage)
    ensures
        r is CommandResult,
        r->CommandResult_command_id == command_id,
        r->CommandResult_success == (written is Ok),
        written is Ok ==> r->CommandResult_message@ == "Command sent"@,
        written is Err ==> r->CommandResult_message == written->Err_0,
{
    match written {
        Ok(()) => AgentMessage::CommandResult { command_id, success: true, message: "Command sent".to_string() },
        Err(m) => AgentMessage::CommandResult { command_id, success: false, message: m },
    }
}

/// The reply once a launch has been attempted: the server is online, or the
/// failure.
pub fn launch_reply(server_id: String, launched: Result<(), String>) -> (r: AgentMessage)
    ensures
        launched is Ok ==> r is ServerStatus && r->ServerStatus_server_id == server_id
            && r->ServerStatus_status@ == status_name(ServerStatus::Online),
        launched is Err ==> r is Error && r->Error_message == launched->Err_0,
{
    match launched {
        Ok(()) => AgentMessage::ServerStatus { server_id, status: ServerStatus::Online.name() },
        Err(m) => AgentMessage::Error { message: m },
    }
}

/// The reply once a stop has been carried out: the server is offline, or
/// the failure.
pub fn stop_reply(server_id: String, stopped: Result<(), String>) -> (r: AgentMessage)
    ensures
        stopped is Ok ==> r is ServerStatus && r->ServerStatus_server_id == server_id
            && r->ServerStatus_status@ == status_name(ServerStatus::Offline),
        stopped is Err ==> r is Error && r->Error_message == stopped->Err_0,
{
    match stopped {
        Ok(()) => AgentMessage::ServerStatus { server_id, status: ServerStatus::Offline.name() },
        Err(m) => AgentMessage::Error { message: m },
    }
}

/// A command for a running server is handed to its standard input, and
/// once that write succeeds the owner is told "Command sent".
pub proof fn lemma_running_command_is_sent(
    s: Seq<EntryView>,
    server_id: Seq<char>,
    command: Seq<char>,
    command_id: Seq<char>,
    i: int,
    r: AgentAction,
    reply: AgentMessage,
)
    requires
        slot(s, server_id, i),
        s[i].handle.is_some(),
        send_outcome(s, server_id, command, command_id, r),
        r is WriteStdin ==> reply is CommandResult && reply->CommandResult_command_id == r->WriteStdin_command_id
            && reply->CommandResult_success && reply->CommandResult_message@ == "Command sent"@,
    ensures
        r is WriteStdin,
        r->WriteStdin_text@ == command + "\n"@,
        reply is CommandResult,
        reply->CommandResult_command_id@ == command_id,
        reply->CommandResult_success,
        reply->CommandResult_message@ == "Command sent"@,
{
    assert(slot(s, server_id, i));
}

} // verus!
