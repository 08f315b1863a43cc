use vstd::prelude::*;
use vstd::string::*;

use crate::server::{
    launch_args, LaunchCommand, ProcessHandle, ServerConfig, ServerEntry,
    ServerError, ServerInfo, DEFAULT_MAX_PLAYERS,
};
use crate::status::{moves, ServerStatus};
use crate::text::texts;

verus! {

/// The registry of servers together with the supervision state of each.
///
/// Each server id appears at most once, so there is at most one live
/// process handle per id.
pub struct ServerManager {
    servers: Vec<ServerEntry>,
}

/// What the contracts see of an entry: its output as lines of characters.
pub struct EntryView {
    pub id: String,
    pub config: ServerConfig,
    pub status: ServerStatus,
    pub handle: Option<ProcessHandle>,
    pub output: Seq<Seq<char>>,
}

impl View for ServerEntry {
    type V = EntryView;

    open spec fn view(&self) -> EntryView {
        EntryView {
            id: self.id,
            config: self.config,
            status: self.status,
            handle: self.handle,
            output: texts(self.output@),
        }
    }
}

impl View for ServerManager {
    type V = Seq<EntryView>;

    closed spec fn view(&self) -> Seq<EntryView> {
        self.servers@.map_values(|e: ServerEntry| e@)
    }
}

/// Entry `i` of `s` carries id `id`.
pub open spec fn slot(s: Seq<EntryView>, id: Seq<char>, i: int) -> bool {
    0 <= i < s.len() && s[i].id@ == id
}

/// Some entry of `s` carries id `id`.
pub open spec fn has_id(s: Seq<EntryView>, id: Seq<char>) -> bool {
    exists|i: int| #[trigger] slot(s, id, i)
}

pub open spec fn ids_unique(s: Seq<EntryView>) -> bool {
    forall|i: int, j: int|
        0 <= i < s.len() && 0 <= j < s.len() && #[trigger] s[i].id@ == #[trigger] s[j].id@ ==> i == j
}

/// The status and the handle agree: a handle exists exactly while a launch
/// is under way (`Starting`, no pid yet) or the process runs (`Online`, with pid).
/// `Stopping` is never held between operations: a stop is a hard kill.
pub open spec fn entry_consistent(e: EntryView) -> bool {
    match e.status {
        ServerStatus::Starting => e.handle == Some(ProcessHandle { pid: None }),
        ServerStatus::Online => e.handle.is_some() && e.handle.unwrap().pid.is_some(),
        ServerStatus::Stopping => false,
        _ => e.handle.is_none(),
    }
}

pub open spec fn entries_wf(s: Seq<EntryView>) -> bool {
    &&& ids_unique(s)
    &&& forall|i: int| 0 <= i < s.len() ==> entry_consistent(#[trigger] s[i])
}

/// Every status change from `s` to `t` follows the transition table.
pub open spec fn follows_table(s: Seq<EntryView>, t: Seq<EntryView>) -> bool {
    &&& s.len() == t.len()
    &&& forall|i: int| 0 <= i < s.len() ==> moves(#[trigger] s[i].status, t[i].status)
}

/// `e` with a new status and handle, all else kept.
pub open spec fn with_state(e: EntryView, status: ServerStatus, handle: Option<ProcessHandle>) -> EntryView {
    EntryView { id: e.id, config: e.config, status, handle, output: e.output }
}

/// `e` with one more line of output.
pub open spec fn with_line(e: EntryView, line: Seq<char>) -> EntryView {
    EntryView { id: e.id, config: e.config, status: e.status, handle: e.handle, output: e.output.push(line) }
}

/// The public description of an entry.
pub open spec fn info_of(e: EntryView) -> ServerInfo {
    ServerInfo { id: e.id, config: e.config, status: e.status, players: 0, max_players: DEFAULT_MAX_PLAYERS }
}

/// The pid of a handle, if the handle exists and its process was spawned.
pub open spec fn pid_of(h: Option<ProcessHandle>) -> Option<u32> {
    match h {
        Some(p) => p.pid,
        None => None,
    }
}

/// The last `n` lines of `out` (all of them when there are fewer).
pub open spec fn tail(out: Seq<Seq<char>>, n: nat) -> Seq<Seq<char>> {
    if n >= out.len() {
        out
    } else {
        out.subrange(out.len() - n, out.len() as int)
    }
}

/// What `start_server` does: refuse an unknown id, a live handle, or a missing
/// launch artifact; otherwise begin the launch and hand out the command.
pub open spec fn start_outcome(
    old: Seq<EntryView>,
    id: Seq<char>,
    artifact_present: bool,
    interpreter: Seq<char>,
    r: Result<LaunchCommand, ServerError>,
    new: Seq<EntryView>,
) -> bool {
    if !has_id(old, id) {
        r == Err::<LaunchCommand, ServerError>(ServerError::NotFound) && new == old
    } else {
        forall|i: int| #[trigger] slot(old, id, i) ==> {
            if old[i].handle.is_some() {
                r == Err::<LaunchCommand, ServerError>(ServerError::AlreadyRunning) && new == old
            } else if !artifact_present {
                r == Err::<LaunchCommand, ServerError>(ServerError::MissingBinary) && new == old
            } else {
                &&& r is Ok
                &&& r->Ok_0.program@ == interpreter
                &&& texts(r->Ok_0.args@) == launch_args(old[i].config)
                &&& r->Ok_0.working_dir@ == old[i].config.path@
                &&& new == old.update(i, with_state(old[i], ServerStatus::Starting, Some(ProcessHandle { pid: None })))
            }
        }
    }
}

/// What `mark_running` does: a launch under way becomes `Online` with its pid.
pub open spec fn running_outcome(
    old: Seq<EntryView>,
    id: Seq<char>,
    pid: u32,
    r: Result<(), ServerError>,
    new: Seq<EntryView>,
) -> bool {
    if !has_id(old, id) {
        r == Err::<(), ServerError>(ServerError::NotFound) && new == old
    } else {
        forall|i: int| #[trigger] slot(old, id, i) ==> {
            if old[i].status == ServerStatus::Starting {
                r == Ok::<(), ServerError>(()) && new == old.update(
                    i,
                    with_state(old[i], ServerStatus::Online, Some(ProcessHandle { pid: Some(pid) })),
                )
            } else {
                r == Err::<(), ServerError>(ServerError::NotRunning) && new == old
            }
        }
    }
}

/// What `stop_server` does: refuse an unknown id or one without a handle;
/// otherwise clear the handle, set `Offline`, and hand out the pid to signal.
pub open spec fn stop_outcome(
    old: Seq<EntryView>,
    id: Seq<char>,
    r: Result<Option<u32>, ServerError>,
    new: Seq<EntryView>,
) -> bool {
    if !has_id(old, id) {
        r == Err::<Option<u32>, ServerError>(ServerError::NotFound) && new == old
    } else {
        forall|i: int| #[trigger] slot(old, id, i) ==> {
            if old[i].handle.is_none() {
                r == Err::<Option<u32>, ServerError>(ServerError::NotRunning) && new == old
            } else {
                r == Ok::<Option<u32>, ServerError>(pid_of(old[i].handle))
                    && new == old.update(i, with_state(old[i], ServerStatus::Offline, None))
            }
        }
    }
}

proof fn lemma_slot_unique(s: Seq<EntryView>, id: Seq<char>, i: int)
    requires
        entries_wf(s),
        slot(s, id, i),
    ensures
        forall|j: int| #[trigger] slot(s, id, j) ==> j == i,
{
}

proof fn lemma_update_wf(s: Seq<EntryView>, i: int, e: EntryView)
    requires
        entries_wf(s),
        0 <= i < s.len(),
        e.id@ == s[i].id@,
        entry_consistent(e),
    ensures
        entries_wf(s.update(i, e)),
{
    let t = s.update(i, e);
    assert forall|a: int, b: int|
        0 <= a < t.len() && 0 <= b < t.len() && #[trigger] t[a].id@ == #[trigger] t[b].id@ implies a == b by {
        assert(t[a].id@ == s[a].id@);
        assert(t[b].id@ == s[b].id@);
    }
}

impl ServerManager {
    pub open spec fn wf(&self) -> bool {
        entries_wf(self@)
    }

    /// An empty registry.
    pub fn new() -> (r: ServerManager)
        ensures
            r.wf(),
            r@ == Seq::<EntryView>::empty(),
    {
        ServerManager { servers: Vec::new() }
    }

    /// The position of `id`, if registered.
    fn find(&self, id: &str) -> (r: Option<usize>)
        requires
            self.wf(),
        ensures
            match r {
                Some(i) => slot(self@, id@, i as int),
                None => !has_id(self@, id@),
            },
    {
        let key = id.to_string();
        let mut i: usize = 0;
        while i < self.servers.len()
            invariant
                key@ == id@,
                i <= self.servers@.len(),
                forall|j: int| 0 <= j < i ==> self.servers@[j].id@ != id@,
            decreases self.servers@.len() - i,
        {
            if self.servers[i].id == key {
                return Some(i);
            }
            i = i + 1;
        }
        assert forall|j: int| !slot(self@, id@, j) by {
            if 0 <= j < self.servers@.len() {
                assert(self.servers@[j].id@ != id@);
            }
        }
        None
    }

    /// The number of registered servers.
    pub fn len(&self) -> (r: usize)
        ensures
            r == self@.len(),
    {
        self.servers.len()
    }

    /// Registers a new server, `Offline` and with no output yet.
    pub fn add_server(&mut self, id: String, config: ServerConfig) -> (r: Result<(), ServerError>)
        requires
            old(self).wf(),
        ensures
            final(self).wf(),
            has_id(old(self)@, id@) ==> r == Err::<(), ServerError>(ServerError::AlreadyExists)
                && final(self)@ == old(self)@,
            !has_id(old(self)@, id@) ==> r == Ok::<(), ServerError>(()) && final(self)@ == old(self)@.push(
                EntryView { id, config, status: ServerStatus::Offline, handle: None, output: Seq::empty() },
            ),
    {
        if self.find(id.as_str()).is_some() {
            return Err(ServerError::AlreadyExists);
        }
        let entry = ServerEntry { id, config, status: ServerStatus::Offline, handle: None, output: Vec::new() };
        let ghost e = entry@;
        self.servers.push(entry);
        proof {
            assert(e.output =~= Seq::<Seq<char>>::empty());
            assert(self@ =~= old(self)@.push(e));
            assert forall|i: int, j: int|
                0 <= i < self@.len() && 0 <= j < self@.len() && #[trigger] self@[i].id@ == #[trigger] self@[j].id@
                implies i == j by {
                if i < old(self)@.len() && j == old(self)@.len() {
                    assert(slot(old(self)@, e.id@, i));
                }
                if j < old(self)@.len() && i == old(self)@.len() {
                    assert(slot(old(self)@, e.id@, j));
                }
            }
        }
        Ok(())
    }
}


impl ServerManager {
    /// Begins the launch of a registered server.
    ///
    /// `artifact_present` says whether the file named by
    /// [`ServerConfig::launch_artifact`] exists; `interpreter` is the program
    /// that runs it. On success the server is `Starting`, holds a handle
    /// without a pid, and the command to spawn is returned.
    pub fn start_server(&mut self, id: &str, artifact_present: bool, interpreter: String) -> (r: Result<
        LaunchCommand,
        ServerError,
    >)
        requires
            old(self).wf(),
        ensures
            final(self).wf(),
            follows_table(old(self)@, final(self)@),
            start_outcome(old(self)@, id@, artifact_present, interpreter@, r, final(self)@),
    {
        let i = match self.find(id) {
            Some(i) => i,
            None => return Err(ServerError::NotFound),
        };
        proof { lemma_slot_unique(self@, id@, i as int); }
        if self.servers[i].handle.is_some() {
            return Err(ServerError::AlreadyRunning);
        }
        if !artifact_present {
            return Err(ServerError::MissingBinary);
        }
        let cmd = self.servers[i].config.launch_command(interpreter);
        let ghost before = self@;
        self.servers[i].status = ServerStatus::Starting;
        self.servers[i].handle = Some(ProcessHandle { pid: None });
        proof {
            let e = with_state(before[i as int], ServerStatus::Starting, Some(ProcessHandle { pid: None }));
            assert(self@ =~= before.update(i as int, e));
            lemma_update_wf(before, i as int, e);
        }
        Ok(cmd)
    }
}


impl ServerManager {
    /// Records that the spawn of a launch under way succeeded: the server is
    /// `Online` and its handle carries the pid.
    pub fn mark_running(&mut self, id: &str, pid: u32) -> (r: Result<(), ServerError>)
        requires
            old(self).wf(),
        ensures
            final(self).wf(),
            follows_table(old(self)@, final(self)@),
            running_outcome(old(self)@, id@, pid, r, final(self)@),
    {
        let i = match self.find(id) {
            Some(i) => i,
            None => return Err(ServerError::NotFound),
        };
        proof { lemma_slot_unique(self@, id@, i as int); }
        if self.servers[i].status != ServerStatus::Starting {
            return Err(ServerError::NotRunning);
        }
        let ghost before = self@;
        self.servers[i].status = ServerStatus::Online;
        self.servers[i].handle = Some(ProcessHandle { pid: Some(pid) });
        proof {
            let e = with_state(before[i as int], ServerStatus::Online, Some(ProcessHandle { pid: Some(pid) }));
            assert(self@ =~= before.update(i as int, e));
            lemma_update_wf(before, i as int, e);
        }
        Ok(())
    }

    /// Records that the spawn of a launch under way failed. No process ever
    /// existed, so the server goes back to `Offline` without a handle. Returns
    /// the failure to hand to the caller.
    pub fn spawn_failed(&mut self, id: &str, os_error: String) -> (r: ServerError)
        requires
            old(self).wf(),
        ensures
            final(self).wf(),
            follows_table(old(self)@, final(self)@),
            !has_id(old(self)@, id@) ==> r == ServerError::NotFound && final(self)@ == old(self)@,
            forall|i: int| #[trigger] slot(old(self)@, id@, i) ==> {
                &&& r == ServerError::SpawnFailed(os_error)
                &&& old(self)@[i].status == ServerStatus::Starting ==> final(self)@ == old(self)@.update(
                    i,
                    with_state(old(self)@[i], ServerStatus::Offline, None),
                )
                &&& old(self)@[i].status != ServerStatus::Starting ==> final(self)@ == old(self)@
            },
    {
        let i = match self.find(id) {
            Some(i) => i,
            None => return ServerError::NotFound,
        };
        proof { lemma_slot_unique(self@, id@, i as int); }
        if self.servers[i].status == ServerStatus::Starting {
            let ghost before = self@;
            self.servers[i].status = ServerStatus::Offline;
            self.servers[i].handle = None;
            proof {
                let e = with_state(before[i as int], ServerStatus::Offline, None);
                assert(self@ =~= before.update(i as int, e));
                lemma_update_wf(before, i as int, e);
            }
        }
        ServerError::SpawnFailed(os_error)
    }

    /// Stops a server: its handle is cleared, it is `Offline`, and the pid of
    /// its process (if one was spawned) is returned for the caller to signal.
    pub fn stop_server(&mut self, id: &str) -> (r: Result<Option<u32>, ServerError>)
        requires
            old(self).wf(),
        ensures
            final(self).wf(),
            follows_table(old(self)@, final(self)@),
            stop_outcome(old(self)@, id@, r, final(self)@),
    {
        let i = match self.find(id) {
            Some(i) => i,
            None => return Err(ServerError::NotFound),
        };
        proof { lemma_slot_unique(self@, id@, i as int); }
        let pid = match self.servers[i].handle {
            Some(h) => h.pid,
            None => return Err(ServerError::NotRunning),
        };
        let ghost before = self@;
        self.servers[i].status = ServerStatus::Offline;
        self.servers[i].handle = None;
        proof {
            let e = with_state(before[i as int], ServerStatus::Offline, None);
            assert(self@ =~= before.update(i as int, e));
            lemma_update_wf(before, i as int, e);
        }
        Ok(pid)
    }

    /// Records a failure of a live process (it could not be signalled, or it
    /// died): the handle is cleared and the server is in `Error`.
    pub fn mark_failed(&mut self, id: &str) -> (r: Result<(), ServerError>)
        requires
            old(self).wf(),
        ensures
            final(self).wf(),
            follows_table(old(self)@, final(self)@),
            !has_id(old(self)@, id@) ==> r == Err::<(), ServerError>(ServerError::NotFound) && final(self)@ == old(self)@,
            forall|i: int| #[trigger] slot(old(self)@, id@, i) ==> {
                if old(self)@[i].handle.is_none() {
                    r == Err::<(), ServerError>(ServerError::NotRunning) && final(self)@ == old(self)@
                } else {
                    r == Ok::<(), ServerError>(()) && final(self)@ == old(self)@.update(
                        i,
                        with_state(old(self)@[i], ServerStatus::Error, None),
                    )
                }
            },
    {
        let i = match self.find(id) {
            Some(i) => i,
            None => return Err(ServerError::NotFound),
        };
        proof { lemma_slot_unique(self@, id@, i as int); }
        if self.servers[i].handle.is_none() {
            return Err(ServerError::NotRunning);
        }
        let ghost before = self@;
        self.servers[i].status = ServerStatus::Error;
        self.servers[i].handle = None;
        proof {
            let e = with_state(before[i as int], ServerStatus::Error, None);
            assert(self@ =~= before.update(i as int, e));
            lemma_update_wf(before, i as int, e);
        }
        Ok(())
    }

    /// Appends one line that the server's process wrote.
    pub fn append_output(&mut self, id: &str, line: String) -> (r: Result<(), ServerError>)
        requires
            old(self).wf(),
        ensures
            final(self).wf(),
            !has_id(old(self)@, id@) ==> r == Err::<(), ServerError>(ServerError::NotFound) && final(self)@ == old(self)@,
            forall|i: int| #[trigger] slot(old(self)@, id@, i) ==> r == Ok::<(), ServerError>(())
                && final(self)@ == old(self)@.update(i, with_line(old(self)@[i], line@)),
    {
        let i = match self.find(id) {
            Some(i) => i,
            None => return Err(ServerError::NotFound),
        };
        proof { lemma_slot_unique(self@, id@, i as int); }
        let ghost before = self@;
        let ghost out = self.servers@[i as int].output@;
        self.servers[i].output.push(line);
        proof {
            let e = with_line(before[i as int], line@);
            assert(texts(self.servers@[i as int].output@) =~= texts(out).push(line@));
            assert(self@ =~= before.update(i as int, e));
            lemma_update_wf(before, i as int, e);
        }
        Ok(())
    }

    /// The last `max_lines` lines of a server's output, as a snapshot.
    pub fn get_server_output(&self, id: &str, max_lines: usize) -> (r: Result<Vec<String>, ServerError>)
        requires
            self.wf(),
        ensures
            !has_id(self@, id@) ==> r == Err::<Vec<String>, ServerError>(ServerError::NotFound),
            forall|i: int| #[trigger] slot(self@, id@, i) ==> r is Ok
                && texts(r->Ok_0@) == tail(self@[i].output, max_lines as nat),
    {
        let i = match self.find(id) {
            Some(i) => i,
            None => return Err(ServerError::NotFound),
        };
        proof { lemma_slot_unique(self@, id@, i as int); }
        let out = &self.servers[i].output;
        let n = out.len();
        let start: usize = if max_lines >= n { 0 } else { n - max_lines };
        let mut lines: Vec<String> = Vec::new();
        let mut k: usize = start;
        while k < n
            invariant
                n == out@.len(),
                start <= k <= n,
                texts(lines@) == texts(out@).subrange(start as int, k as int),
            decreases n - k,
        {
            let ghost before = lines@;
            let line = out[k].clone();
            lines.push(line);
            proof {
                assert(lines@ == before.push(line));
                assert(texts(lines@) =~= texts(before).push(line@));
                assert(texts(out@).subrange(start as int, k + 1) =~= texts(out@).subrange(start as int, k as int).push(line@));
            }
            k = k + 1;
        }
        proof {
            assert(self@[i as int].output == texts(out@));
            if max_lines >= n {
                assert(texts(out@).subrange(0, n as int) =~= texts(out@));
            }
        }
        Ok(lines)
    }

    /// The text to write to a running server's standard input for `command`:
    /// the command followed by a newline.
    pub fn send_server_command(&self, id: &str, command: &str) -> (r: Result<String, ServerError>)
        requires
            self.wf(),
        ensures
            !has_id(self@, id@) ==> r == Err::<String, ServerError>(ServerError::NotFound),
            forall|i: int| #[trigger] slot(self@, id@, i) ==> {
                if self@[i].handle.is_none() {
                    r == Err::<String, ServerError>(ServerError::NotRunning)
                } else {
                    r is Ok && r->Ok_0@ == command@ + "\n"@
                }
            },
    {
        let i = match self.find(id) {
            Some(i) => i,
            None => return Err(ServerError::NotFound),
        };
        proof { lemma_slot_unique(self@, id@, i as int); }
        if self.servers[i].handle.is_none() {
            return Err(ServerError::NotRunning);
        }
        Ok(crate::text::join2(command, "\n"))
    }
}


impl ServerManager {
    fn info_at(&self, i: usize) -> (r: ServerInfo)
        requires
            i < self@.len(),
        ensures
            r == info_of(self@[i as int]),
    {
        let e = &self.servers[i];
        ServerInfo {
            id: e.id.clone(),
            config: e.config.duplicate(),
            status: e.status,
            players: 0,
            max_players: DEFAULT_MAX_PLAYERS,
        }
    }

    /// The description of one server.
    pub fn get_server_info(&self, id: &str) -> (r: Result<ServerInfo, ServerError>)
        requires
            self.wf(),
        ensures
            !has_id(self@, id@) ==> r == Err::<ServerInfo, ServerError>(ServerError::NotFound),
            forall|i: int| #[trigger] slot(self@, id@, i) ==> r == Ok::<ServerInfo, ServerError>(info_of(self@[i])),
    {
        match self.find(id) {
            Some(i) => {
                proof { lemma_slot_unique(self@, id@, i as int); }
                Ok(self.info_at(i))
            },
            None => Err(ServerError::NotFound),
        }
    }

    /// A point-in-time copy of every server's description, in registry order.
    pub fn list_servers(&self) -> (r: Vec<ServerInfo>)
        ensures
            r@ == self@.map_values(|e: EntryView| info_of(e)),
    {
        let mut out: Vec<ServerInfo> = Vec::new();
        let mut i: usize = 0;
        while i < self.servers.len()
            invariant
                i <= self@.len(),
                self@.len() == self.servers@.len(),
                out@ == self@.subrange(0, i as int).map_values(|e: EntryView| info_of(e)),
            decreases self.servers@.len() - i,
        {
            let info = self.info_at(i);
            let ghost before = out@;
            out.push(info);
            proof {
                assert(self@.subrange(0, i + 1).map_values(|e: EntryView| info_of(e)) =~= before.push(info));
            }
            i = i + 1;
        }
        proof {
            assert(self@.subrange(0, i as int) =~= self@);
        }
        out
    }

    /// Removes a server. Returns the pid of its process, if one was running,
    /// for the caller to signal.
    pub fn remove_server(&mut self, id: &str) -> (r: Result<Option<u32>, ServerError>)
        requires
            old(self).wf(),
        ensures
            final(self).wf(),
            !has_id(old(self)@, id@) ==> r == Err::<Option<u32>, ServerError>(ServerError::NotFound)
                && final(self)@ == old(self)@,
            forall|i: int| #[trigger] slot(old(self)@, id@, i) ==> r == Ok::<Option<u32>, ServerError>(
                pid_of(old(self)@[i].handle),
            ) && final(self)@ == old(self)@.remove(i),
            !has_id(final(self)@, id@),
    {
        let i = match self.find(id) {
            Some(i) => i,
            None => return Err(ServerError::NotFound),
        };
        proof { lemma_slot_unique(self@, id@, i as int); }
        let ghost before = self@;
        let e = self.servers.remove(i);
        let pid = match e.handle {
            Some(h) => h.pid,
            None => None,
        };
        proof {
            assert(self@ =~= before.remove(i as int));
            assert forall|a: int, b: int|
                0 <= a < self@.len() && 0 <= b < self@.len() && #[trigger] self@[a].id@ == #[trigger] self@[b].id@
                implies a == b by {
                let a2 = if a < i { a } else { a + 1 };
                let b2 = if b < i { b } else { b + 1 };
                assert(self@[a] == before[a2]);
                assert(self@[b] == before[b2]);
            }
            assert forall|k: int| 0 <= k < self@.len() implies entry_consistent(#[trigger] self@[k]) by {
                let k2 = if k < i { k } else { k + 1 };
                assert(self@[k] == before[k2]);
            }
            assert forall|k: int| !(#[trigger] slot(self@, id@, k)) by {
                if 0 <= k < self@.len() {
                    let k2 = if k < i { k } else { k + 1 };
                    assert(self@[k] == before[k2]);
                    assert(!slot(before, id@, k2) || k2 == i);
                }
            }
        }
        Ok(pid)
    }

    /// Removes every server. Returns the pids of the processes that were
    /// running, in registry order, for the caller to signal.
    pub fn clear_all_servers(&mut self) -> (r: Vec<u32>)
        requires
            old(self).wf(),
        ensures
            final(self).wf(),
            final(self)@.len() == 0,
            r@ == running_pids(old(self)@),
    {
        let mut pids: Vec<u32> = Vec::new();
        let mut i: usize = 0;
        while i < self.servers.len()
            invariant
                i <= self@.len(),
                self@.len() == self.servers@.len(),
                pids@ == running_pids(self@.subrange(0, i as int)),
            decreases self.servers@.len() - i,
        {
            proof {
                assert(self@.subrange(0, i + 1).drop_last() =~= self@.subrange(0, i as int));
            }
            match self.servers[i].handle {
                Some(h) => match h.pid {
                    Some(p) => pids.push(p),
                    None => {},
                },
                None => {},
            }
            i = i + 1;
        }
        proof {
            assert(self@.subrange(0, i as int) =~= self@);
        }
        self.servers = Vec::new();
        proof {
            assert(self@ =~= Seq::<EntryView>::empty());
        }
        pids
    }
}

/// The pids of the spawned processes among `s`, in order.
pub open spec fn running_pids(s: Seq<EntryView>) -> Seq<u32>
    decreases s.len(),
{
    if s.len() == 0 {
        Seq::empty()
    } else {
        match pid_of(s.last().handle) {
            Some(p) => running_pids(s.drop_last()).push(p),
            None => running_pids(s.drop_last()),
        }
    }
}


/// Index `k` is the last place in `saved` where its id occurs.
pub open spec fn last_occurrence(saved: Seq<ServerInfo>, k: int) -> bool {
    &&& 0 <= k < saved.len()
    &&& forall|k2: int| k < k2 < saved.len() ==> (#[trigger] saved[k2]).id@ != saved[k].id@
}

/// `s` is what a restart makes of the saved list: one `Offline` entry without
/// output per saved id, holding the configuration saved last under that id.
pub open spec fn restored_from(s: Seq<EntryView>, saved: Seq<ServerInfo>) -> bool {
    &&& forall|k: int| 0 <= k < saved.len() ==> has_id(s, (#[trigger] saved[k]).id@)
    &&& forall|i: int| 0 <= i < s.len() ==> {
        &&& (#[trigger] s[i]).status == ServerStatus::Offline
        &&& s[i].handle.is_none()
        &&& s[i].output.len() == 0
        &&& exists|k: int| #[trigger] last_occurrence(saved, k) && saved[k].id@ == s[i].id@ && saved[k].config == s[i].config
    }
}

impl ServerManager {
    /// Rebuilds the registry from a saved list at startup. Processes do not
    /// survive a restart, so every server comes back `Offline`; where an id
    /// was saved twice, the later configuration wins.
    pub fn from_saved(saved: Vec<ServerInfo>) -> (r: ServerManager)
        ensures
            r.wf(),
            restored_from(r@, saved@),
    {
        let mut m = ServerManager::new();
        let mut n: usize = 0;
        while n < saved.len()
            invariant
                n <= saved@.len(),
                m.wf(),
                restored_from(m@, saved@.subrange(0, n as int)),
            decreases saved@.len() - n,
        {
            let ghost pre = saved@.subrange(0, n as int);
            let ghost post = saved@.subrange(0, n + 1);
            let ghost before = m@;
            let info = &saved[n];
            let id = info.id.clone();
            let config = info.config.duplicate();
            match m.find(id.as_str()) {
                Some(i) => {
                    proof { lemma_slot_unique(m@, id@, i as int); }
                    m.servers[i].config = config;
                    proof {
                        assert(m@ =~= before.update(i as int, EntryView {
                            id: before[i as int].id,
                            config: info.config,
                            status: before[i as int].status,
                            handle: before[i as int].handle,
                            output: before[i as int].output,
                        }));
                        lemma_update_wf(before, i as int, m@[i as int]);
                        assert(last_occurrence(post, n as int));
                        assert forall|k: int| 0 <= k < post.len() implies has_id(m@, (#[trigger] post[k]).id@) by {
                            if k < n {
                                assert(post[k] == pre[k]);
                                assert(has_id(before, pre[k].id@));
                                let j = choose|j: int| slot(before, pre[k].id@, j);
                                assert(slot(m@, pre[k].id@, j));
                            } else {
                                assert(slot(m@, id@, i as int));
                            }
                        }
                        assert forall|j: int| 0 <= j < m@.len() implies {
                            &&& (#[trigger] m@[j]).status == ServerStatus::Offline
                            &&& m@[j].handle.is_none()
                            &&& m@[j].output.len() == 0
                            &&& exists|k: int| #[trigger] last_occurrence(post, k) && post[k].id@ == m@[j].id@ && post[k].config == m@[j].config
                        } by {
                            if j == i {
                                assert(last_occurrence(post, n as int));
                            } else {
                                let k = choose|k: int| #[trigger] last_occurrence(pre, k) && pre[k].id@ == before[j].id@ && pre[k].config == before[j].config;
                                assert(before[j].id@ != id@);
                                assert(post[k] == pre[k]);
                                assert(last_occurrence(post, k));
                            }
                        }
                    }
                },
                None => {
                    let entry = ServerEntry { id, config, status: ServerStatus::Offline, handle: None, output: Vec::new() };
                    let ghost e = entry@;
                    m.servers.push(entry);
                    proof {
                        assert(e.output =~= Seq::<Seq<char>>::empty());
                        assert(m@ =~= before.push(e));
                        assert forall|a: int, b: int|
                            0 <= a < m@.len() && 0 <= b < m@.len() && #[trigger] m@[a].id@ == #[trigger] m@[b].id@
                            implies a == b by {
                            if a < before.len() && b == before.len() {
                                assert(slot(before, e.id@, a));
                            }
                            if b < before.len() && a == before.len() {
                                assert(slot(before, e.id@, b));
                            }
                        }
                        assert(last_occurrence(post, n as int));
                        assert forall|k: int| 0 <= k < post.len() implies has_id(m@, (#[trigger] post[k]).id@) by {
                            if k < n {
                                assert(post[k] == pre[k]);
                                assert(has_id(before, pre[k].id@));
                                let j = choose|j: int| slot(before, pre[k].id@, j);
                                assert(slot(m@, pre[k].id@, j));
                            } else {
                                assert(slot(m@, id@, before.len() as int));
                            }
                        }
                        assert forall|j: int| 0 <= j < m@.len() implies {
                            &&& (#[trigger] m@[j]).status == ServerStatus::Offline
                            &&& m@[j].handle.is_none()
                            &&& m@[j].output.len() == 0
                            &&& exists|k: int| #[trigger] last_occurrence(post, k) && post[k].id@ == m@[j].id@ && post[k].config == m@[j].config
                        } by {
                            if j == before.len() {
                                assert(m@[j] == e);
                                assert(e.status == ServerStatus::Offline && e.handle.is_none() && e.output.len() == 0);
                                assert(post[n as int].id == e.id);
                                assert(post[n as int].config == e.config);
                                assert(last_occurrence(post, n as int) && post[n as int].id@ == m@[j].id@ && post[n as int].config == m@[j].config);
                            } else {
                                assert(m@[j] == before[j]);
                                assert(before[j].status == ServerStatus::Offline && before[j].handle.is_none() && before[j].output.len() == 0);
                                let k = choose|k: int| #[trigger] last_occurrence(pre, k) && pre[k].id@ == before[j].id@ && pre[k].config == before[j].config;
                                assert(slot(before, before[j].id@, j));
                                assert(before[j].id@ != id@);
                                assert(post[k] == pre[k]);
                                assert(last_occurrence(post, k));
                                assert(last_occurrence(post, k) && post[k].id@ == m@[j].id@ && post[k].config == m@[j].config);
                            }
                        }
                    }
                },
            }
            n = n + 1;
        }
        proof {
            assert(saved@.subrange(0, n as int) =~= saved@);
        }
        m
    }
}


/// Starting a registered server and then stopping it leaves that server
/// `Offline` with no live handle, and nothing else in the registry changed.
pub proof fn lemma_start_then_stop(
    m0: ServerManager,
    m1: ServerManager,
    m2: ServerManager,
    id: Seq<char>,
    artifact_present: bool,
    interpreter: Seq<char>,
    r1: Result<LaunchCommand, ServerError>,
    r2: Result<Option<u32>, ServerError>,
)
    requires
        m0.wf(),
        start_outcome(m0@, id, artifact_present, interpreter, r1, m1@),
        r1 is Ok,
        stop_outcome(m1@, id, r2, m2@),
    ensures
        r2 is Ok,
        m2@.len() == m0@.len(),
        forall|i: int| #[trigger] slot(m2@, id, i) ==> m2@[i].status == ServerStatus::Offline && m2@[i].handle.is_none(),
        forall|j: int| 0 <= j < m0@.len() && !slot(m0@, id, j) ==> #[trigger] m2@[j] == m0@[j],
{
    let i = choose|i: int| slot(m0@, id, i);
    assert(slot(m1@, id, i));
    assert(slot(m2@, id, i));
    lemma_slot_unique(m0@, id, i);
    assert(entries_wf(m1@)) by {
        lemma_update_wf(m0@, i, m1@[i]);
    }
    lemma_slot_unique(m1@, id, i);
    lemma_slot_unique(m2@, id, i);
}

/// The full lifecycle: start, the spawn confirmed with a pid, then stop. The
/// stop hands back that pid, and the server ends `Offline` with no handle.
pub proof fn lemma_run_then_stop(
    m0: ServerManager,
    m1: ServerManager,
    m2: ServerManager,
    m3: ServerManager,
    id: Seq<char>,
    artifact_present: bool,
    interpreter: Seq<char>,
    pid: u32,
    r1: Result<LaunchCommand, ServerError>,
    r2: Result<(), ServerError>,
    r3: Result<Option<u32>, ServerError>,
)
    requires
        m0.wf(),
        start_outcome(m0@, id, artifact_present, interpreter, r1, m1@),
        r1 is Ok,
        running_outcome(m1@, id, pid, r2, m2@),
        stop_outcome(m2@, id, r3, m3@),
    ensures
        r2 is Ok,
        r3 == Ok::<Option<u32>, ServerError>(Some(pid)),
        forall|i: int| #[trigger] slot(m3@, id, i) ==> m3@[i].status == ServerStatus::Offline && m3@[i].handle.is_none(),
{
    let i = choose|i: int| slot(m0@, id, i);
    assert(slot(m1@, id, i));
    assert(slot(m2@, id, i));
    assert(slot(m3@, id, i));
    lemma_slot_unique(m0@, id, i);
    assert(entries_wf(m1@)) by {
        lemma_update_wf(m0@, i, m1@[i]);
    }
    lemma_slot_unique(m1@, id, i);
    assert(entries_wf(m2@)) by {
        lemma_update_wf(m1@, i, m2@[i]);
    }
    lemma_slot_unique(m2@, id, i);
    lemma_slot_unique(m3@, id, i);
}

/// Starting a server that is `Online` is refused with `AlreadyRunning`, and
/// the registry, its live handle included, is left exactly as it was.
pub proof fn lemma_start_when_online(
    m0: ServerManager,
    m1: ServerManager,
    id: Seq<char>,
    artifact_present: bool,
    interpreter: Seq<char>,
    r: Result<LaunchCommand, ServerError>,
)
    requires
        m0.wf(),
        has_id(m0@, id),
        forall|i: int| #[trigger] slot(m0@, id, i) ==> m0@[i].status == ServerStatus::Online,
        start_outcome(m0@, id, artifact_present, interpreter, r, m1@),
    ensures
        r == Err::<LaunchCommand, ServerError>(ServerError::AlreadyRunning),
        m1@ == m0@,
{
    let i = choose|i: int| slot(m0@, id, i);
    assert(entry_consistent(m0@[i]));
}


/// The ids of the entries of `s`, in order.
pub open spec fn ids_of(s: Seq<EntryView>) -> Seq<Seq<char>> {
    s.map_values(|e: EntryView| e.id@)
}

impl ServerManager {
    /// The ids of all registered servers, in registry order.
    pub fn server_ids(&self) -> (r: Vec<String>)
        ensures
            texts(r@) == ids_of(self@),
    {
        let mut out: Vec<String> = Vec::new();
        let mut i: usize = 0;
        while i < self.servers.len()
            invariant
                i <= self@.len(),
                self@.len() == self.servers@.len(),
                texts(out@) == ids_of(self@.subrange(0, i as int)),
            decreases self.servers@.len() - i,
        {
            let id = self.servers[i].id.clone();
            let ghost before = out@;
            out.push(id);
            proof {
                assert(texts(out@) =~= texts(before).push(id@));
                assert(ids_of(self@.subrange(0, i + 1)) =~= ids_of(self@.subrange(0, i as int)).push(id@));
            }
            i = i + 1;
        }
        proof {
            assert(self@.subrange(0, i as int) =~= self@);
        }
        out
    }
}


/// The ids of the entries of `s` whose status is `status`, in order.
pub open spec fn ids_in_status(s: Seq<EntryView>, status: ServerStatus) -> Seq<Seq<char>>
    decreases s.len(),
{
    if s.len() == 0 {
        Seq::empty()
    } else if s.last().status == status {
        ids_in_status(s.drop_last(), status).push(s.last().id@)
    } else {
        ids_in_status(s.drop_last(), status)
    }
}

impl ServerManager {
    /// The ids of the servers in `status`, in registry order: the servers
    /// to start (`Offline`) or to stop (`Online`) when acting on all of them.
    pub fn ids_with_status(&self, status: ServerStatus) -> (r: Vec<String>)
        ensures
            texts(r@) == ids_in_status(self@, status),
    {
        let ghost s = self@;
        let mut out: Vec<String> = Vec::new();
        let mut i: usize = 0;
        while i < self.servers.len()
            invariant
                s == self@,
                i <= s.len(),
                s.len() == self.servers@.len(),
                texts(out@) == ids_in_status(s.subrange(0, i as int), status),
            decreases self.servers@.len() - i,
        {
            proof {
                assert(s.subrange(0, i + 1).drop_last() =~= s.subrange(0, i as int));
                assert(s.subrange(0, i + 1).last() == s[i as int]);
            }
            if self.servers[i].status == status {
                let id = self.servers[i].id.clone();
                let ghost before = out@;
                out.push(id);
                assert(texts(out@) =~= texts(before).push(id@));
            }
            i = i + 1;
        }
        proof {
            assert(s.subrange(0, i as int) =~= s);
        }
        out
    }
}

} // verus!
