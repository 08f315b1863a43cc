use vstd::prelude::*;
use vstd::string::*;

use crate::node::{
    fresh_uuid, has_node, has_token, node_slot, reported, token_slot, validate_outcome, NodeManager, NodeMetrics,
};

verus! {

/// One server as an agent reports it.
#[derive(Debug, Clone)]
pub struct AgentServer {
    pub id: String,
    pub name: String,
    pub server_type: String,
    pub version: String,
    pub status: String,
}

/// Frames an agent sends towards its owner. Telemetry figures are in
/// hundredths of a percent.
#[derive(Debug, Clone)]
pub enum AgentMessage {
    Authenticate { token: String },
    NodeInfo { hostname: String, cpu: u32, memory: u32, disk: u32 },
    ServerList { servers: Vec<AgentServer> },
    ServerStatus { server_id: String, status: String },
    ServerLogs { server_id: String, logs: Vec<String> },
    CommandResult { command_id: String, success: bool, message: String },
    Error { message: String },
}

/// Frames an owner sends towards agents.
#[derive(Debug, Clone)]
pub enum ClientMessage {
    CreateServer { server_name: String, server_type: String, version: String },
    StartServer { server_id: String },
    StopServer { server_id: String },
    SendCommand { server_id: String, command: String, command_id: String },
    RequestLogs { server_id: String, lines: usize },
    RequestServerList,
    RequestNodeInfo,
}

/// A decoded inbound frame: one of the two message families, or neither.
#[derive(Debug, Clone)]
pub enum Frame {
    Agent(AgentMessage),
    Client(ClientMessage),
    Unrecognized,
}

/// What a connection is known to be. A fresh connection is an anonymous
/// desktop; it becomes an agent by authenticating, or an owned desktop by
/// registering its owner.
#[derive(Debug, Clone)]
pub enum Role {
    Desktop { owner: Option<String> },
    Agent { token: String, node_id: String },
}

/// A live socket and its role.
#[derive(Debug, Clone)]
pub struct Connection {
    pub socket: u64,
    pub role: Role,
}

/// A frame to put on a connection's outbound queue: the inbound text passed
/// on unchanged, or an `Error` frame with the given message.
#[derive(Debug, Clone)]
pub enum Outbound {
    Relay(String),
    Error(String),
}

#[derive(Debug, Clone)]
pub struct Delivery {
    pub socket: u64,
    pub message: Outbound,
}

/// A delivery as the contracts see it: the socket, whether it is an error
/// frame, and its text.
pub open spec fn delivery_view(d: Delivery) -> (u64, bool, Seq<char>) {
    match d.message {
        Outbound::Relay(t) => (d.socket, false, t@),
        Outbound::Error(m) => (d.socket, true, m@),
    }
}

pub open spec fn deliveries_view(ds: Seq<Delivery>) -> Seq<(u64, bool, Seq<char>)> {
    ds.map_values(|d: Delivery| delivery_view(d))
}

/// `text` passed on to each of `sockets`, in order.
pub open spec fn relays(sockets: Seq<u64>, text: Seq<char>) -> Seq<(u64, bool, Seq<char>)> {
    sockets.map_values(|s: u64| (s, false, text))
}

/// One error frame to `socket`.
pub open spec fn error_to(socket: u64, message: Seq<char>) -> Seq<(u64, bool, Seq<char>)> {
    seq![(socket, true, message)]
}

pub open spec fn is_desktop_of(c: Connection, owner: Seq<char>) -> bool {
    match c.role {
        Role::Desktop { owner: Some(o) } => o@ == owner,
        _ => false,
    }
}

pub open spec fn is_agent(c: Connection) -> bool {
    c.role is Agent
}

pub open spec fn is_agent_of(c: Connection, node_id: Seq<char>) -> bool {
    match c.role {
        Role::Agent { token: _, node_id: n } => n@ == node_id,
        _ => false,
    }
}

/// The sockets of the desktops owned by `owner`, in registry order.
pub open spec fn owner_sockets(cs: Seq<Connection>, owner: Seq<char>) -> Seq<u64>
    decreases cs.len(),
{
    if cs.len() == 0 {
        Seq::empty()
    } else if is_desktop_of(cs.last(), owner) {
        owner_sockets(cs.drop_last(), owner).push(cs.last().socket)
    } else {
        owner_sockets(cs.drop_last(), owner)
    }
}

/// The sockets of all agents, in registry order.
pub open spec fn agent_sockets(cs: Seq<Connection>) -> Seq<u64>
    decreases cs.len(),
{
    if cs.len() == 0 {
        Seq::empty()
    } else if is_agent(cs.last()) {
        agent_sockets(cs.drop_last()).push(cs.last().socket)
    } else {
        agent_sockets(cs.drop_last())
    }
}

/// The sockets that see a frame of a node whose recorded owner is `owner`.
pub open spec fn audience(cs: Seq<Connection>, owner: Option<String>) -> Seq<u64> {
    match owner {
        Some(o) => owner_sockets(cs, o@),
        None => Seq::empty(),
    }
}

/// The registry after `socket` authenticated as the agent of `node_id`:
/// that connection becomes the agent, and any other connection that was the
/// agent of `node_id` is evicted.
pub open spec fn promote(cs: Seq<Connection>, socket: u64, token: String, node_id: String) -> Seq<Connection>
    decreases cs.len(),
{
    if cs.len() == 0 {
        cs
    } else {
        let rest = promote(cs.drop_last(), socket, token, node_id);
        let c = cs.last();
        if c.socket == socket {
            rest.push(Connection { socket, role: Role::Agent { token, node_id } })
        } else if is_agent_of(c, node_id@) {
            rest
        } else {
            rest.push(c)
        }
    }
}

pub open spec fn conn_slot(cs: Seq<Connection>, socket: u64, i: int) -> bool {
    0 <= i < cs.len() && cs[i].socket == socket
}

pub open spec fn has_socket(cs: Seq<Connection>, socket: u64) -> bool {
    exists|i: int| #[trigger] conn_slot(cs, socket, i)
}

pub open spec fn sockets_unique(cs: Seq<Connection>) -> bool {
    forall|i: int, j: int|
        0 <= i < cs.len() && 0 <= j < cs.len() && #[trigger] cs[i].socket == #[trigger] cs[j].socket ==> i == j
}

/// At most one connection is the agent of any node.
pub open spec fn agents_unique(cs: Seq<Connection>) -> bool {
    forall|i: int, j: int|
        0 <= i < cs.len() && 0 <= j < cs.len() && is_agent(cs[i]) && is_agent(cs[j])
            && #[trigger] cs[i].role->Agent_node_id@ == #[trigger] cs[j].role->Agent_node_id@ ==> i == j
}

pub open spec fn conns_wf(cs: Seq<Connection>) -> bool {
    sockets_unique(cs) && agents_unique(cs)
}

/// The deliveries for a frame of the node `node_id` given the registry `cs`
/// and the nodes `ns`: the frame goes to the desktops of the node's owner.
pub open spec fn routed_to_owner(
    cs: Seq<Connection>,
    ns: Seq<crate::node::Node>,
    node_id: Seq<char>,
    text: Seq<char>,
    r: Seq<(u64, bool, Seq<char>)>,
) -> bool {
    &&& !has_node(ns, node_id) ==> r.len() == 0
    &&& forall|j: int| #[trigger] node_slot(ns, node_id, j) ==> r == relays(audience(cs, ns[j].owner), text)
}

/// What handling one inbound frame does, from registry `c0` and nodes `n0`
/// to deliveries `r`, registry `c1` and nodes `n1`.
pub open spec fn frame_outcome(
    c0: Seq<Connection>,
    n0: NodeManager,
    socket: u64,
    frame: Frame,
    text: Seq<char>,
    now: i64,
    fresh: Seq<char>,
    r: Seq<(u64, bool, Seq<char>)>,
    c1: Seq<Connection>,
    n1: NodeManager,
) -> bool {
    if !has_socket(c0, socket) {
        r.len() == 0 && c1 == c0 && n1 == n0
    } else {
        forall|i: int| #[trigger] conn_slot(c0, socket, i) ==> match frame {
            Frame::Agent(AgentMessage::Authenticate { token }) => exists|v: Option<String>| {
                &&& validate_outcome(n0.tokens(), n0.nodes(), token@, now, fresh, v, n1.tokens(), n1.nodes())
                &&& v.is_none() ==> r == error_to(socket, "Invalid token"@) && c1 == c0
                &&& v.is_some() ==> c1 == promote(c0, socket, token, v.unwrap()) && routed_to_owner(
                    c1,
                    n1.nodes(),
                    v.unwrap()@,
                    text,
                    r,
                )
            },
            Frame::Agent(msg) => match c0[i].role {
                Role::Agent { token: _, node_id } => {
                    &&& c1 == c0
                    &&& routed_to_owner(c0, n1.nodes(), node_id@, text, r)
                    &&& n1.tokens() == n0.tokens()
                    &&& n1.nodes().len() == n0.nodes().len()
                    &&& forall|j: int| #![trigger n1.nodes()[j]] 0 <= j < n0.nodes().len() ==> n1.nodes()[j].owner == n0.nodes()[j].owner
                        && n1.nodes()[j].id == n0.nodes()[j].id
                    &&& !(msg is NodeInfo) ==> n1 == n0
                    &&& msg is NodeInfo ==> {
                        &&& !has_node(n0.nodes(), node_id@) ==> n1.nodes() == n0.nodes()
                        &&& forall|j: int| #[trigger] node_slot(n0.nodes(), node_id@, j) ==> n1.nodes() == n0.nodes().update(
                            j,
                            reported(
                                n0.nodes()[j],
                                NodeMetrics { cpu: msg->NodeInfo_cpu, memory: msg->NodeInfo_memory, disk: msg->NodeInfo_disk },
                                now,
                            ),
                        )
                    }
                },
                Role::Desktop { owner: _ } => r == error_to(socket, "Not authenticated"@) && c1 == c0 && n1 == n0,
            },
            Frame::Client(_) => {
                &&& c1 == c0
                &&& n1 == n0
                &&& r == relays(agent_sockets(c0), text)
            },
            Frame::Unrecognized => r.len() == 0 && c1 == c0 && n1 == n0,
        }
    }
}

/// The relay hub: the connection registry and the node registry it
/// authenticates against.
pub struct WebSocketServer {
    connections: Vec<Connection>,
    nodes: NodeManager,
}

/// A copy of a role.
fn copy_role(r: &Role) -> (out: Role)
    ensures
        out == *r,
{
    match r {
        Role::Desktop { owner } => Role::Desktop { owner: crate::server::copy_opt_string(owner) },
        Role::Agent { token, node_id } => Role::Agent { token: token.clone(), node_id: node_id.clone() },
    }
}


proof fn lemma_promote_member(cs: Seq<Connection>, socket: u64, token: String, node_id: String, k: int)
    requires
        0 <= k < promote(cs, socket, token, node_id).len(),
    ensures
        ({
            let p = promote(cs, socket, token, node_id)[k];
            ||| p == Connection { socket, role: Role::Agent { token, node_id } } && has_socket(cs, socket)
            ||| exists|j: int| 0 <= j < cs.len() && cs[j] == p && cs[j].socket != socket && !is_agent_of(cs[j], node_id@)
        }),
    decreases cs.len(),
{
    let rest = promote(cs.drop_last(), socket, token, node_id);
    let p = promote(cs, socket, token, node_id)[k];
    let last = cs.len() - 1;
    if k < rest.len() {
        assert(p == rest[k]);
        lemma_promote_member(cs.drop_last(), socket, token, node_id, k);
        if p == (Connection { socket, role: Role::Agent { token, node_id } }) && has_socket(cs.drop_last(), socket) {
            let j = choose|j: int| conn_slot(cs.drop_last(), socket, j);
            assert(conn_slot(cs, socket, j));
        } else {
            let j = choose|j: int| 0 <= j < cs.drop_last().len() && cs.drop_last()[j] == p && cs.drop_last()[j].socket != socket
                && !is_agent_of(cs.drop_last()[j], node_id@);
            assert(cs[j] == p);
        }
    } else {
        if cs.last().socket == socket {
            assert(conn_slot(cs, socket, last));
        } else {
            assert(cs[last] == p);
        }
    }
}

proof fn lemma_promote_wf(cs: Seq<Connection>, socket: u64, token: String, node_id: String)
    requires
        conns_wf(cs),
    ensures
        conns_wf(promote(cs, socket, token, node_id)),
        promote(cs, socket, token, node_id).len() <= cs.len(),
    decreases cs.len(),
{
    if cs.len() > 0 {
        let sub = cs.drop_last();
        assert(conns_wf(sub)) by {
            assert forall|a: int, b: int|
                0 <= a < sub.len() && 0 <= b < sub.len() && #[trigger] sub[a].socket == #[trigger] sub[b].socket implies a == b by {
                assert(sub[a] == cs[a] && sub[b] == cs[b]);
            }
            assert forall|a: int, b: int|
                0 <= a < sub.len() && 0 <= b < sub.len() && is_agent(sub[a]) && is_agent(sub[b])
                    && #[trigger] sub[a].role->Agent_node_id@ == #[trigger] sub[b].role->Agent_node_id@ implies a == b by {
                assert(sub[a] == cs[a] && sub[b] == cs[b]);
            }
        }
        lemma_promote_wf(sub, socket, token, node_id);
        let rest = promote(sub, socket, token, node_id);
        let t = promote(cs, socket, token, node_id);
        let c = cs.last();
        let last = cs.len() - 1;
        if c.socket == socket || !is_agent_of(c, node_id@) {
            let x = t.last();
            assert(t == rest.push(x));
            assert forall|a: int| #![trigger rest[a]] 0 <= a < rest.len() implies rest[a].socket != x.socket
                && (is_agent(rest[a]) && is_agent(x) ==> rest[a].role->Agent_node_id@ != x.role->Agent_node_id@) by {
                lemma_promote_member(sub, socket, token, node_id, a);
                if rest[a] == (Connection { socket, role: Role::Agent { token, node_id } }) && has_socket(sub, socket) {
                    let j = choose|j: int| conn_slot(sub, socket, j);
                    if c.socket == socket {
                        assert(cs[j].socket == cs[last].socket);
                    }
                } else {
                    let j = choose|j: int| 0 <= j < sub.len() && sub[j] == rest[a] && sub[j].socket != socket
                        && !is_agent_of(sub[j], node_id@);
                    assert(cs[j] == rest[a]);
                    assert(cs[j].socket != cs[last].socket);
                    if is_agent(rest[a]) && is_agent(x) && c.socket != socket {
                        assert(cs[j].role->Agent_node_id@ != cs[last].role->Agent_node_id@);
                    }
                }
            }
            assert forall|a: int, b: int|
                0 <= a < t.len() && 0 <= b < t.len() && #[trigger] t[a].socket == #[trigger] t[b].socket implies a == b by {
                if a < rest.len() && b < rest.len() {
                    assert(t[a] == rest[a] && t[b] == rest[b]);
                } else if a < rest.len() {
                    assert(t[a] == rest[a]);
                } else if b < rest.len() {
                    assert(t[b] == rest[b]);
                }
            }
            assert forall|a: int, b: int|
                0 <= a < t.len() && 0 <= b < t.len() && is_agent(t[a]) && is_agent(t[b])
                    && #[trigger] t[a].role->Agent_node_id@ == #[trigger] t[b].role->Agent_node_id@ implies a == b by {
                if a < rest.len() && b < rest.len() {
                    assert(t[a] == rest[a] && t[b] == rest[b]);
                } else if a < rest.len() {
                    assert(t[a] == rest[a]);
                } else if b < rest.len() {
                    assert(t[b] == rest[b]);
                }
            }
        }
    }
}

impl WebSocketServer {
    pub closed spec fn conns(&self) -> Seq<Connection> {
        self.connections@
    }

    pub closed spec fn registry(&self) -> NodeManager {
        self.nodes
    }

    pub open spec fn wf(&self) -> bool {
        conns_wf(self.conns()) && self.registry().wf()
    }

    /// A hub with no connections over a fresh node registry.
    pub fn new() -> (r: WebSocketServer)
        ensures
            r.wf(),
            r.conns().len() == 0,
    {
        WebSocketServer { connections: Vec::new(), nodes: NodeManager::new() }
    }

    /// A hub with no connections over the given node registry.
    pub fn with_registry(nodes: NodeManager) -> (r: WebSocketServer)
        requires
            nodes.wf(),
        ensures
            r.wf(),
            r.conns().len() == 0,
            r.registry() == nodes,
    {
        WebSocketServer { connections: Vec::new(), nodes }
    }

    /// The node registry.
    pub fn registry_ref(&self) -> (r: &NodeManager)
        ensures
            *r == self.registry(),
    {
        &self.nodes
    }

    /// Drops the pairing tokens that have expired by `now`.
    pub fn cleanup_expired_tokens_at(&mut self, now: i64)
        requires
            old(self).wf(),
        ensures
            final(self).wf(),
            final(self).conns() == old(self).conns(),
            final(self).registry().nodes() == old(self).registry().nodes(),
            final(self).registry().tokens() == crate::node::live_at(old(self).registry().tokens(), now),
    {
        self.nodes.cleanup_expired_tokens_at(now)
    }

    /// Drops the pairing tokens that have expired by now.
    pub fn cleanup_expired_tokens(&mut self)
        requires
            old(self).wf(),
        ensures
            final(self).wf(),
            final(self).conns() == old(self).conns(),
            final(self).registry().nodes() == old(self).registry().nodes(),
            exists|now: i64| final(self).registry().tokens() == crate::node::live_at(old(self).registry().tokens(), now),
    {
        self.nodes.cleanup_expired_tokens()
    }

    /// Mints a pairing token for `user_id`.
    pub fn generate_token(&mut self, user_id: &str) -> (r: String)
        requires
            old(self).wf(),
        ensures
            final(self).wf(),
            final(self).conns() == old(self).conns(),
            has_token(final(self).registry().tokens(), r@),
            final(self).registry().nodes() == old(self).registry().nodes(),
            "sm-"@.is_prefix_of(r@),
            r@.len() == 39,
            forall|i: int| #[trigger] token_slot(final(self).registry().tokens(), r@, i)
                ==> final(self).registry().tokens()[i].owner@ == user_id@
                && final(self).registry().tokens()[i].node_id.is_none()
                && exists|now: i64| final(self).registry().tokens()[i].expires_at == #[trigger] crate::node::expiry_after(now),
            forall|i: int| 0 <= i < old(self).registry().tokens().len() && old(self).registry().tokens()[i].token@ != r@
                ==> has_token(final(self).registry().tokens(), #[trigger] old(self).registry().tokens()[i].token@),
    {
        self.nodes.generate_pairing_token(user_id)
    }

    /// Issues a given token for `owner` at `now`.
    pub fn issue_token_at(&mut self, token: String, owner: String, now: i64)
        requires
            old(self).wf(),
        ensures
            final(self).wf(),
            final(self).conns() == old(self).conns(),
            has_token(final(self).registry().tokens(), token@),
            forall|i: int| #[trigger] token_slot(final(self).registry().tokens(), token@, i)
                ==> final(self).registry().tokens()[i].owner == owner
                && final(self).registry().tokens()[i].node_id.is_none(),
    {
        self.nodes.issue_token_at(token, owner, now)
    }

    fn find_socket(&self, socket: u64) -> (r: Option<usize>)
        ensures
            match r {
                Some(i) => conn_slot(self.conns(), socket, i as int),
                None => !has_socket(self.conns(), socket),
            },
    {
        let mut i: usize = 0;
        while i < self.connections.len()
            invariant
                i <= self.connections@.len(),
                forall|j: int| 0 <= j < i ==> self.connections@[j].socket != socket,
            decreases self.connections@.len() - i,
        {
            if self.connections[i].socket == socket {
                return Some(i);
            }
            i = i + 1;
        }
        assert forall|j: int| !conn_slot(self.conns(), socket, j) by {
            if 0 <= j < self.connections@.len() {
                assert(self.connections@[j].socket != socket);
            }
        }
        None
    }

    /// Registers a newly accepted socket as an anonymous desktop. A socket
    /// already registered is refused.
    pub fn accept(&mut self, socket: u64) -> (r: bool)
        requires
            old(self).wf(),
        ensures
            final(self).wf(),
            final(self).registry() == old(self).registry(),
            r == !has_socket(old(self).conns(), socket),
            r ==> final(self).conns() == old(self).conns().push(Connection { socket, role: Role::Desktop { owner: None } }),
            !r ==> final(self).conns() == old(self).conns(),
    {
        if self.find_socket(socket).is_some() {
            return false;
        }
        let ghost cs = self.connections@;
        let c = Connection { socket, role: Role::Desktop { owner: None } };
        self.connections.push(c);
        proof {
            let t = self.conns();
            assert(t == cs.push(c));
            assert forall|a: int, b: int|
                0 <= a < t.len() && 0 <= b < t.len() && #[trigger] t[a].socket == #[trigger] t[b].socket implies a == b by {
                if a < cs.len() && b == cs.len() {
                    assert(conn_slot(cs, socket, a));
                }
                if b < cs.len() && a == cs.len() {
                    assert(conn_slot(cs, socket, b));
                }
            }
            assert forall|a: int, b: int|
                0 <= a < t.len() && 0 <= b < t.len() && is_agent(t[a]) && is_agent(t[b])
                    && #[trigger] t[a].role->Agent_node_id@ == #[trigger] t[b].role->Agent_node_id@ implies a == b by {
                assert(a < cs.len() && b < cs.len());
            }
        }
        true
    }

    /// Records the owner of a desktop connection. Refused for an unknown
    /// socket and for an agent.
    pub fn register_desktop(&mut self, socket: u64, owner: String) -> (r: bool)
        requires
            old(self).wf(),
        ensures
            final(self).wf(),
            final(self).registry() == old(self).registry(),
            !has_socket(old(self).conns(), socket) ==> !r && final(self).conns() == old(self).conns(),
            forall|i: int| #[trigger] conn_slot(old(self).conns(), socket, i) ==> {
                if is_agent(old(self).conns()[i]) {
                    !r && final(self).conns() == old(self).conns()
                } else {
                    r && final(self).conns() == old(self).conns().update(
                        i,
                        Connection { socket, role: Role::Desktop { owner: Some(owner) } },
                    )
                }
            },
    {
        let i = match self.find_socket(socket) {
            Some(i) => i,
            None => return false,
        };
        assert forall|j: int| #[trigger] conn_slot(self.conns(), socket, j) implies j == i by {}
        let agent = match &self.connections[i].role {
            Role::Agent { .. } => true,
            Role::Desktop { .. } => false,
        };
        if agent {
            return false;
        }
        let ghost cs = self.connections@;
        let c = Connection { socket, role: Role::Desktop { owner: Some(owner) } };
        self.connections.set(i, c);
        proof {
            let t = self.conns();
            assert forall|a: int, b: int|
                0 <= a < t.len() && 0 <= b < t.len() && #[trigger] t[a].socket == #[trigger] t[b].socket implies a == b by {
                assert(t[a].socket == cs[a].socket && t[b].socket == cs[b].socket);
            }
            assert forall|a: int, b: int|
                0 <= a < t.len() && 0 <= b < t.len() && is_agent(t[a]) && is_agent(t[b])
                    && #[trigger] t[a].role->Agent_node_id@ == #[trigger] t[b].role->Agent_node_id@ implies a == b by {
                assert(t[a] == cs[a] && t[b] == cs[b]);
            }
        }
        true
    }

    /// Removes the registry entry of a closed socket, whatever its role.
    pub fn disconnect(&mut self, socket: u64) -> (r: bool)
        requires
            old(self).wf(),
        ensures
            final(self).wf(),
            final(self).registry() == old(self).registry(),
            r == has_socket(old(self).conns(), socket),
            !has_socket(final(self).conns(), socket),
            forall|i: int| #[trigger] conn_slot(old(self).conns(), socket, i) ==> final(self).conns() == old(self).conns().remove(i),
            !r ==> final(self).conns() == old(self).conns(),
    {
        let i = match self.find_socket(socket) {
            Some(i) => i,
            None => return false,
        };
        assert forall|j: int| #[trigger] conn_slot(self.conns(), socket, j) implies j == i by {}
        let ghost cs = self.connections@;
        self.connections.remove(i);
        proof {
            let t = self.conns();
            assert(t =~= cs.remove(i as int));
            assert forall|a: int, b: int|
                0 <= a < t.len() && 0 <= b < t.len() && #[trigger] t[a].socket == #[trigger] t[b].socket implies a == b by {
                let a2 = if a < i { a } else { a + 1 };
                let b2 = if b < i { b } else { b + 1 };
                assert(t[a] == cs[a2] && t[b] == cs[b2]);
            }
            assert forall|a: int, b: int|
                0 <= a < t.len() && 0 <= b < t.len() && is_agent(t[a]) && is_agent(t[b])
                    && #[trigger] t[a].role->Agent_node_id@ == #[trigger] t[b].role->Agent_node_id@ implies a == b by {
                let a2 = if a < i { a } else { a + 1 };
                let b2 = if b < i { b } else { b + 1 };
                assert(t[a] == cs[a2] && t[b] == cs[b2]);
            }
            assert forall|k: int| !(#[trigger] conn_slot(t, socket, k)) by {
                if 0 <= k < t.len() {
                    let k2 = if k < i { k } else { k + 1 };
                    assert(t[k] == cs[k2]);
                }
            }
        }
        true
    }

    /// The number of registered connections.
    pub fn connection_count(&self) -> (r: usize)
        ensures
            r == self.conns().len(),
    {
        self.connections.len()
    }

    /// The role of a registered socket.
    pub fn role_of(&self, socket: u64) -> (r: Option<Role>)
        requires
            self.wf(),
        ensures
            !has_socket(self.conns(), socket) ==> r.is_none(),
            forall|i: int| #[trigger] conn_slot(self.conns(), socket, i) ==> r == Some(self.conns()[i].role),
    {
        match self.find_socket(socket) {
            Some(i) => {
                assert forall|j: int| #[trigger] conn_slot(self.conns(), socket, j) implies j == i by {}
                Some(copy_role(&self.connections[i].role))
            },
            None => None,
        }
    }
}


impl WebSocketServer {
    /// The deliveries of `text` to the desktops of `owner`, if the node has one.
    fn owner_deliveries(&self, owner: &Option<String>, text: &str) -> (r: Vec<Delivery>)
        ensures
            deliveries_view(r@) == relays(audience(self.conns(), *owner), text@),
    {
        match owner {
            Some(o) => self.forward_to_user(o.as_str(), text),
            None => {
                let out: Vec<Delivery> = Vec::new();
                assert(deliveries_view(out@) =~= relays(audience(self.conns(), *owner), text@));
                out
            },
        }
    }

    /// The deliveries of `text` to every desktop owned by `user_id`, in
    /// registry order; agents and other owners' desktops get nothing.
    pub fn forward_to_user(&self, user_id: &str, text: &str) -> (r: Vec<Delivery>)
        ensures
            deliveries_view(r@) == relays(owner_sockets(self.conns(), user_id@), text@),
    {
        let o = user_id.to_string();
        let mut out: Vec<Delivery> = Vec::new();
        let ghost cs = self.connections@;
        let mut k: usize = 0;
        while k < self.connections.len()
            invariant
                cs == self.connections@,
                o@ == user_id@,
                k <= cs.len(),
                deliveries_view(out@) == relays(owner_sockets(cs.subrange(0, k as int), o@), text@),
            decreases cs.len() - k,
        {
            let ghost pre = cs.subrange(0, k as int);
            let ghost before = out@;
            proof {
                assert(cs.subrange(0, k + 1).drop_last() =~= pre);
                assert(cs.subrange(0, k + 1).last() == cs[k as int]);
            }
            let c = &self.connections[k];
            let mine = match &c.role {
                Role::Desktop { owner: Some(x) } => *x == o,
                _ => false,
            };
            if mine {
                let d = Delivery { socket: c.socket, message: Outbound::Relay(text.to_string()) };
                out.push(d);
                proof {
                    assert(deliveries_view(out@) =~= deliveries_view(before).push(delivery_view(d)));
                    assert(relays(owner_sockets(cs.subrange(0, k + 1), o@), text@) =~= relays(
                        owner_sockets(pre, o@),
                        text@,
                    ).push((c.socket, false, text@)));
                }
            }
            k = k + 1;
        }
        proof {
            assert(cs.subrange(0, k as int) =~= cs);
        }
        out
    }

    /// The deliveries of `text` to every agent.
    fn agent_deliveries(&self, text: &str) -> (r: Vec<Delivery>)
        ensures
            deliveries_view(r@) == relays(agent_sockets(self.conns()), text@),
    {
        let mut out: Vec<Delivery> = Vec::new();
        let ghost cs = self.connections@;
        let mut k: usize = 0;
        while k < self.connections.len()
            invariant
                cs == self.connections@,
                k <= cs.len(),
                deliveries_view(out@) == relays(agent_sockets(cs.subrange(0, k as int)), text@),
            decreases cs.len() - k,
        {
            let ghost pre = cs.subrange(0, k as int);
            let ghost before = out@;
            proof {
                assert(cs.subrange(0, k + 1).drop_last() =~= pre);
                assert(cs.subrange(0, k + 1).last() == cs[k as int]);
            }
            let c = &self.connections[k];
            let agent = match &c.role {
                Role::Agent { .. } => true,
                Role::Desktop { .. } => false,
            };
            if agent {
                let d = Delivery { socket: c.socket, message: Outbound::Relay(text.to_string()) };
                out.push(d);
                proof {
                    assert(deliveries_view(out@) =~= deliveries_view(before).push(delivery_view(d)));
                    assert(relays(agent_sockets(cs.subrange(0, k + 1)), text@) =~= relays(agent_sockets(pre), text@).push(
                        (c.socket, false, text@),
                    ));
                }
            }
            k = k + 1;
        }
        proof {
            assert(cs.subrange(0, k as int) =~= cs);
        }
        out
    }

    /// Makes `socket` the agent of `node_id`, evicting any other agent of it.
    fn promote_socket(&mut self, socket: u64, token: &String, node_id: &String)
        requires
            old(self).wf(),
        ensures
            final(self).wf(),
            final(self).registry() == old(self).registry(),
            final(self).conns() == promote(old(self).conns(), socket, *token, *node_id),
    {
        let ghost cs = self.connections@;
        let mut out: Vec<Connection> = Vec::new();
        let mut k: usize = 0;
        while k < self.connections.len()
            invariant
                cs == self.connections@,
                k <= cs.len(),
                out@ == promote(cs.subrange(0, k as int), socket, *token, *node_id),
            decreases cs.len() - k,
        {
            proof {
                assert(cs.subrange(0, k + 1).drop_last() =~= cs.subrange(0, k as int));
                assert(cs.subrange(0, k + 1).last() == cs[k as int]);
            }
            let c = &self.connections[k];
            if c.socket == socket {
                out.push(Connection { socket, role: Role::Agent { token: token.clone(), node_id: node_id.clone() } });
            } else {
                let evicted = match &c.role {
                    Role::Agent { token: _, node_id: n } => *n == *node_id,
                    Role::Desktop { .. } => false,
                };
                if !evicted {
                    out.push(Connection { socket: c.socket, role: copy_role(&c.role) });
                }
            }
            k = k + 1;
        }
        proof {
            assert(cs.subrange(0, k as int) =~= cs);
            lemma_promote_wf(cs, socket, *token, *node_id);
        }
        self.connections = out;
    }

    /// Handles one inbound frame from `socket`, at time `now`, with `fresh`
    /// to mint a node id should a pending token be redeemed. `text` is the
    /// frame as received; it is what gets passed on. Returns the frames to
    /// queue, each with the socket it goes to.
    ///
    /// A frame from an unregistered socket is dropped. `Authenticate` with a
    /// token that redeems makes the socket the agent of the token's node and
    /// passes the frame on to the owner's desktops; with any other token the
    /// sender gets an `Error` frame and nothing changes. Any other agent frame
    /// from an agent goes to the desktops of its node's owner (a `NodeInfo`
    /// also records the telemetry); from a connection that has not
    /// authenticated it earns an `Error` frame. A client frame goes to every
    /// agent, whatever the sender's role. Unrecognized frames are dropped.
    pub fn handle_frame_at(&mut self, socket: u64, frame: &Frame, text: &str, now: i64, fresh: &str) -> (r: Vec<Delivery>)
        requires
            old(self).wf(),
        ensures
            final(self).wf(),
            frame_outcome(
                old(self).conns(),
                old(self).registry(),
                socket,
                *frame,
                text@,
                now,
                fresh@,
                deliveries_view(r@),
                final(self).conns(),
                final(self).registry(),
            ),
    {
        let i = match self.find_socket(socket) {
            Some(i) => i,
            None => {
                let out: Vec<Delivery> = Vec::new();
                assert(deliveries_view(out@) =~= Seq::<(u64, bool, Seq<char>)>::empty());
                return out;
            },
        };
        assert forall|j: int| #[trigger] conn_slot(self.conns(), socket, j) implies j == i by {}
        let ghost c0 = self.conns();
        let ghost n0 = self.registry();
        match frame {
            Frame::Agent(AgentMessage::Authenticate { token }) => {
                let v = self.nodes.validate_token_at(token.as_str(), now, fresh);
                match &v {
                    None => {
                        let mut out: Vec<Delivery> = Vec::new();
                        out.push(Delivery { socket, message: Outbound::Error("Invalid token".to_string()) });
                        proof {
                            let n1 = self.registry();
                            let r = deliveries_view(out@);
                            assert(deliveries_view(out@) =~= error_to(socket, "Invalid token"@));
                            assert({
                                &&& validate_outcome(n0.tokens(), n0.nodes(), token@, now, fresh@, v, n1.tokens(), n1.nodes())
                                &&& v.is_none() ==> r == error_to(socket, "Invalid token"@) && self.conns() == c0
                                &&& v.is_some() ==> self.conns() == promote(c0, socket, *token, v.unwrap()) && routed_to_owner(
                                    self.conns(),
                                    n1.nodes(),
                                    v.unwrap()@,
                                    text@,
                                    r,
                                )
                            });
                        }
                        out
                    },
                    Some(nid) => {
                        self.promote_socket(socket, token, nid);
                        let owner = self.nodes.node_owner(nid.as_str());
                        let out = self.owner_deliveries(&owner, text);
                        proof {
                            let n1 = self.registry();
                            let r = deliveries_view(out@);
                            assert(validate_outcome(n0.tokens(), n0.nodes(), token@, now, fresh@, v, n1.tokens(), n1.nodes()));
                            assert(routed_to_owner(self.conns(), n1.nodes(), v.unwrap()@, text@, r));
                            assert({
                                &&& validate_outcome(n0.tokens(), n0.nodes(), token@, now, fresh@, v, n1.tokens(), n1.nodes())
                                &&& v.is_none() ==> r == error_to(socket, "Invalid token"@) && self.conns() == c0
                                &&& v.is_some() ==> self.conns() == promote(c0, socket, *token, v.unwrap()) && routed_to_owner(
                                    self.conns(),
                                    n1.nodes(),
                                    v.unwrap()@,
                                    text@,
                                    r,
                                )
                            });
                        }
                        out
                    },
                }
            },
            Frame::Agent(msg) => {
                let nid = match &self.connections[i].role {
                    Role::Agent { token: _, node_id } => node_id.clone(),
                    Role::Desktop { .. } => {
                        let mut out: Vec<Delivery> = Vec::new();
                        out.push(Delivery { socket, message: Outbound::Error("Not authenticated".to_string()) });
                        assert(deliveries_view(out@) =~= error_to(socket, "Not authenticated"@));
                        return out;
                    },
                };
                match msg {
                    AgentMessage::NodeInfo { hostname: _, cpu, memory, disk } => {
                        let metrics = NodeMetrics { cpu: *cpu, memory: *memory, disk: *disk };
                        let _ = self.nodes.update_node_metrics_at(nid.as_str(), metrics, now);
                    },
                    _ => {},
                }
                let owner = self.nodes.node_owner(nid.as_str());
                self.owner_deliveries(&owner, text)
            },
            Frame::Client(_) => self.agent_deliveries(text),
            Frame::Unrecognized => {
                let out: Vec<Delivery> = Vec::new();
                assert(deliveries_view(out@) =~= Seq::<(u64, bool, Seq<char>)>::empty());
                out
            },
        }
    }
}


impl WebSocketServer {
    /// Handles one inbound frame now; see [`WebSocketServer::handle_frame_at`].
    pub fn handle_frame(&mut self, socket: u64, frame: &Frame, text: &str) -> (r: Vec<Delivery>)
        requires
            old(self).wf(),
        ensures
            final(self).wf(),
            exists|now: i64, fresh: Seq<char>|
                frame_outcome(
                    old(self).conns(),
                    old(self).registry(),
                    socket,
                    *frame,
                    text@,
                    now,
                    fresh,
                    deliveries_view(r@),
                    final(self).conns(),
                    final(self).registry(),
                ),
    {
        let now = crate::node::clock_millis();
        let fresh = fresh_uuid();
        self.handle_frame_at(socket, frame, text, now, fresh.as_str())
    }

    /// Whether the node bound to `token` has a live agent connection.
    pub fn is_token_connected(&self, token: &str) -> (r: bool)
        requires
            self.wf(),
        ensures
            r == exists|i: int, k: int| #[trigger] token_slot(self.registry().tokens(), token@, i)
                && self.registry().tokens()[i].node_id.is_some()
                && 0 <= k < self.conns().len()
                && #[trigger] is_agent_of(self.conns()[k], self.registry().tokens()[i].node_id.unwrap()@),
    {
        let nid = match self.nodes.token_binding(token) {
            Some(n) => n,
            None => return false,
        };
        let ghost ti = choose|i: int| token_slot(self.registry().tokens(), token@, i);
        assert(token_slot(self.registry().tokens(), token@, ti));
        let mut k: usize = 0;
        while k < self.connections.len()
            invariant
                self.wf(),
                token_slot(self.registry().tokens(), token@, ti),
                self.registry().tokens()[ti].node_id == Some(nid),
                k <= self.conns().len(),
                forall|j: int| 0 <= j < k ==> !is_agent_of(#[trigger] self.conns()[j], nid@),
            decreases self.conns().len() - k,
        {
            let found = match &self.connections[k].role {
                Role::Agent { token: _, node_id } => *node_id == nid,
                Role::Desktop { .. } => false,
            };
            if found {
                proof {
                    assert(is_agent_of(self.conns()[k as int], self.registry().tokens()[ti].node_id.unwrap()@));
                }
                return true;
            }
            k = k + 1;
        }
        proof {
            assert forall|i: int, j: int| #[trigger] token_slot(self.registry().tokens(), token@, i)
                && self.registry().tokens()[i].node_id.is_some() && 0 <= j < self.conns().len()
                implies !#[trigger] is_agent_of(self.conns()[j], self.registry().tokens()[i].node_id.unwrap()@) by {
                assert(i == ti);
                assert(self.registry().tokens()[i].node_id == Some(nid));
            }
        }
        false
    }
}

proof fn lemma_owner_sockets_member(cs: Seq<Connection>, owner: Seq<char>, s: u64)
    ensures
        owner_sockets(cs, owner).contains(s) <==> exists|k: int| 0 <= k < cs.len() && cs[k].socket == s && is_desktop_of(cs[k], owner),
    decreases cs.len(),
{
    if cs.len() > 0 {
        let sub = cs.drop_last();
        lemma_owner_sockets_member(sub, owner, s);
        let o = owner_sockets(sub, owner);
        if exists|k: int| 0 <= k < cs.len() && cs[k].socket == s && is_desktop_of(cs[k], owner) {
            let k = choose|k: int| 0 <= k < cs.len() && cs[k].socket == s && is_desktop_of(cs[k], owner);
            if k == cs.len() - 1 {
                assert(owner_sockets(cs, owner) == o.push(s));
                assert(owner_sockets(cs, owner)[o.len() as int] == s);
            } else {
                assert(sub[k] == cs[k]);
                let m = choose|m: int| 0 <= m < o.len() && o[m] == s;
                assert(owner_sockets(cs, owner)[m] == s);
            }
        }
        if owner_sockets(cs, owner).contains(s) {
            let m = choose|m: int| 0 <= m < owner_sockets(cs, owner).len() && owner_sockets(cs, owner)[m] == s;
            if m < o.len() {
                assert(o[m] == s);
                let k = choose|k: int| 0 <= k < sub.len() && sub[k].socket == s && is_desktop_of(sub[k], owner);
                assert(cs[k] == sub[k]);
            } else {
                assert(cs[cs.len() - 1].socket == s);
            }
        }
    }
}

/// An `Authenticate` frame carrying a token the registry does not know earns
/// the sender an `Error` frame and nothing else: no connection becomes an
/// agent, and the registries are unchanged.
pub proof fn lemma_unknown_token_rejected(
    h0: WebSocketServer,
    h1: WebSocketServer,
    socket: u64,
    token: String,
    text: Seq<char>,
    now: i64,
    fresh: Seq<char>,
    r: Seq<(u64, bool, Seq<char>)>,
)
    requires
        h0.wf(),
        has_socket(h0.conns(), socket),
        !has_token(h0.registry().tokens(), token@),
        frame_outcome(
            h0.conns(),
            h0.registry(),
            socket,
            Frame::Agent(AgentMessage::Authenticate { token }),
            text,
            now,
            fresh,
            r,
            h1.conns(),
            h1.registry(),
        ),
    ensures
        r == error_to(socket, "Invalid token"@),
        h1.conns() == h0.conns(),
        h1.registry().tokens() == h0.registry().tokens(),
        h1.registry().nodes() == h0.registry().nodes(),
{
    let i = choose|i: int| conn_slot(h0.conns(), socket, i);
    let n0 = h0.registry();
    let n1 = h1.registry();
    let v = choose|v: Option<String>| {
        &&& validate_outcome(n0.tokens(), n0.nodes(), token@, now, fresh, v, n1.tokens(), n1.nodes())
        &&& v.is_none() ==> r == error_to(socket, "Invalid token"@) && h1.conns() == h0.conns()
        &&& v.is_some() ==> h1.conns() == promote(h0.conns(), socket, token, v.unwrap()) && routed_to_owner(
            h1.conns(),
            n1.nodes(),
            v.unwrap()@,
            text,
            r,
        )
    };
}

/// A `NodeInfo` frame from an authenticated agent whose node belongs to
/// `owner` reaches every desktop of `owner`, as the frame received, and no
/// other connection.
pub proof fn lemma_node_info_reaches_owner_only(
    h0: WebSocketServer,
    h1: WebSocketServer,
    socket: u64,
    hostname: String,
    cpu: u32,
    memory: u32,
    disk: u32,
    text: Seq<char>,
    now: i64,
    fresh: Seq<char>,
    r: Seq<(u64, bool, Seq<char>)>,
    owner: String,
)
    requires
        h0.wf(),
        exists|i: int, j: int| #[trigger] conn_slot(h0.conns(), socket, i) && is_agent(h0.conns()[i])
            && #[trigger] node_slot(h0.registry().nodes(), h0.conns()[i].role->Agent_node_id@, j)
            && h0.registry().nodes()[j].owner == Some(owner),
        frame_outcome(
            h0.conns(),
            h0.registry(),
            socket,
            Frame::Agent(AgentMessage::NodeInfo { hostname, cpu, memory, disk }),
            text,
            now,
            fresh,
            r,
            h1.conns(),
            h1.registry(),
        ),
    ensures
        forall|k: int| 0 <= k < h0.conns().len() && is_desktop_of(#[trigger] h0.conns()[k], owner@)
            ==> r.contains((h0.conns()[k].socket, false, text)),
        forall|k: int, m: int| 0 <= k < h0.conns().len() && 0 <= m < r.len() && #[trigger] r[m].0 == #[trigger] h0.conns()[k].socket
            ==> is_desktop_of(h0.conns()[k], owner@) && r[m] == (h0.conns()[k].socket, false, text),
        h1.conns() == h0.conns(),
{
    let (i, j) = choose|i: int, j: int| #[trigger] conn_slot(h0.conns(), socket, i) && is_agent(h0.conns()[i])
        && #[trigger] node_slot(h0.registry().nodes(), h0.conns()[i].role->Agent_node_id@, j)
        && h0.registry().nodes()[j].owner == Some(owner);
    let cs = h0.conns();
    let nid = cs[i].role->Agent_node_id@;
    let n1 = h1.registry().nodes();
    assert(node_slot(n1, nid, j));
    assert(n1[j].owner == Some(owner));
    let socks = owner_sockets(cs, owner@);
    assert(r == relays(socks, text));
    assert forall|k: int| 0 <= k < cs.len() && is_desktop_of(#[trigger] cs[k], owner@)
        implies r.contains((cs[k].socket, false, text)) by {
        lemma_owner_sockets_member(cs, owner@, cs[k].socket);
        let m = choose|m: int| 0 <= m < socks.len() && socks[m] == cs[k].socket;
        assert(r[m] == (cs[k].socket, false, text));
    }
    assert forall|k: int, m: int| 0 <= k < cs.len() && 0 <= m < r.len() && #[trigger] r[m].0 == #[trigger] cs[k].socket
        implies is_desktop_of(cs[k], owner@) && r[m] == (cs[k].socket, false, text) by {
        assert(r[m] == (socks[m], false, text));
        assert(socks.contains(socks[m]));
        lemma_owner_sockets_member(cs, owner@, socks[m]);
        let k2 = choose|k2: int| 0 <= k2 < cs.len() && cs[k2].socket == socks[m] && is_desktop_of(cs[k2], owner@);
        assert(cs[k2].socket == cs[k].socket);
    }
}

/// Once an agent's socket is closed, its registry entry is gone, no
/// connection is the agent of its node any more, and frames still arriving
/// on that socket are delivered nowhere.
pub proof fn lemma_closed_agent_is_silent(
    h0: WebSocketServer,
    h1: WebSocketServer,
    h2: WebSocketServer,
    socket: u64,
    node_id: Seq<char>,
    frame: Frame,
    text: Seq<char>,
    now: i64,
    fresh: Seq<char>,
    r: Seq<(u64, bool, Seq<char>)>,
)
    requires
        h0.wf(),
        exists|i: int| #[trigger] conn_slot(h0.conns(), socket, i) && is_agent_of(h0.conns()[i], node_id),
        forall|i: int| #[trigger] conn_slot(h0.conns(), socket, i) ==> h1.conns() == h0.conns().remove(i),
        !has_socket(h1.conns(), socket),
        frame_outcome(h1.conns(), h1.registry(), socket, frame, text, now, fresh, r, h2.conns(), h2.registry()),
    ensures
        forall|k: int| 0 <= k < h1.conns().len() ==> !is_agent_of(#[trigger] h1.conns()[k], node_id),
        r.len() == 0,
        h2.conns() == h1.conns(),
{
    let i = choose|i: int| #[trigger] conn_slot(h0.conns(), socket, i) && is_agent_of(h0.conns()[i], node_id);
    let cs = h0.conns();
    assert forall|k: int| 0 <= k < h1.conns().len() implies !is_agent_of(#[trigger] h1.conns()[k], node_id) by {
        let k2 = if k < i { k } else { k + 1 };
        assert(h1.conns()[k] == cs[k2]);
        if is_agent_of(cs[k2], node_id) {
            assert(cs[k2].role->Agent_node_id@ == cs[i].role->Agent_node_id@);
        }
    }
}


/// A pending, unexpired token redeems: an `Authenticate` frame carrying it
/// binds the token to the node id minted from `fresh` (when that id is free),
/// makes the sender the agent of that node, and passes the frame on to the
/// desktops of the token's owner.
pub proof fn lemma_pending_token_redeems(
    h0: WebSocketServer,
    h1: WebSocketServer,
    socket: u64,
    token: String,
    k: int,
    text: Seq<char>,
    now: i64,
    fresh: Seq<char>,
    r: Seq<(u64, bool, Seq<char>)>,
)
    requires
        h0.wf(),
        has_socket(h0.conns(), socket),
        token_slot(h0.registry().tokens(), token@, k),
        h0.registry().tokens()[k].node_id.is_none(),
        now < h0.registry().tokens()[k].expires_at,
        !has_node(h0.registry().nodes(), crate::node::minted_node_id(fresh)),
        frame_outcome(
            h0.conns(),
            h0.registry(),
            socket,
            Frame::Agent(AgentMessage::Authenticate { token }),
            text,
            now,
            fresh,
            r,
            h1.conns(),
            h1.registry(),
        ),
    ensures
        h1.registry().tokens()[k].node_id.is_some(),
        h1.registry().tokens()[k].node_id.unwrap()@ == crate::node::minted_node_id(fresh),
        r == relays(owner_sockets(h1.conns(), h0.registry().tokens()[k].owner@), text),
{
    let i = choose|i: int| conn_slot(h0.conns(), socket, i);
    let n0 = h0.registry();
    let n1 = h1.registry();
    assert forall|j: int| #[trigger] token_slot(n0.tokens(), token@, j) implies j == k by {}
    let v = choose|v: Option<String>| {
        &&& validate_outcome(n0.tokens(), n0.nodes(), token@, now, fresh, v, n1.tokens(), n1.nodes())
        &&& v.is_none() ==> r == error_to(socket, "Invalid token"@) && h1.conns() == h0.conns()
        &&& v.is_some() ==> h1.conns() == promote(h0.conns(), socket, token, v.unwrap()) && routed_to_owner(
            h1.conns(),
            n1.nodes(),
            v.unwrap()@,
            text,
            r,
        )
    };
    assert(v.is_some());
    let last = n1.nodes().len() - 1;
    assert(n1.nodes()[last] == n1.nodes().last());
    assert(node_slot(n1.nodes(), v.unwrap()@, last));
}

} // verus!
