use vstd::prelude::*;
use vstd::string::*;

use crate::manager::{ids_of, ServerManager};
use crate::server::copy_opt_string;
use crate::text::{copy_strings, join2, join3, prefix_upto, take_chars, texts};

verus! {

/// Where a node runs: the fixed local machine, or a paired remote host.
#[derive(Debug, Clone, Copy, PartialEq, Eq, Structural)]
pub enum NodeType {
    Local,
    Remote,
}

#[derive(Debug, Clone, Copy, PartialEq, Eq, Structural)]
pub enum NodeStatus {
    Online,
    Offline,
    Connecting,
    Error,
}

/// How a node is reached.
#[derive(Debug, Clone)]
pub struct NodeConfig {
    pub name: String,
    pub hostname: Option<String>,
    pub port: Option<u16>,
    pub ssh_key_path: Option<String>,
    pub username: Option<String>,
    pub api_token: Option<String>,
}

/// A telemetry snapshot, each figure in hundredths of a percent.
#[derive(Debug, Clone, Copy, PartialEq, Eq, Structural)]
pub struct NodeMetrics {
    pub cpu: u32,
    pub memory: u32,
    pub disk: u32,
}

/// A host able to run servers. `last_seen` is in milliseconds since the
/// Unix epoch.
#[derive(Debug, Clone)]
pub struct Node {
    pub id: String,
    pub name: String,
    pub node_type: NodeType,
    pub status: NodeStatus,
    pub config: NodeConfig,
    pub last_seen: Option<i64>,
    pub servers: Vec<String>,
    pub metrics: Option<NodeMetrics>,
    pub owner: Option<String>,
}

/// A pairing token: issued for an owner, bound to a node id on first use,
/// valid until `expires_at` (milliseconds since the Unix epoch).
#[derive(Debug, Clone)]
pub struct PairingToken {
    pub token: String,
    pub owner: String,
    pub node_id: Option<String>,
    pub expires_at: i64,
}

/// How long a pairing token stays valid after issuance, in milliseconds.
pub const TOKEN_TTL_MS: i64 = 600000;

/// The id of the local node.
pub open spec fn local_id() -> Seq<char> {
    "local"@
}

/// The expiry of a token issued at `now`, saturating at the end of time.
pub open spec fn expiry_after(now: i64) -> i64 {
    if now > i64::MAX - TOKEN_TTL_MS {
        i64::MAX
    } else {
        (now + TOKEN_TTL_MS) as i64
    }
}

pub open spec fn node_slot(s: Seq<Node>, id: Seq<char>, i: int) -> bool {
    0 <= i < s.len() && s[i].id@ == id
}

pub open spec fn has_node(s: Seq<Node>, id: Seq<char>) -> bool {
    exists|i: int| #[trigger] node_slot(s, id, i)
}

pub open spec fn node_ids_unique(s: Seq<Node>) -> bool {
    forall|i: int, j: int|
        0 <= i < s.len() && 0 <= j < s.len() && #[trigger] s[i].id@ == #[trigger] s[j].id@ ==> i == j
}

pub open spec fn token_slot(s: Seq<PairingToken>, t: Seq<char>, i: int) -> bool {
    0 <= i < s.len() && s[i].token@ == t
}

pub open spec fn has_token(s: Seq<PairingToken>, t: Seq<char>) -> bool {
    exists|i: int| #[trigger] token_slot(s, t, i)
}

pub open spec fn tokens_unique(s: Seq<PairingToken>) -> bool {
    forall|i: int, j: int|
        0 <= i < s.len() && 0 <= j < s.len() && #[trigger] s[i].token@ == #[trigger] s[j].token@ ==> i == j
}

/// The node id minted from a fresh identifier.
pub open spec fn minted_node_id(fresh: Seq<char>) -> Seq<char> {
    "node-"@ + fresh
}

/// The display name of a node minted from a fresh identifier.
pub open spec fn minted_node_name(fresh: Seq<char>) -> Seq<char> {
    "VPS Node "@ + prefix_upto(fresh, 6)
}

/// The node record created when `token` is first redeemed at `now`.
pub open spec fn is_minted_node(n: Node, fresh: Seq<char>, token: Seq<char>, owner: String, now: i64) -> bool {
    &&& n.id@ == minted_node_id(fresh)
    &&& n.name@ == minted_node_name(fresh)
    &&& n.node_type == NodeType::Remote
    &&& n.status == NodeStatus::Connecting
    &&& n.config.name@ == minted_node_name(fresh)
    &&& n.config.hostname.is_none()
    &&& n.config.port.is_none()
    &&& n.config.ssh_key_path.is_none()
    &&& n.config.username.is_none()
    &&& n.config.api_token.is_some() && n.config.api_token.unwrap()@ == token
    &&& n.last_seen == Some(now)
    &&& n.servers@.len() == 0
    &&& n.metrics.is_none()
    &&& n.owner == Some(owner)
}

/// `t` with its node binding set.
pub open spec fn bound(t: PairingToken, node_id: String) -> PairingToken {
    PairingToken { token: t.token, owner: t.owner, node_id: Some(node_id), expires_at: t.expires_at }
}

/// What `validate_token_at` does with the token list `ts` and the nodes `ns`.
pub open spec fn validate_outcome(
    ts: Seq<PairingToken>,
    ns: Seq<Node>,
    token: Seq<char>,
    now: i64,
    fresh: Seq<char>,
    r: Option<String>,
    ts2: Seq<PairingToken>,
    ns2: Seq<Node>,
) -> bool {
    if !has_token(ts, token) {
        r.is_none() && ts2 == ts && ns2 == ns
    } else {
        forall|i: int| #[trigger] token_slot(ts, token, i) ==> {
            if now >= ts[i].expires_at {
                r.is_none() && ts2 == ts && ns2 == ns
            } else if ts[i].node_id.is_some() {
                r == ts[i].node_id && ts2 == ts && ns2 == ns
            } else if has_node(ns, minted_node_id(fresh)) {
                r.is_none() && ts2 == ts && ns2 == ns
            } else {
                &&& r.is_some() && r.unwrap()@ == minted_node_id(fresh)
                &&& ts2 == ts.update(i, bound(ts[i], r.unwrap()))
                &&& ns2.len() == ns.len() + 1
                &&& ns2.drop_last() == ns
                &&& is_minted_node(ns2.last(), fresh, token, ts[i].owner, now)
            }
        }
    }
}

pub struct NodeManager {
    nodes: Vec<Node>,
    tokens: Vec<PairingToken>,
}

/// `a` is `n` as listed: the local node lists the servers `local_ids`.
pub open spec fn listed_node(a: Node, n: Node, local_ids: Seq<Seq<char>>) -> bool {
    &&& a.id == n.id
    &&& a.name == n.name
    &&& a.node_type == n.node_type
    &&& a.status == n.status
    &&& a.config == n.config
    &&& a.last_seen == n.last_seen
    &&& a.metrics == n.metrics
    &&& a.owner == n.owner
    &&& n.id@ == local_id() ==> texts(a.servers@) == local_ids
    &&& n.id@ != local_id() ==> a.servers@ == n.servers@
}

/// `a` and `b` hold the same data.
pub open spec fn same_node(a: Node, b: Node) -> bool {
    &&& a.id == b.id
    &&& a.name == b.name
    &&& a.node_type == b.node_type
    &&& a.status == b.status
    &&& a.config == b.config
    &&& a.last_seen == b.last_seen
    &&& a.servers@ == b.servers@
    &&& a.metrics == b.metrics
    &&& a.owner == b.owner
}

/// A copy of a node.
pub fn copy_node(n: &Node) -> (r: Node)
    ensures
        same_node(r, *n),
{
    Node {
        id: n.id.clone(),
        name: n.name.clone(),
        node_type: n.node_type,
        status: n.status,
        config: NodeConfig {
            name: n.config.name.clone(),
            hostname: copy_opt_string(&n.config.hostname),
            port: n.config.port,
            ssh_key_path: copy_opt_string(&n.config.ssh_key_path),
            username: copy_opt_string(&n.config.username),
            api_token: copy_opt_string(&n.config.api_token),
        },
        last_seen: n.last_seen,
        servers: copy_strings(&n.servers),
        metrics: n.metrics,
        owner: copy_opt_string(&n.owner),
    }
}

proof fn lemma_node_push_unique(s: Seq<Node>, n: Node)
    requires
        node_ids_unique(s),
        !has_node(s, n.id@),
    ensures
        node_ids_unique(s.push(n)),
{
    let t = s.push(n);
    assert forall|a: int, b: int|
        0 <= a < t.len() && 0 <= b < t.len() && #[trigger] t[a].id@ == #[trigger] t[b].id@ implies a == b by {
        if a < s.len() && b == s.len() {
            assert(node_slot(s, n.id@, a));
        }
        if b < s.len() && a == s.len() {
            assert(node_slot(s, n.id@, b));
        }
    }
}

proof fn lemma_token_update_unique(s: Seq<PairingToken>, i: int, t: PairingToken)
    requires
        tokens_unique(s),
        0 <= i < s.len(),
        t.token@ == s[i].token@,
    ensures
        tokens_unique(s.update(i, t)),
{
    let u = s.update(i, t);
    assert forall|a: int, b: int|
        0 <= a < u.len() && 0 <= b < u.len() && #[trigger] u[a].token@ == #[trigger] u[b].token@ implies a == b by {
        assert(u[a].token@ == s[a].token@);
        assert(u[b].token@ == s[b].token@);
    }
}

/// Relies on `chrono::Utc::now` and `DateTime::timestamp_millis`: the current
/// time in milliseconds since the Unix epoch. Nothing is promised of its value.
#[verifier::external_body]
pub(crate) fn clock_millis() -> (r: i64) {
    chrono::Utc::now().timestamp_millis()
}

/// Relies on `uuid::Uuid::new_v4` and its `Display`, which writes the
/// hyphenated form: 36 characters.
#[verifier::external_body]
pub(crate) fn fresh_uuid() -> (r: String)
    ensures
        r@.len() == 36,
{
    uuid::Uuid::new_v4().to_string()
}

impl NodeManager {
    pub closed spec fn nodes(&self) -> Seq<Node> {
        self.nodes@
    }

    pub closed spec fn tokens(&self) -> Seq<PairingToken> {
        self.tokens@
    }

    pub open spec fn wf(&self) -> bool {
        &&& node_ids_unique(self.nodes())
        &&& tokens_unique(self.tokens())
        &&& has_node(self.nodes(), local_id())
    }

    /// A registry holding only the local node, seen now.
    pub fn new() -> (r: NodeManager)
        ensures
            r.wf(),
            r.tokens().len() == 0,
            r.nodes().len() == 1,
            r.nodes()[0].id@ == local_id(),
            r.nodes()[0].name@ == "My PC"@,
            r.nodes()[0].node_type == NodeType::Local,
            r.nodes()[0].status == NodeStatus::Online,
            r.nodes()[0].config.name@ == "Local"@,
            r.nodes()[0].last_seen.is_some(),
            r.nodes()[0].servers@.len() == 0,
            r.nodes()[0].metrics.is_none(),
            r.nodes()[0].owner.is_none(),
    {
        NodeManager::new_at(clock_millis())
    }

    /// A registry holding only the local node, seen at `now`.
    pub fn new_at(now: i64) -> (r: NodeManager)
        ensures
            r.wf(),
            r.tokens().len() == 0,
            r.nodes().len() == 1,
            r.nodes()[0].id@ == local_id(),
            r.nodes()[0].name@ == "My PC"@,
            r.nodes()[0].node_type == NodeType::Local,
            r.nodes()[0].status == NodeStatus::Online,
            r.nodes()[0].config.name@ == "Local"@,
            r.nodes()[0].last_seen == Some(now),
            r.nodes()[0].servers@.len() == 0,
            r.nodes()[0].metrics.is_none(),
            r.nodes()[0].owner.is_none(),
    {
        let local = Node {
            id: "local".to_string(),
            name: "My PC".to_string(),
            node_type: NodeType::Local,
            status: NodeStatus::Online,
            config: NodeConfig {
                name: "Local".to_string(),
                hostname: None,
                port: None,
                ssh_key_path: None,
                username: None,
                api_token: None,
            },
            last_seen: Some(now),
            servers: Vec::new(),
            metrics: None,
            owner: None,
        };
        let mut nodes: Vec<Node> = Vec::new();
        nodes.push(local);
        let r = NodeManager { nodes, tokens: Vec::new() };
        assert(node_slot(r.nodes(), local_id(), 0));
        r
    }

    fn find_node(&self, id: &str) -> (r: Option<usize>)
        ensures
            match r {
                Some(i) => node_slot(self.nodes(), id@, i as int),
                None => !has_node(self.nodes(), id@),
            },
    {
        let key = id.to_string();
        let mut i: usize = 0;
        while i < self.nodes.len()
            invariant
                key@ == id@,
                i <= self.nodes@.len(),
                forall|j: int| 0 <= j < i ==> self.nodes@[j].id@ != id@,
            decreases self.nodes@.len() - i,
        {
            if self.nodes[i].id == key {
                return Some(i);
            }
            i = i + 1;
        }
        assert forall|j: int| !node_slot(self.nodes(), id@, j) by {
            if 0 <= j < self.nodes@.len() {
                assert(self.nodes@[j].id@ != id@);
            }
        }
        None
    }

    fn find_token(&self, token: &str) -> (r: Option<usize>)
        ensures
            match r {
                Some(i) => token_slot(self.tokens(), token@, i as int),
                None => !has_token(self.tokens(), token@),
            },
    {
        let key = token.to_string();
        let mut i: usize = 0;
        while i < self.tokens.len()
            invariant
                key@ == token@,
                i <= self.tokens@.len(),
                forall|j: int| 0 <= j < i ==> self.tokens@[j].token@ != token@,
            decreases self.tokens@.len() - i,
        {
            if self.tokens[i].token == key {
                return Some(i);
            }
            i = i + 1;
        }
        assert forall|j: int| !token_slot(self.tokens(), token@, j) by {
            if 0 <= j < self.tokens@.len() {
                assert(self.tokens@[j].token@ != token@);
            }
        }
        None
    }

    /// A copy of one node.
    pub fn get_node(&self, id: &str) -> (r: Option<Node>)
        requires
            self.wf(),
        ensures
            !has_node(self.nodes(), id@) ==> r.is_none(),
            forall|i: int| #[trigger] node_slot(self.nodes(), id@, i) ==> r.is_some() && same_node(r.unwrap(), self.nodes()[i]),
    {
        match self.find_node(id) {
            Some(i) => {
                assert forall|j: int| #[trigger] node_slot(self.nodes(), id@, j) implies j == i by {}
                Some(copy_node(&self.nodes[i]))
            },
            None => None,
        }
    }

    /// Issues `token` for `owner` at `now`: pending, expiring a fixed time
    /// later. A token string issued before is replaced.
    pub fn issue_token_at(&mut self, token: String, owner: String, now: i64)
        requires
            old(self).wf(),
        ensures
            final(self).wf(),
            final(self).nodes() == old(self).nodes(),
            has_token(final(self).tokens(), token@),
            forall|i: int| #[trigger] token_slot(final(self).tokens(), token@, i) ==> final(self).tokens()[i] == (
            PairingToken { token, owner, node_id: None, expires_at: expiry_after(now) }),
            forall|i: int| 0 <= i < old(self).tokens().len() && old(self).tokens()[i].token@ != token@
                ==> has_token(final(self).tokens(), #[trigger] old(self).tokens()[i].token@),
            forall|i: int| 0 <= i < final(self).tokens().len() && final(self).tokens()[i].token@ != token@
                ==> exists|j: int| 0 <= j < old(self).tokens().len() && #[trigger] old(self).tokens()[j] == #[trigger] final(self).tokens()[i],
    {
        let expires_at: i64 = if now > i64::MAX - TOKEN_TTL_MS { i64::MAX } else { now + TOKEN_TTL_MS };
        let entry = PairingToken { token, owner, node_id: None, expires_at };
        let ghost e = entry;
        let ghost before = self.tokens@;
        match self.find_token(entry.token.as_str()) {
            Some(i) => {
                self.tokens.set(i, entry);
                proof {
                    lemma_token_update_unique(before, i as int, e);
                    assert forall|k: int| #[trigger] token_slot(self.tokens(), e.token@, k) implies k == i by {}
                    assert forall|k: int| 0 <= k < before.len() && before[k].token@ != e.token@
                        implies has_token(self.tokens(), #[trigger] before[k].token@) by {
                        assert(token_slot(self.tokens(), before[k].token@, k));
                    }
                    assert forall|k: int| 0 <= k < self.tokens().len() && self.tokens()[k].token@ != e.token@
                        implies exists|j: int| 0 <= j < before.len() && #[trigger] before[j] == #[trigger] self.tokens()[k] by {
                        assert(before[k] == self.tokens()[k]);
                    }
                    assert(token_slot(self.tokens(), e.token@, i as int));
                }
            },
            None => {
                self.tokens.push(entry);
                proof {
                    let t = self.tokens();
                    assert(t == before.push(e));
                    assert forall|a: int, b: int|
                        0 <= a < t.len() && 0 <= b < t.len() && #[trigger] t[a].token@ == #[trigger] t[b].token@
                        implies a == b by {
                        if a < before.len() && b == before.len() {
                            assert(token_slot(before, e.token@, a));
                        }
                        if b < before.len() && a == before.len() {
                            assert(token_slot(before, e.token@, b));
                        }
                    }
                    assert forall|k: int| #[trigger] token_slot(t, e.token@, k) implies k == before.len() by {
                        if k < before.len() {
                            assert(token_slot(before, e.token@, k));
                        }
                    }
                    assert forall|k: int| 0 <= k < before.len() && before[k].token@ != e.token@
                        implies has_token(t, #[trigger] before[k].token@) by {
                        assert(token_slot(t, before[k].token@, k));
                    }
                    assert forall|k: int| 0 <= k < t.len() && t[k].token@ != e.token@
                        implies exists|j: int| 0 <= j < before.len() && #[trigger] before[j] == #[trigger] t[k] by {
                        assert(before[k] == t[k]);
                    }
                    assert(token_slot(t, e.token@, before.len() as int));
                }
            },
        }
    }

    /// Mints a pairing token for `owner`, valid for a fixed time from now.
    pub fn generate_pairing_token(&mut self, owner: &str) -> (r: String)
        requires
            old(self).wf(),
        ensures
            final(self).wf(),
            final(self).nodes() == old(self).nodes(),
            "sm-"@.is_prefix_of(r@),
            r@.len() == 39,
            has_token(final(self).tokens(), r@),
            forall|i: int| #[trigger] token_slot(final(self).tokens(), r@, i) ==> final(self).tokens()[i].owner@ == owner@
                && final(self).tokens()[i].node_id.is_none(),
            forall|i: int| #[trigger] token_slot(final(self).tokens(), r@, i)
                ==> exists|now: i64| final(self).tokens()[i].expires_at == #[trigger] expiry_after(now),
            forall|i: int| 0 <= i < old(self).tokens().len() && old(self).tokens()[i].token@ != r@
                ==> has_token(final(self).tokens(), #[trigger] old(self).tokens()[i].token@),
            forall|i: int| 0 <= i < final(self).tokens().len() && final(self).tokens()[i].token@ != r@
                ==> exists|j: int| 0 <= j < old(self).tokens().len() && #[trigger] old(self).tokens()[j] == #[trigger] final(self).tokens()[i],
    {
        let id = fresh_uuid();
        let token = join2("sm-", id.as_str());
        proof { reveal_strlit("sm-"); }
        assert("sm-"@.is_prefix_of(token@)) by {
            assert(token@.subrange(0, 3) =~= "sm-"@);
        }
        let now = clock_millis();
        self.issue_token_at(token.clone(), owner.to_string(), now);
        token
    }

    /// Redeems `token` at time `now`. An unknown or expired token gives
    /// `None`. A bound token gives its node id. A pending token is bound to a
    /// node id minted from `fresh`, and a `Connecting` remote node is created
    /// for it; should that id be taken already, `None` and nothing changes.
    pub fn validate_token_at(&mut self, token: &str, now: i64, fresh: &str) -> (r: Option<String>)
        requires
            old(self).wf(),
        ensures
            final(self).wf(),
            validate_outcome(
                old(self).tokens(),
                old(self).nodes(),
                token@,
                now,
                fresh@,
                r,
                final(self).tokens(),
                final(self).nodes(),
            ),
    {
        let i = match self.find_token(token) {
            Some(i) => i,
            None => return None,
        };
        assert forall|j: int| #[trigger] token_slot(self.tokens(), token@, j) implies j == i by {}
        if now >= self.tokens[i].expires_at {
            return None;
        }
        match &self.tokens[i].node_id {
            Some(n) => return Some(n.clone()),
            None => {},
        }
        let node_id = join2("node-", fresh);
        if self.find_node(node_id.as_str()).is_some() {
            return None;
        }
        let name = join2("VPS Node ", take_chars(fresh, 6).as_str());
        let node = Node {
            id: node_id.clone(),
            name: name.clone(),
            node_type: NodeType::Remote,
            status: NodeStatus::Connecting,
            config: NodeConfig {
                name,
                hostname: None,
                port: None,
                ssh_key_path: None,
                username: None,
                api_token: Some(token.to_string()),
            },
            last_seen: Some(now),
            servers: Vec::new(),
            metrics: None,
            owner: Some(self.tokens[i].owner.clone()),
        };
        let ghost ns = self.nodes@;
        let ghost ts = self.tokens@;
        proof { lemma_node_push_unique(ns, node); }
        self.nodes.push(node);
        let updated = PairingToken {
            token: self.tokens[i].token.clone(),
            owner: self.tokens[i].owner.clone(),
            node_id: Some(node_id.clone()),
            expires_at: self.tokens[i].expires_at,
        };
        self.tokens.set(i, updated);
        proof {
            lemma_token_update_unique(ts, i as int, updated);
            assert(self.nodes@.drop_last() =~= ns);
            let j = choose|j: int| node_slot(ns, local_id(), j);
            assert(node_slot(self.nodes(), local_id(), j));
        }
        Some(node_id)
    }

    /// Redeems `token` now; see [`NodeManager::validate_token_at`].
    pub fn validate_token(&mut self, token: &str) -> (r: Option<String>)
        requires
            old(self).wf(),
        ensures
            final(self).wf(),
            !has_token(old(self).tokens(), token@) ==> r.is_none() && final(self).tokens() == old(self).tokens()
                && final(self).nodes() == old(self).nodes(),
            forall|i: int| #[trigger] token_slot(old(self).tokens(), token@, i) && old(self).tokens()[i].node_id.is_some()
                ==> (r.is_none() || r == old(self).tokens()[i].node_id),
            exists|now: i64, fresh: Seq<char>| fresh.len() == 36 && validate_outcome(
                old(self).tokens(),
                old(self).nodes(),
                token@,
                now,
                fresh,
                r,
                final(self).tokens(),
                final(self).nodes(),
            ),
    {
        let now = clock_millis();
        let fresh = fresh_uuid();
        self.validate_token_at(token, now, fresh.as_str())
    }
}


/// `n` after a telemetry report at `now`: metrics stored, seen now, `Online`.
pub open spec fn reported(n: Node, metrics: NodeMetrics, now: i64) -> Node {
    Node {
        id: n.id,
        name: n.name,
        node_type: n.node_type,
        status: NodeStatus::Online,
        config: n.config,
        last_seen: Some(now),
        servers: n.servers,
        metrics: Some(metrics),
        owner: n.owner,
    }
}

/// `n` with a new status.
pub open spec fn with_status(n: Node, status: NodeStatus) -> Node {
    Node {
        id: n.id,
        name: n.name,
        node_type: n.node_type,
        status,
        config: n.config,
        last_seen: n.last_seen,
        servers: n.servers,
        metrics: n.metrics,
        owner: n.owner,
    }
}

/// The tokens of `s` still valid at `now`.
pub open spec fn live_at(s: Seq<PairingToken>, now: i64) -> Seq<PairingToken>
    decreases s.len(),
{
    if s.len() == 0 {
        s
    } else if s.last().expires_at > now {
        live_at(s.drop_last(), now).push(s.last())
    } else {
        live_at(s.drop_last(), now)
    }
}

proof fn lemma_live_from(s: Seq<PairingToken>, now: i64, k: int)
    requires
        0 <= k < live_at(s, now).len(),
    ensures
        exists|j: int| 0 <= j < s.len() && s[j] == live_at(s, now)[k],
    decreases s.len(),
{
    let sub = s.drop_last();
    if s.last().expires_at > now && k == live_at(sub, now).len() {
        assert(s[s.len() - 1] == live_at(s, now)[k]);
    } else {
        lemma_live_from(sub, now, k);
        let j = choose|j: int| 0 <= j < sub.len() && sub[j] == live_at(sub, now)[k];
        assert(s[j] == live_at(s, now)[k]);
    }
}

proof fn lemma_node_update_wf(s: Seq<Node>, i: int, n: Node)
    requires
        node_ids_unique(s),
        has_node(s, local_id()),
        0 <= i < s.len(),
        n.id@ == s[i].id@,
    ensures
        node_ids_unique(s.update(i, n)),
        has_node(s.update(i, n), local_id()),
{
    let u = s.update(i, n);
    assert forall|a: int, b: int|
        0 <= a < u.len() && 0 <= b < u.len() && #[trigger] u[a].id@ == #[trigger] u[b].id@ implies a == b by {
        assert(u[a].id@ == s[a].id@);
        assert(u[b].id@ == s[b].id@);
    }
    let j = choose|j: int| node_slot(s, local_id(), j);
    assert(node_slot(u, local_id(), j));
}

impl NodeManager {
    /// A copy of every node, in registration order, the local node listing
    /// the servers of `local`.
    pub fn list_nodes(&self, local: &ServerManager) -> (r: Vec<Node>)
        ensures
            r@.len() == self.nodes().len(),
            forall|i: int| 0 <= i < r@.len() ==> listed_node(#[trigger] r@[i], self.nodes()[i], ids_of(local@)),
    {
        let ids = local.server_ids();
        let mut out: Vec<Node> = Vec::new();
        let mut i: usize = 0;
        while i < self.nodes.len()
            invariant
                i <= self.nodes@.len(),
                out@.len() == i,
                texts(ids@) == ids_of(local@),
                forall|k: int| 0 <= k < i ==> listed_node(#[trigger] out@[k], self.nodes@[k], ids_of(local@)),
            decreases self.nodes@.len() - i,
        {
            let mut n = copy_node(&self.nodes[i]);
            if self.nodes[i].id == "local".to_string() {
                n.servers = copy_strings(&ids);
            }
            out.push(n);
            i = i + 1;
        }
        out
    }

    /// Registers a node under its own id.
    pub fn add_node(&mut self, node: Node) -> (r: Result<(), String>)
        requires
            old(self).wf(),
        ensures
            final(self).wf(),
            final(self).tokens() == old(self).tokens(),
            has_node(old(self).nodes(), node.id@) ==> r is Err && final(self).nodes() == old(self).nodes()
                && r->Err_0@ == "Node with ID "@ + node.id@ + " already exists"@,
            !has_node(old(self).nodes(), node.id@) ==> r is Ok && final(self).nodes() == old(self).nodes().push(node),
    {
        if self.find_node(node.id.as_str()).is_some() {
            return Err(crate::text::join3("Node with ID ", node.id.as_str(), " already exists"));
        }
        let ghost ns = self.nodes@;
        proof { lemma_node_push_unique(ns, node); }
        self.nodes.push(node);
        proof {
            let j = choose|j: int| node_slot(ns, local_id(), j);
            assert(node_slot(self.nodes(), local_id(), j));
        }
        Ok(())
    }

    /// Replaces the node registered under `id`. The replacement must carry
    /// the same id.
    pub fn update_node(&mut self, id: &str, node: Node) -> (r: Result<(), String>)
        requires
            old(self).wf(),
        ensures
            final(self).wf(),
            final(self).tokens() == old(self).tokens(),
            !has_node(old(self).nodes(), id@) ==> r is Err && final(self).nodes() == old(self).nodes()
                && r->Err_0@ == "Node with ID "@ + id@ + " not found"@,
            has_node(old(self).nodes(), id@) && node.id@ != id@ ==> r is Err && final(self).nodes() == old(self).nodes()
                && r->Err_0@ == "Node ID "@ + node.id@ + " does not match "@ + id@,
            forall|i: int| #[trigger] node_slot(old(self).nodes(), id@, i) && node.id@ == id@
                ==> r is Ok && final(self).nodes() == old(self).nodes().update(i, node),
    {
        let i = match self.find_node(id) {
            Some(i) => i,
            None => return Err(crate::text::join3("Node with ID ", id, " not found")),
        };
        assert forall|j: int| #[trigger] node_slot(self.nodes(), id@, j) implies j == i by {}
        let same = node.id == id.to_string();
        if !same {
            let mut msg = crate::text::join3("Node ID ", node.id.as_str(), " does not match ");
            msg.append(id);
            return Err(msg);
        }
        let ghost ns = self.nodes@;
        proof { lemma_node_update_wf(ns, i as int, node); }
        self.nodes.set(i, node);
        Ok(())
    }

    /// Removes a node. The local node cannot be removed.
    pub fn remove_node(&mut self, id: &str) -> (r: Result<(), String>)
        requires
            old(self).wf(),
        ensures
            final(self).wf(),
            final(self).tokens() == old(self).tokens(),
            id@ == local_id() ==> r is Err && final(self).nodes() == old(self).nodes()
                && r->Err_0@ == "Cannot remove local node"@,
            id@ != local_id() && !has_node(old(self).nodes(), id@) ==> r is Err && final(self).nodes() == old(self).nodes()
                && r->Err_0@ == "Node with ID "@ + id@ + " not found"@,
            forall|i: int| #[trigger] node_slot(old(self).nodes(), id@, i) && id@ != local_id()
                ==> r is Ok && final(self).nodes() == old(self).nodes().remove(i),
    {
        if id.to_string() == "local".to_string() {
            return Err("Cannot remove local node".to_string());
        }
        let i = match self.find_node(id) {
            Some(i) => i,
            None => return Err(crate::text::join3("Node with ID ", id, " not found")),
        };
        assert forall|j: int| #[trigger] node_slot(self.nodes(), id@, j) implies j == i by {}
        let ghost ns = self.nodes@;
        self.nodes.remove(i);
        proof {
            let t = self.nodes();
            assert(t =~= ns.remove(i as int));
            assert forall|a: int, b: int|
                0 <= a < t.len() && 0 <= b < t.len() && #[trigger] t[a].id@ == #[trigger] t[b].id@ implies a == b by {
                let a2 = if a < i { a } else { a + 1 };
                let b2 = if b < i { b } else { b + 1 };
                assert(t[a] == ns[a2]);
                assert(t[b] == ns[b2]);
            }
            let j = choose|j: int| node_slot(ns, local_id(), j);
            assert(j != i);
            let j2 = if j < i { j } else { j - 1 };
            assert(t[j2] == ns[j]);
            assert(node_slot(t, local_id(), j2));
        }
        Ok(())
    }

    /// Records a telemetry report from a node at `now`: its metrics are
    /// stored, it was seen now, and it is `Online`.
    pub fn update_node_metrics_at(&mut self, node_id: &str, metrics: NodeMetrics, now: i64) -> (r: Result<(), String>)
        requires
            old(self).wf(),
        ensures
            final(self).wf(),
            final(self).tokens() == old(self).tokens(),
            !has_node(old(self).nodes(), node_id@) ==> r is Err && final(self).nodes() == old(self).nodes()
                && r->Err_0@ == "Node with ID "@ + node_id@ + " not found"@,
            forall|i: int| #[trigger] node_slot(old(self).nodes(), node_id@, i)
                ==> r is Ok && final(self).nodes() == old(self).nodes().update(i, reported(old(self).nodes()[i], metrics, now)),
    {
        let i = match self.find_node(node_id) {
            Some(i) => i,
            None => return Err(crate::text::join3("Node with ID ", node_id, " not found")),
        };
        assert forall|j: int| #[trigger] node_slot(self.nodes(), node_id@, j) implies j == i by {}
        let ghost ns = self.nodes@;
        proof { lemma_node_update_wf(ns, i as int, reported(ns[i as int], metrics, now)); }
        self.nodes[i].metrics = Some(metrics);
        self.nodes[i].last_seen = Some(now);
        self.nodes[i].status = NodeStatus::Online;
        assert(self.nodes@ =~= ns.update(i as int, reported(ns[i as int], metrics, now)));
        Ok(())
    }

    /// Records a telemetry report from a node now.
    pub fn update_node_metrics(&mut self, node_id: &str, metrics: NodeMetrics) -> (r: Result<(), String>)
        requires
            old(self).wf(),
        ensures
            final(self).wf(),
            final(self).tokens() == old(self).tokens(),
            !has_node(old(self).nodes(), node_id@) <==> r is Err,
            !has_node(old(self).nodes(), node_id@) ==> final(self).nodes() == old(self).nodes(),
            forall|i: int| #[trigger] node_slot(old(self).nodes(), node_id@, i)
                ==> exists|now: i64| final(self).nodes() == old(self).nodes().update(i, #[trigger] reported(old(self).nodes()[i], metrics, now)),
    {
        let now = clock_millis();
        self.update_node_metrics_at(node_id, metrics, now)
    }

    /// Sets the status of a node.
    pub fn update_node_status(&mut self, node_id: &str, status: NodeStatus) -> (r: Result<(), String>)
        requires
            old(self).wf(),
        ensures
            final(self).wf(),
            final(self).tokens() == old(self).tokens(),
            !has_node(old(self).nodes(), node_id@) ==> r is Err && final(self).nodes() == old(self).nodes()
                && r->Err_0@ == "Node with ID "@ + node_id@ + " not found"@,
            forall|i: int| #[trigger] node_slot(old(self).nodes(), node_id@, i)
                ==> r is Ok && final(self).nodes() == old(self).nodes().update(i, with_status(old(self).nodes()[i], status)),
    {
        let i = match self.find_node(node_id) {
            Some(i) => i,
            None => return Err(crate::text::join3("Node with ID ", node_id, " not found")),
        };
        assert forall|j: int| #[trigger] node_slot(self.nodes(), node_id@, j) implies j == i by {}
        let ghost ns = self.nodes@;
        proof { lemma_node_update_wf(ns, i as int, with_status(ns[i as int], status)); }
        self.nodes[i].status = status;
        assert(self.nodes@ =~= ns.update(i as int, with_status(ns[i as int], status)));
        Ok(())
    }

    /// The owner recorded for a node, if any.
    pub fn node_owner(&self, node_id: &str) -> (r: Option<String>)
        requires
            self.wf(),
        ensures
            !has_node(self.nodes(), node_id@) ==> r.is_none(),
            forall|i: int| #[trigger] node_slot(self.nodes(), node_id@, i) ==> r == self.nodes()[i].owner,
    {
        match self.find_node(node_id) {
            Some(i) => {
                assert forall|j: int| #[trigger] node_slot(self.nodes(), node_id@, j) implies j == i by {}
                copy_opt_string(&self.nodes[i].owner)
            },
            None => None,
        }
    }

    /// Drops the tokens that have expired by `now`. Nodes already bound stay.
    pub fn cleanup_expired_tokens_at(&mut self, now: i64)
        requires
            old(self).wf(),
        ensures
            final(self).wf(),
            final(self).nodes() == old(self).nodes(),
            final(self).tokens() == live_at(old(self).tokens(), now),
    {
        let ghost ts = self.tokens@;
        let mut kept: Vec<PairingToken> = Vec::new();
        let mut i: usize = 0;
        while i < self.tokens.len()
            invariant
                ts == self.tokens@,
                i <= ts.len(),
                kept@ == live_at(ts.subrange(0, i as int), now),
            decreases ts.len() - i,
        {
            proof {
                assert(ts.subrange(0, i + 1).drop_last() =~= ts.subrange(0, i as int));
            }
            if self.tokens[i].expires_at > now {
                let t = PairingToken {
                    token: self.tokens[i].token.clone(),
                    owner: self.tokens[i].owner.clone(),
                    node_id: copy_opt_string(&self.tokens[i].node_id),
                    expires_at: self.tokens[i].expires_at,
                };
                kept.push(t);
            }
            i = i + 1;
        }
        proof {
            assert(ts.subrange(0, i as int) =~= ts);
            let k = kept@;
            assert forall|a: int, b: int|
                0 <= a < k.len() && 0 <= b < k.len() && #[trigger] k[a].token@ == #[trigger] k[b].token@ implies a == b by {
                lemma_filter_unique(ts, now, a, b);
            }
        }
        self.tokens = kept;
    }

    /// Drops the tokens that have expired by now.
    pub fn cleanup_expired_tokens(&mut self)
        requires
            old(self).wf(),
        ensures
            final(self).wf(),
            final(self).nodes() == old(self).nodes(),
            exists|now: i64| final(self).tokens() == live_at(old(self).tokens(), now),
    {
        let now = clock_millis();
        self.cleanup_expired_tokens_at(now)
    }
}

proof fn lemma_filter_unique(s: Seq<PairingToken>, now: i64, a: int, b: int)
    requires
        tokens_unique(s),
        0 <= a < live_at(s, now).len(),
        0 <= b < live_at(s, now).len(),
        live_at(s, now)[a].token@ == live_at(s, now)[b].token@,
    ensures
        a == b,
    decreases s.len(),
{
    let sub = s.drop_last();
    assert(tokens_unique(sub)) by {
        assert forall|x: int, y: int|
            0 <= x < sub.len() && 0 <= y < sub.len() && #[trigger] sub[x].token@ == #[trigger] sub[y].token@ implies x == y by {
            assert(sub[x] == s[x] && sub[y] == s[y]);
        }
    }
    let f = live_at(sub, now);
    if s.last().expires_at > now && (a == f.len() || b == f.len()) {
        if a != b {
            let other = if a == f.len() { b } else { a };
            lemma_live_from(sub, now, other);
            let j = choose|j: int| 0 <= j < sub.len() && sub[j] == f[other];
            assert(s[j].token@ == s[s.len() - 1].token@);
        }
    } else {
        lemma_live_from(sub, now, a);
        lemma_filter_unique(sub, now, a, b);
    }
}

/// Once a token has been redeemed, redeeming it again before it expires gives
/// the same node id and changes nothing; once it has expired, it gives none.
pub proof fn lemma_token_binds_once(
    m0: NodeManager,
    m1: NodeManager,
    m2: NodeManager,
    token: Seq<char>,
    t1: i64,
    fresh1: Seq<char>,
    r1: Option<String>,
    t2: i64,
    fresh2: Seq<char>,
    r2: Option<String>,
)
    requires
        m0.wf(),
        validate_outcome(m0.tokens(), m0.nodes(), token, t1, fresh1, r1, m1.tokens(), m1.nodes()),
        r1.is_some(),
        validate_outcome(m1.tokens(), m1.nodes(), token, t2, fresh2, r2, m2.tokens(), m2.nodes()),
    ensures
        forall|i: int| #[trigger] token_slot(m0.tokens(), token, i) ==> {
            &&& t2 < m0.tokens()[i].expires_at ==> r2 == r1 && m2.tokens() == m1.tokens() && m2.nodes() == m1.nodes()
            &&& t2 >= m0.tokens()[i].expires_at ==> r2.is_none()
        },
        has_token(m0.tokens(), token),
{
    let i = choose|i: int| token_slot(m0.tokens(), token, i);
    assert forall|j: int| #[trigger] token_slot(m0.tokens(), token, j) implies j == i by {}
    assert(token_slot(m1.tokens(), token, i));
    assert(tokens_unique(m1.tokens())) by {
        if m1.tokens() != m0.tokens() {
            lemma_token_update_unique(m0.tokens(), i, m1.tokens()[i]);
        }
    }
    assert forall|j: int| #[trigger] token_slot(m1.tokens(), token, j) implies j == i by {}
}


impl NodeManager {
    /// The node id a token is bound to, without redeeming it.
    pub fn token_binding(&self, token: &str) -> (r: Option<String>)
        requires
            self.wf(),
        ensures
            !has_token(self.tokens(), token@) ==> r.is_none(),
            forall|i: int| #[trigger] token_slot(self.tokens(), token@, i) ==> r == self.tokens()[i].node_id,
    {
        match self.find_token(token) {
            Some(i) => {
                assert forall|j: int| #[trigger] token_slot(self.tokens(), token@, j) implies j == i by {}
                copy_opt_string(&self.tokens[i].node_id)
            },
            None => None,
        }
    }

    /// The number of tokens held.
    pub fn token_count(&self) -> (r: usize)
        ensures
            r == self.tokens().len(),
    {
        self.tokens.len()
    }
}


/// What `get_node_info_by_token_at` does, from tokens `ts` and nodes `ns`.
pub open spec fn node_info_outcome(
    ts: Seq<PairingToken>,
    ns: Seq<Node>,
    token: Seq<char>,
    now: i64,
    fresh: Seq<char>,
    r: Result<NodeInfoResponse, String>,
    ts2: Seq<PairingToken>,
    ns2: Seq<Node>,
) -> bool {
    exists|v: Option<String>| {
        &&& validate_outcome(ts, ns, token, now, fresh, v, ts2, ns2)
        &&& v.is_none() ==> r is Err && r->Err_0@ == "Invalid or unused token: "@ + token
        &&& v.is_some() && !has_node(ns2, v.unwrap()@) ==> r is Err
            && r->Err_0@ == "Node info not available for token: "@ + token
        &&& forall|j: int| v.is_some() && #[trigger] node_slot(ns2, v.unwrap()@, j) ==> r is Ok
            && r->Ok_0.id == v.unwrap() && r->Ok_0.hostname == ns2[j].config.hostname
    }
}

/// What `check_node_connected_at` does, from tokens `ts` and nodes `ns`.
pub open spec fn connected_outcome(
    ts: Seq<PairingToken>,
    ns: Seq<Node>,
    token: Seq<char>,
    now: i64,
    fresh: Seq<char>,
    r: bool,
    ts2: Seq<PairingToken>,
    ns2: Seq<Node>,
) -> bool {
    exists|v: Option<String>| validate_outcome(ts, ns, token, now, fresh, v, ts2, ns2) && r == v.is_some()
}

/// What a desktop learns of the node behind a pairing token.
#[derive(Debug, Clone)]
pub struct NodeInfoResponse {
    pub id: String,
    pub hostname: Option<String>,
}

impl NodeManager {
    /// Whether `token` redeems at `now` (see [`NodeManager::validate_token_at`]).
    pub fn check_node_connected_at(&mut self, token: &str, now: i64, fresh: &str) -> (r: bool)
        requires
            old(self).wf(),
        ensures
            final(self).wf(),
            connected_outcome(old(self).tokens(), old(self).nodes(), token@, now, fresh@, r, final(self).tokens(), final(self).nodes()),
    {
        let v = self.validate_token_at(token, now, fresh);
        assert(validate_outcome(old(self).tokens(), old(self).nodes(), token@, now, fresh@, v, self.tokens(), self.nodes()));
        v.is_some()
    }

    /// Redeems `token` at `now` and describes its node.
    pub fn get_node_info_by_token_at(&mut self, token: &str, now: i64, fresh: &str) -> (r: Result<NodeInfoResponse, String>)
        requires
            old(self).wf(),
        ensures
            final(self).wf(),
            node_info_outcome(old(self).tokens(), old(self).nodes(), token@, now, fresh@, r, final(self).tokens(), final(self).nodes()),
    {
        let v = self.validate_token_at(token, now, fresh);
        match &v {
            None => Err(join2("Invalid or unused token: ", token)),
            Some(id) => match self.get_node(id.as_str()) {
                Some(node) => Ok(NodeInfoResponse { id: id.clone(), hostname: node.config.hostname }),
                None => Err(join2("Node info not available for token: ", token)),
            },
        }
    }

    /// Whether `token` redeems now.
    pub fn check_node_connected(&mut self, token: &str) -> (r: bool)
        requires
            old(self).wf(),
        ensures
            final(self).wf(),
            !has_token(old(self).tokens(), token@) ==> !r,
            exists|now: i64, fresh: Seq<char>| fresh.len() == 36 && connected_outcome(
                old(self).tokens(),
                old(self).nodes(),
                token@,
                now,
                fresh,
                r,
                final(self).tokens(),
                final(self).nodes(),
            ),
    {
        let now = clock_millis();
        let fresh = fresh_uuid();
        self.check_node_connected_at(token, now, fresh.as_str())
    }

    /// Redeems `token` now and describes its node.
    pub fn get_node_info_by_token(&mut self, token: &str) -> (r: Result<NodeInfoResponse, String>)
        requires
            old(self).wf(),
        ensures
            final(self).wf(),
            !has_token(old(self).tokens(), token@) ==> r is Err,
            exists|now: i64, fresh: Seq<char>| fresh.len() == 36 && node_info_outcome(
                old(self).tokens(),
                old(self).nodes(),
                token@,
                now,
                fresh,
                r,
                final(self).tokens(),
                final(self).nodes(),
            ),
    {
        let now = clock_millis();
        let fresh = fresh_uuid();
        self.get_node_info_by_token_at(token, now, fresh.as_str())
    }
}

} // verus!
