use vstd::prelude::*;
use vstd::string::*;

use crate::status::ServerStatus;
use crate::text::{texts, decimal, has_prefix, join2, join3, lower_of, split_words, to_lower, u32_text, words_of};

verus! {

/// How a server is set up: where it lives, what runs it, and with how much memory.
#[derive(Debug, Clone)]
pub struct ServerConfig {
    pub name: String,
    pub path: String,
    pub version: String,
    pub server_type: String,
    pub java_path: Option<String>,
    pub min_memory: u32,
    pub max_memory: u32,
    pub jvm_args: Option<String>,
    pub port: u16,
}

/// A point-in-time description of one registered server.
#[derive(Debug, Clone)]
pub struct ServerInfo {
    pub id: String,
    pub config: ServerConfig,
    pub status: ServerStatus,
    pub players: u32,
    pub max_players: u32,
}

/// The live part of a server: present from the moment a launch begins until
/// the process is stopped. `pid` is known once the spawn has succeeded.
#[derive(Debug, Clone, Copy, PartialEq, Eq, Structural)]
pub struct ProcessHandle {
    pub pid: Option<u32>,
}

/// A registered server: its configuration, its status, its process handle if
/// one is live, and the lines its process has written so far.
#[derive(Debug)]
pub struct ServerEntry {
    pub id: String,
    pub config: ServerConfig,
    pub status: ServerStatus,
    pub handle: Option<ProcessHandle>,
    pub output: Vec<String>,
}

/// Typed failures of the registry and the supervisor.
#[derive(Debug, Clone, PartialEq, Eq)]
pub enum ServerError {
    NotFound,
    AlreadyExists,
    AlreadyRunning,
    MissingBinary,
    SpawnFailed(String),
    NotRunning,
}

/// The program to run for a server, its arguments, and the directory to run it in.
#[derive(Debug, Clone)]
pub struct LaunchCommand {
    pub program: String,
    pub args: Vec<String>,
    pub working_dir: String,
}

/// The player slots every server reports.
pub const DEFAULT_MAX_PLAYERS: u32 = 20;

/// Servers of this runtime kind are PHP based; all others run on the JVM.
pub open spec fn is_php_runtime(c: ServerConfig) -> bool {
    php_kind(lower_of(c.server_type@))
}

/// Whether a lower-cased runtime kind names the PHP runtime.
pub open spec fn php_kind(lowered: Seq<char>) -> bool {
    lowered == "pocketmine"@
}

/// The file that must be present in the install directory before a launch.
pub open spec fn artifact_spec(c: ServerConfig) -> Seq<char> {
    if is_php_runtime(c) {
        c.path@ + "/PocketMine-MP.phar"@
    } else {
        c.path@ + "/server.jar"@
    }
}

/// The extra JVM arguments of a configuration.
pub open spec fn extra_jvm_args(c: ServerConfig) -> Seq<Seq<char>> {
    match c.jvm_args {
        Some(a) => words_of(a@),
        None => Seq::empty(),
    }
}

/// The argument vector for a configuration, given whether it runs on PHP
/// and its extra JVM arguments.
pub open spec fn args_for(c: ServerConfig, php: bool, extra: Seq<Seq<char>>) -> Seq<Seq<char>> {
    if php {
        seq!["PocketMine-MP.phar"@]
    } else {
        seq!["-Xms"@ + decimal(c.min_memory as nat) + "M"@, "-Xmx"@ + decimal(c.max_memory as nat) + "M"@]
            + extra + seq!["-jar"@, "server.jar"@, "nogui"@]
    }
}

/// The argument vector a server is launched with.
pub open spec fn launch_args(c: ServerConfig) -> Seq<Seq<char>> {
    args_for(c, is_php_runtime(c), extra_jvm_args(c))
}

/// Whether a lower-cased runtime kind names the PHP runtime.
pub fn is_php_kind(lowered: &str) -> (r: bool)
    ensures
        r == php_kind(lowered@),
{
    lowered.to_string() == "pocketmine".to_string()
}

/// The major Java release a Minecraft version needs.
pub open spec fn java_release_spec(version: Seq<char>) -> Seq<char> {
    if "1.21"@.is_prefix_of(version) || "1.22"@.is_prefix_of(version) {
        "21"@
    } else {
        "17"@
    }
}

impl ServerConfig {
    /// Whether this configuration names the PHP runtime.
    pub fn is_php_runtime(&self) -> (r: bool)
        ensures
            r == is_php_runtime(*self),
    {
        let kind = to_lower(self.server_type.as_str());
        is_php_kind(kind.as_str())
    }

    /// The path of the file a launch needs.
    pub fn launch_artifact(&self) -> (r: String)
        ensures
            r@ == artifact_spec(*self),
    {
        if self.is_php_runtime() {
            join2(self.path.as_str(), "/PocketMine-MP.phar")
        } else {
            join2(self.path.as_str(), "/server.jar")
        }
    }

    /// The launch command, given the interpreter (`java` or `php`) to run.
    pub fn launch_command(&self, interpreter: String) -> (r: LaunchCommand)
        ensures
            r.program@ == interpreter@,
            texts(r.args@) == launch_args(*self),
            r.working_dir@ == self.path@,
    {
        let extra: Vec<String> = match &self.jvm_args {
            Some(a) => split_words(a.as_str()),
            None => Vec::new(),
        };
        assert(texts(extra@) =~= extra_jvm_args(*self));
        self.launch_command_for(self.is_php_runtime(), &extra, interpreter)
    }

    /// The launch command, given whether the server runs on PHP, its extra
    /// JVM arguments, and the interpreter to run.
    pub fn launch_command_for(&self, php: bool, extra: &Vec<String>, interpreter: String) -> (r: LaunchCommand)
        ensures
            r.program@ == interpreter@,
            texts(r.args@) == args_for(*self, php, texts(extra@)),
            r.working_dir@ == self.path@,
    {
        let mut args: Vec<String> = Vec::new();
        if php {
            args.push("PocketMine-MP.phar".to_string());
            assert(texts(args@) =~= args_for(*self, php, texts(extra@)));
        } else {
            let xms = u32_text(self.min_memory);
            let xmx = u32_text(self.max_memory);
            args.push(join3("-Xms", xms.as_str(), "M"));
            args.push(join3("-Xmx", xmx.as_str(), "M"));
            let ghost head = texts(args@);
            assert(head =~= seq!["-Xms"@ + decimal(self.min_memory as nat) + "M"@, "-Xmx"@ + decimal(self.max_memory as nat) + "M"@]);
            let mut i: usize = 0;
            while i < extra.len()
                invariant
                    i <= extra.len(),
                    texts(args@) == head + texts(extra@).subrange(0, i as int),
                decreases extra.len() - i,
            {
                let ghost before = args@;
                let w = extra[i].clone();
                args.push(w);
                assert(args@ == before.push(w));
                assert(texts(extra@)[i as int] == w@);
                assert(texts(args@) =~= texts(before).push(w@));
                assert(texts(extra@).subrange(0, i + 1) =~= texts(extra@).subrange(0, i as int).push(w@));
                i = i + 1;
            }
            assert(texts(extra@).subrange(0, i as int) =~= texts(extra@));
            let ghost mid = texts(args@);
            args.push("-jar".to_string());
            args.push("server.jar".to_string());
            args.push("nogui".to_string());
            assert(texts(args@) =~= mid + seq!["-jar"@, "server.jar"@, "nogui"@]);
            assert(texts(args@) =~= args_for(*self, php, texts(extra@)));
        }
        LaunchCommand { program: interpreter, args, working_dir: self.path.clone() }
    }
}

/// A copy of an optional string.
pub(crate) fn copy_opt_string(o: &Option<String>) -> (r: Option<String>)
    ensures
        r == *o,
{
    match o {
        Some(s) => Some(s.clone()),
        None => None,
    }
}

impl ServerConfig {
    /// A field-by-field copy.
    pub fn duplicate(&self) -> (r: ServerConfig)
        ensures
            r == *self,
    {
        ServerConfig {
            name: self.name.clone(),
            path: self.path.clone(),
            version: self.version.clone(),
            server_type: self.server_type.clone(),
            java_path: copy_opt_string(&self.java_path),
            min_memory: self.min_memory,
            max_memory: self.max_memory,
            jvm_args: copy_opt_string(&self.jvm_args),
            port: self.port,
        }
    }
}

/// The major Java release a Minecraft version needs: 21 from 1.21 on, else 17.
pub fn required_java_release(version: &str) -> (r: String)
    ensures
        r@ == java_release_spec(version@),
{
    if has_prefix(version, "1.21") || has_prefix(version, "1.22") {
        "21".to_string()
    } else {
        "17".to_string()
    }
}

/// The message that describes a failure to a user.
pub open spec fn error_text(e: ServerError) -> Seq<char> {
    match e {
        ServerError::NotFound => "Server not found"@,
        ServerError::AlreadyExists => "Server with this ID already exists"@,
        ServerError::AlreadyRunning => "Server is already running"@,
        ServerError::MissingBinary => "Server launch file not found"@,
        ServerError::SpawnFailed(os) => "Failed to start server: "@ + os@,
        ServerError::NotRunning => "Server is not running"@,
    }
}

impl ServerError {
    /// The message that describes this failure to a user.
    pub fn message(&self) -> (r: String)
        ensures
            r@ == error_text(*self),
    {
        match self {
            ServerError::NotFound => "Server not found".to_string(),
            ServerError::AlreadyExists => "Server with this ID already exists".to_string(),
            ServerError::AlreadyRunning => "Server is already running".to_string(),
            ServerError::MissingBinary => "Server launch file not found".to_string(),
            ServerError::SpawnFailed(os) => join2("Failed to start server: ", os.as_str()),
            ServerError::NotRunning => "Server is not running".to_string(),
        }
    }
}

} // verus!
