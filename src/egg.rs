use vstd::prelude::*;
use vstd::string::*;

use crate::text::{join3, lower_of, replace_all, replaced, to_lower};

verus! {

/// A configurable setting of an egg, exposed to its install script as an
/// environment variable.
#[derive(Debug, Clone)]
pub struct EggVariable {
    pub name: String,
    pub description: String,
    pub default_value: String,
    pub env_variable: String,
    pub rules: String,
    pub field_type: String,
    pub is_viewable: bool,
    pub is_rules: bool,
}

/// An installer recipe for one kind of server.
#[derive(Debug, Clone)]
pub struct Egg {
    pub id: String,
    pub name: String,
    pub description: String,
    pub author: String,
    pub version: String,
    pub category: String,
    pub script: String,
    pub variables: Vec<EggVariable>,
    pub startup_command: String,
    pub file_denylist: Vec<String>,
    pub file_allowlist: Vec<String>,
    pub features: Vec<String>,
    pub docker_image: Option<String>,
    pub docker_startup: Option<String>,
}

/// A request to install a server from an egg: the chosen variable values
/// (by variable name) and extra environment, each as ordered pairs.
#[derive(Debug, Clone)]
pub struct EggInstallation {
    pub egg_id: String,
    pub server_path: String,
    pub variables: Vec<(String, String)>,
    pub environment: Vec<(String, String)>,
}

/// The author recorded on the eggs that ship with the application.
pub open spec fn builtin_author() -> Seq<char> {
    "ServerMint"@
}

impl Egg {
    /// An egg with no variables, lists, features or container settings.
    pub fn new(
        id: String,
        name: String,
        description: String,
        author: String,
        version: String,
        category: String,
        script: String,
        startup_command: String,
    ) -> (r: Egg)
        ensures
            r.id == id,
            r.name == name,
            r.description == description,
            r.author == author,
            r.version == version,
            r.category == category,
            r.script == script,
            r.startup_command == startup_command,
            r.variables@.len() == 0,
            r.file_denylist@.len() == 0,
            r.file_allowlist@.len() == 0,
            r.features@.len() == 0,
            r.docker_image.is_none(),
            r.docker_startup.is_none(),
    {
        Egg {
            id,
            name,
            description,
            author,
            version,
            category,
            script,
            variables: Vec::new(),
            startup_command,
            file_denylist: Vec::new(),
            file_allowlist: Vec::new(),
            features: Vec::new(),
            docker_image: None,
            docker_startup: None,
        }
    }

    /// Adds a variable; every other field stays.
    pub fn add_variable(&mut self, variable: EggVariable)
        ensures
            same_identity(*final(self), *old(self)),
            final(self).variables@ == old(self).variables@.push(variable),
            final(self).features@ == old(self).features@,
            final(self).docker_image == old(self).docker_image,
            final(self).docker_startup == old(self).docker_startup,
    {
        self.variables.push(variable);
    }

    /// Adds a feature; every other field stays.
    pub fn add_feature(&mut self, feature: String)
        ensures
            same_identity(*final(self), *old(self)),
            final(self).variables@ == old(self).variables@,
            final(self).features@ == old(self).features@.push(feature),
            final(self).docker_image == old(self).docker_image,
            final(self).docker_startup == old(self).docker_startup,
    {
        self.features.push(feature);
    }

    /// Sets the container image; every other field stays.
    pub fn set_docker_image(&mut self, image: String)
        ensures
            same_identity(*final(self), *old(self)),
            final(self).variables@ == old(self).variables@,
            final(self).features@ == old(self).features@,
            final(self).docker_image == Some(image),
            final(self).docker_startup == old(self).docker_startup,
    {
        self.docker_image = Some(image);
    }

    /// Sets the container startup command; every other field stays.
    pub fn set_docker_startup(&mut self, startup: String)
        ensures
            same_identity(*final(self), *old(self)),
            final(self).variables@ == old(self).variables@,
            final(self).features@ == old(self).features@,
            final(self).docker_image == old(self).docker_image,
            final(self).docker_startup == Some(startup),
    {
        self.docker_startup = Some(startup);
    }
}

/// `a` and `b` agree on every field but the variables, features and
/// container settings.
pub open spec fn same_identity(a: Egg, b: Egg) -> bool {
    &&& a.id == b.id
    &&& a.name == b.name
    &&& a.description == b.description
    &&& a.author == b.author
    &&& a.version == b.version
    &&& a.category == b.category
    &&& a.script == b.script
    &&& a.startup_command == b.startup_command
    &&& a.file_denylist@ == b.file_denylist@
    &&& a.file_allowlist@ == b.file_allowlist@
}

pub open spec fn egg_slot(s: Seq<Egg>, id: Seq<char>, i: int) -> bool {
    0 <= i < s.len() && s[i].id@ == id
}

pub open spec fn has_egg(s: Seq<Egg>, id: Seq<char>) -> bool {
    exists|i: int| #[trigger] egg_slot(s, id, i)
}

pub open spec fn egg_ids_unique(s: Seq<Egg>) -> bool {
    forall|i: int, j: int| 0 <= i < s.len() && 0 <= j < s.len() && #[trigger] s[i].id@ == #[trigger] s[j].id@ ==> i == j
}

/// Whether `e` belongs to `category`, compared without regard to case.
pub open spec fn in_category(e: Egg, category: Seq<char>) -> bool {
    lower_of(e.category@) == lower_of(category)
}

/// The eggs of `s` in `category`, in order.
pub open spec fn eggs_in(s: Seq<Egg>, category: Seq<char>) -> Seq<Egg>
    decreases s.len(),
{
    if s.len() == 0 {
        s
    } else if in_category(s.last(), category) {
        eggs_in(s.drop_last(), category).push(s.last())
    } else {
        eggs_in(s.drop_last(), category)
    }
}

/// The catalogue of eggs, each id at most once.
pub struct EggManager {
    eggs_dir: String,
    eggs: Vec<Egg>,
}

impl EggManager {
    pub closed spec fn eggs(&self) -> Seq<Egg> {
        self.eggs@
    }

    pub closed spec fn dir(&self) -> Seq<char> {
        self.eggs_dir@
    }

    pub open spec fn wf(&self) -> bool {
        egg_ids_unique(self.eggs())
    }

    /// An empty catalogue whose custom eggs live in `eggs_dir`.
    pub fn new(eggs_dir: String) -> (r: EggManager)
        ensures
            r.wf(),
            r.eggs().len() == 0,
            r.dir() == eggs_dir@,
    {
        EggManager { eggs_dir, eggs: Vec::new() }
    }

    /// The directory that holds custom eggs.
    pub fn eggs_dir(&self) -> (r: &str)
        ensures
            r@ == self.dir(),
    {
        self.eggs_dir.as_str()
    }

    fn find(&self, id: &str) -> (r: Option<usize>)
        ensures
            match r {
                Some(i) => egg_slot(self.eggs(), id@, i as int),
                None => !has_egg(self.eggs(), id@),
            },
    {
        let key = id.to_string();
        let mut i: usize = 0;
        while i < self.eggs.len()
            invariant
                key@ == id@,
                i <= self.eggs@.len(),
                forall|j: int| 0 <= j < i ==> self.eggs@[j].id@ != id@,
            decreases self.eggs@.len() - i,
        {
            if self.eggs[i].id == key {
                return Some(i);
            }
            i = i + 1;
        }
        assert forall|j: int| !egg_slot(self.eggs(), id@, j) by {
            if 0 <= j < self.eggs@.len() {
                assert(self.eggs@[j].id@ != id@);
            }
        }
        None
    }

    /// Adds an egg, replacing any egg with the same id.
    pub fn insert_egg(&mut self, egg: Egg)
        requires
            old(self).wf(),
        ensures
            final(self).wf(),
            final(self).dir() == old(self).dir(),
            forall|i: int| #[trigger] egg_slot(old(self).eggs(), egg.id@, i) ==> final(self).eggs() == old(self).eggs().update(i, egg),
            !has_egg(old(self).eggs(), egg.id@) ==> final(self).eggs() == old(self).eggs().push(egg),
    {
        let ghost es = self.eggs@;
        let ghost e = egg;
        match self.find(egg.id.as_str()) {
            Some(i) => {
                assert forall|j: int| #[trigger] egg_slot(es, e.id@, j) implies j == i by {}
                self.eggs.set(i, egg);
                proof {
                    let t = self.eggs@;
                    assert forall|a: int, b: int|
                        0 <= a < t.len() && 0 <= b < t.len() && #[trigger] t[a].id@ == #[trigger] t[b].id@ implies a == b by {
                        assert(t[a].id@ == es[a].id@ && t[b].id@ == es[b].id@);
                    }
                }
            },
            None => {
                self.eggs.push(egg);
                proof {
                    let t = self.eggs@;
                    assert(t == es.push(e));
                    assert forall|a: int, b: int|
                        0 <= a < t.len() && 0 <= b < t.len() && #[trigger] t[a].id@ == #[trigger] t[b].id@ implies a == b by {
                        if a < es.len() && b == es.len() {
                            assert(egg_slot(es, e.id@, a));
                        }
                        if b < es.len() && a == es.len() {
                            assert(egg_slot(es, e.id@, b));
                        }
                    }
                }
            },
        }
    }

    /// The egg with id `id`.
    pub fn get_egg(&self, id: &str) -> (r: Option<&Egg>)
        requires
            self.wf(),
        ensures
            !has_egg(self.eggs(), id@) ==> r.is_none(),
            forall|i: int| #[trigger] egg_slot(self.eggs(), id@, i) ==> r == Some(&self.eggs()[i]),
    {
        match self.find(id) {
            Some(i) => {
                assert forall|j: int| #[trigger] egg_slot(self.eggs(), id@, j) implies j == i by {}
                Some(&self.eggs[i])
            },
            None => None,
        }
    }

    /// Every egg, in catalogue order.
    pub fn list_eggs(&self) -> (r: Vec<&Egg>)
        ensures
            r@.len() == self.eggs().len(),
            forall|i: int| 0 <= i < r@.len() ==> *(#[trigger] r@[i]) == self.eggs()[i],
    {
        let mut out: Vec<&Egg> = Vec::new();
        let mut i: usize = 0;
        while i < self.eggs.len()
            invariant
                i <= self.eggs@.len(),
                out@.len() == i,
                forall|k: int| 0 <= k < i ==> *(#[trigger] out@[k]) == self.eggs@[k],
            decreases self.eggs@.len() - i,
        {
            out.push(&self.eggs[i]);
            i = i + 1;
        }
        out
    }

    /// The eggs of a category, compared without regard to case, in
    /// catalogue order.
    pub fn list_eggs_by_category(&self, category: &str) -> (r: Vec<&Egg>)
        ensures
            r@.len() == eggs_in(self.eggs(), category@).len(),
            forall|i: int| 0 <= i < r@.len() ==> *(#[trigger] r@[i]) == eggs_in(self.eggs(), category@)[i],
    {
        let wanted = to_lower(category);
        let ghost es = self.eggs@;
        let mut out: Vec<&Egg> = Vec::new();
        let mut i: usize = 0;
        while i < self.eggs.len()
            invariant
                es == self.eggs@,
                wanted@ == lower_of(category@),
                i <= es.len(),
                out@.len() == eggs_in(es.subrange(0, i as int), category@).len(),
                forall|k: int| 0 <= k < out@.len() ==> *(#[trigger] out@[k]) == eggs_in(es.subrange(0, i as int), category@)[k],
            decreases es.len() - i,
        {
            proof {
                assert(es.subrange(0, i + 1).drop_last() =~= es.subrange(0, i as int));
                assert(es.subrange(0, i + 1).last() == es[i as int]);
            }
            let kind = to_lower(self.eggs[i].category.as_str());
            if kind == wanted {
                out.push(&self.eggs[i]);
            }
            i = i + 1;
        }
        proof {
            assert(es.subrange(0, i as int) =~= es);
        }
        out
    }

    /// Removes a custom egg from the catalogue. Built-in eggs stay. Removing
    /// an id that is not there is no error.
    pub fn remove_custom_egg(&mut self, id: &str) -> (r: Result<(), String>)
        requires
            old(self).wf(),
        ensures
            final(self).wf(),
            final(self).dir() == old(self).dir(),
            !has_egg(old(self).eggs(), id@) ==> r is Ok && final(self).eggs() == old(self).eggs(),
            forall|i: int| #[trigger] egg_slot(old(self).eggs(), id@, i) ==> {
                if old(self).eggs()[i].author@ == builtin_author() {
                    r is Err && r->Err_0@ == "Cannot remove built-in eggs"@ && final(self).eggs() == old(self).eggs()
                } else {
                    r is Ok && final(self).eggs() == old(self).eggs().remove(i)
                }
            },
    {
        let i = match self.find(id) {
            Some(i) => i,
            None => return Ok(()),
        };
        assert forall|j: int| #[trigger] egg_slot(self.eggs(), id@, j) implies j == i by {}
        if self.eggs[i].author == "ServerMint".to_string() {
            return Err("Cannot remove built-in eggs".to_string());
        }
        let ghost es = self.eggs@;
        self.eggs.remove(i);
        proof {
            let t = self.eggs@;
            assert(t =~= es.remove(i as int));
            assert forall|a: int, b: int|
                0 <= a < t.len() && 0 <= b < t.len() && #[trigger] t[a].id@ == #[trigger] t[b].id@ implies a == b by {
                let a2 = if a < i { a } else { a + 1 };
                let b2 = if b < i { b } else { b + 1 };
                assert(t[a] == es[a2] && t[b] == es[b2]);
            }
        }
        Ok(())
    }
}


/// The placeholder an install script uses for the variable `key`.
pub open spec fn placeholder(key: Seq<char>) -> Seq<char> {
    "${"@ + key + "}"@
}

/// `script` with the placeholder of each pair of `env` replaced by its
/// value, the pairs taken in order.
pub open spec fn filled(script: Seq<char>, env: Seq<(String, String)>) -> Seq<char>
    decreases env.len(),
{
    if env.len() == 0 {
        script
    } else {
        replaced(filled(script, env.drop_last()), placeholder(env.last().0@), env.last().1@)
    }
}

pub open spec fn env_view(env: Seq<(String, String)>) -> Seq<(Seq<char>, Seq<char>)> {
    env.map_values(|p: (String, String)| (p.0@, p.1@))
}

/// The placeholder text `${key}`.
pub fn placeholder_for(key: &str) -> (r: String)
    ensures
        r@ == placeholder(key@),
{
    join3("${", key, "}")
}

/// Fills the placeholders `${KEY}` of an install script from `env`, the
/// pairs taken in order.
pub fn process_script_template(script: &str, env: &Vec<(String, String)>) -> (r: String)
    ensures
        r@ == filled(script@, env@),
{
    let mut out = script.to_string();
    let mut i: usize = 0;
    while i < env.len()
        invariant
            i <= env@.len(),
            out@ == filled(script@, env@.subrange(0, i as int)),
        decreases env@.len() - i,
    {
        proof {
            assert(env@.subrange(0, i + 1).drop_last() =~= env@.subrange(0, i as int));
            assert(env@.subrange(0, i + 1).last() == env@[i as int]);
        }
        let key = &env[i].0;
        let value = &env[i].1;
        let holder = placeholder_for(key.as_str());
        out = replace_all(out.as_str(), holder.as_str(), value.as_str());
        i = i + 1;
    }
    proof {
        assert(env@.subrange(0, i as int) =~= env@);
    }
    out
}

fn egg_variable(name: &str, description: &str, default_value: &str, env_variable: &str, rules: &str) -> (r: EggVariable)
    ensures
        r.name@ == name@,
        r.description@ == description@,
        r.default_value@ == default_value@,
        r.env_variable@ == env_variable@,
        r.rules@ == rules@,
        r.field_type@ == "text"@,
        r.is_viewable,
        !r.is_rules,
{
    EggVariable {
        name: name.to_string(),
        description: description.to_string(),
        default_value: default_value.to_string(),
        env_variable: env_variable.to_string(),
        rules: rules.to_string(),
        field_type: "text".to_string(),
        is_viewable: true,
        is_rules: false,
    }
}

/// `e` is the built-in egg `id`: shipped by the application, in `category`,
/// installed by `script`, with `vars` variables.
pub open spec fn is_builtin(e: Egg, id: Seq<char>, category: Seq<char>, script: Seq<char>, vars: nat) -> bool {
    &&& e.id@ == id
    &&& e.author@ == builtin_author()
    &&& e.category@ == category
    &&& e.script@ == script
    &&& e.variables@.len() == vars
}

/// The built-in egg `id` is in `s` as described.
pub open spec fn holds_builtin(s: Seq<Egg>, id: Seq<char>, category: Seq<char>, script: Seq<char>, vars: nat) -> bool {
    exists|i: int| #[trigger] egg_slot(s, id, i) && is_builtin(s[i], id, category, script, vars)
}

impl EggManager {
    /// Adds the eggs that ship with the application, given their install
    /// scripts: vanilla, Paper and Fabric Minecraft, and PocketMine-MP.
    pub fn load_builtin_eggs(&mut self, vanilla: String, paper: String, fabric: String, pocketmine: String)
        requires
            old(self).wf(),
        ensures
            final(self).wf(),
            holds_builtin(final(self).eggs(), "vanilla"@, "Minecraft"@, vanilla@, 4),
            holds_builtin(final(self).eggs(), "paper"@, "Minecraft"@, paper@, 2),
            holds_builtin(final(self).eggs(), "fabric"@, "Minecraft"@, fabric@, 2),
            holds_builtin(final(self).eggs(), "pocketmine"@, "Bedrock"@, pocketmine@, 1),
            old(self).eggs().len() == 0 ==> final(self).eggs().len() == 4,
            forall|k: int| 0 <= k < final(self).eggs().len() ==> #[trigger] final(self).eggs()[k].author@ == builtin_author()
                || exists|j: int| 0 <= j < old(self).eggs().len() && old(self).eggs()[j] == final(self).eggs()[k],
    {
        proof {
            reveal_strlit("vanilla");
            reveal_strlit("paper");
            reveal_strlit("fabric");
            reveal_strlit("pocketmine");
            assert("vanilla"@.len() == 7 && "paper"@.len() == 5 && "fabric"@.len() == 6 && "pocketmine"@.len() == 10);
            assert("paper"@ != "vanilla"@);
            assert("fabric"@ != "vanilla"@ && "fabric"@ != "paper"@);
            assert("pocketmine"@ != "vanilla"@ && "pocketmine"@ != "paper"@ && "pocketmine"@ != "fabric"@);
        }
        let java_start = "java -Xms${MIN_MEMORY}M -Xmx${MAX_MEMORY}M -jar server.jar nogui";
        let mut vanilla_egg = Egg::new(
            "vanilla".to_string(),
            "Vanilla Minecraft".to_string(),
            "Official Minecraft server jar".to_string(),
            "ServerMint".to_string(),
            "1.0.0".to_string(),
            "Minecraft".to_string(),
            vanilla,
            java_start.to_string(),
        );
        vanilla_egg.add_variable(egg_variable("Server Version", "Minecraft server version to install", "latest", "VANILLA_VERSION", "required|string"));
        vanilla_egg.add_variable(egg_variable("Server JAR File", "Name of the server jar file", "server.jar", "SERVER_JARFILE", "required|string"));
        vanilla_egg.add_variable(egg_variable("Minimum Memory", "Minimum memory allocation in MB", "512", "MIN_MEMORY", "required|numeric|min:256|max:32768"));
        vanilla_egg.add_variable(egg_variable("Maximum Memory", "Maximum memory allocation in MB", "1024", "MAX_MEMORY", "required|numeric|min:512|max:32768"));
        let ghost v = vanilla_egg;
        self.insert_egg(vanilla_egg);
        assert(holds_builtin(self.eggs(), "vanilla"@, "Minecraft"@, v.script@, 4)) by {
            let i = if has_egg(old(self).eggs(), "vanilla"@) {
                choose|i: int| egg_slot(old(self).eggs(), "vanilla"@, i)
            } else {
                old(self).eggs().len() as int
            };
            assert(egg_slot(self.eggs(), "vanilla"@, i));
        }

        let mut paper_egg = Egg::new(
            "paper".to_string(),
            "Paper Minecraft".to_string(),
            "High-performance Minecraft server with Spigot/Paper API".to_string(),
            "ServerMint".to_string(),
            "1.0.0".to_string(),
            "Minecraft".to_string(),
            paper,
            java_start.to_string(),
        );
        paper_egg.add_variable(egg_variable("Server Version", "Paper server version to install", "latest", "PAPER_VERSION", "required|string"));
        paper_egg.add_variable(egg_variable("Server JAR File", "Name of the server jar file", "server.jar", "SERVER_JARFILE", "required|string"));
        let ghost s1 = self.eggs();
        self.insert_egg(paper_egg);
        proof { lemma_insert_keeps(s1, self.eggs(), "paper"@, "vanilla"@, "Minecraft"@, v.script@, 4); }
        assert(holds_builtin(self.eggs(), "paper"@, "Minecraft"@, paper@, 2)) by {
            let i = if has_egg(s1, "paper"@) { choose|i: int| egg_slot(s1, "paper"@, i) } else { s1.len() as int };
            assert(egg_slot(self.eggs(), "paper"@, i));
        }

        let mut fabric_egg = Egg::new(
            "fabric".to_string(),
            "Fabric Minecraft".to_string(),
            "Lightweight modding platform for Minecraft".to_string(),
            "ServerMint".to_string(),
            "1.0.0".to_string(),
            "Minecraft".to_string(),
            fabric,
            java_start.to_string(),
        );
        fabric_egg.add_variable(egg_variable("Minecraft Version", "Minecraft version to use", "1.21.2", "MINECRAFT_VERSION", "required|string"));
        fabric_egg.add_variable(egg_variable("Fabric Loader Version", "Fabric loader version", "latest", "FABRIC_LOADER_VERSION", "required|string"));
        let ghost s2 = self.eggs();
        self.insert_egg(fabric_egg);
        proof {
            lemma_insert_keeps(s2, self.eggs(), "fabric"@, "vanilla"@, "Minecraft"@, v.script@, 4);
            lemma_insert_keeps(s2, self.eggs(), "fabric"@, "paper"@, "Minecraft"@, paper@, 2);
        }
        assert(holds_builtin(self.eggs(), "fabric"@, "Minecraft"@, fabric@, 2)) by {
            let i = if has_egg(s2, "fabric"@) { choose|i: int| egg_slot(s2, "fabric"@, i) } else { s2.len() as int };
            assert(egg_slot(self.eggs(), "fabric"@, i));
        }

        let mut pocketmine_egg = Egg::new(
            "pocketmine".to_string(),
            "PocketMine-MP".to_string(),
            "Bedrock server software for Minecraft PE/Bedrock".to_string(),
            "ServerMint".to_string(),
            "1.0.0".to_string(),
            "Bedrock".to_string(),
            pocketmine,
            "php PocketMine-MP.phar".to_string(),
        );
        pocketmine_egg.add_variable(egg_variable("PocketMine Version", "PocketMine-MP version to install", "latest", "POCKETMINE_VERSION", "required|string"));
        let ghost s3 = self.eggs();
        self.insert_egg(pocketmine_egg);
        proof {
            lemma_insert_keeps(s3, self.eggs(), "pocketmine"@, "vanilla"@, "Minecraft"@, v.script@, 4);
            lemma_insert_keeps(s3, self.eggs(), "pocketmine"@, "paper"@, "Minecraft"@, paper@, 2);
            lemma_insert_keeps(s3, self.eggs(), "pocketmine"@, "fabric"@, "Minecraft"@, fabric@, 2);
        }
        assert(holds_builtin(self.eggs(), "pocketmine"@, "Bedrock"@, pocketmine@, 1)) by {
            let i = if has_egg(s3, "pocketmine"@) { choose|i: int| egg_slot(s3, "pocketmine"@, i) } else { s3.len() as int };
            assert(egg_slot(self.eggs(), "pocketmine"@, i));
        }
    }
}

/// Inserting an egg under one id keeps a built-in egg under another.
proof fn lemma_insert_keeps(
    s: Seq<Egg>,
    t: Seq<Egg>,
    inserted: Seq<char>,
    id: Seq<char>,
    category: Seq<char>,
    script: Seq<char>,
    vars: nat,
)
    requires
        inserted != id,
        holds_builtin(s, id, category, script, vars),
        forall|i: int| #[trigger] egg_slot(s, inserted, i) ==> t == s.update(i, t[i]),
        !has_egg(s, inserted) ==> t == s.push(t.last()) && t.len() == s.len() + 1,
    ensures
        holds_builtin(t, id, category, script, vars),
{
    let j = choose|j: int| #[trigger] egg_slot(s, id, j) && is_builtin(s[j], id, category, script, vars);
    if has_egg(s, inserted) {
        let i = choose|i: int| egg_slot(s, inserted, i);
        assert(t == s.update(i, t[i]));
        assert(i != j);
        assert(t[j] == s[j]);
        assert(egg_slot(t, id, j));
    } else {
        assert(t[j] == s[j]);
        assert(egg_slot(t, id, j));
    }
}


/// The value of the first pair of `p` with key `key`.
pub open spec fn assoc_get(p: Seq<(Seq<char>, Seq<char>)>, key: Seq<char>) -> Option<Seq<char>>
    decreases p.len(),
{
    if p.len() == 0 {
        None
    } else if p[0].0 == key {
        Some(p[0].1)
    } else {
        assoc_get(p.drop_first(), key)
    }
}

/// `p` with the first pair of key `key` set to `value`, or the pair added at
/// the end when there is none.
pub open spec fn assoc_put(p: Seq<(Seq<char>, Seq<char>)>, key: Seq<char>, value: Seq<char>) -> Seq<(Seq<char>, Seq<char>)>
    decreases p.len(),
{
    if p.len() == 0 {
        seq![(key, value)]
    } else if p[0].0 == key {
        p.update(0, (key, value))
    } else {
        seq![p[0]] + assoc_put(p.drop_first(), key, value)
    }
}

/// The environment after the egg's variables are set: each variable's
/// chosen value (by variable name), or its default, under its environment
/// name, in the egg's order.
pub open spec fn with_variables(
    vars: Seq<EggVariable>,
    chosen: Seq<(Seq<char>, Seq<char>)>,
    base: Seq<(Seq<char>, Seq<char>)>,
) -> Seq<(Seq<char>, Seq<char>)>
    decreases vars.len(),
{
    if vars.len() == 0 {
        base
    } else {
        let v = vars.last();
        let value = match assoc_get(chosen, v.name@) {
            Some(x) => x,
            None => v.default_value@,
        };
        assoc_put(with_variables(vars.drop_last(), chosen, base), v.env_variable@, value)
    }
}

/// The environment an install script of `egg` runs with for `inst`.
pub open spec fn install_env(egg: Egg, inst: EggInstallation) -> Seq<(Seq<char>, Seq<char>)> {
    let vars = with_variables(egg.variables@, env_view(inst.variables@), env_view(inst.environment@));
    assoc_put(assoc_put(vars, "SERVER_PATH"@, inst.server_path@), "PWD"@, inst.server_path@)
}

proof fn lemma_get_first(p: Seq<(Seq<char>, Seq<char>)>, key: Seq<char>, i: int)
    requires
        0 <= i < p.len(),
        p[i].0 == key,
        forall|j: int| 0 <= j < i ==> p[j].0 != key,
    ensures
        assoc_get(p, key) == Some(p[i].1),
    decreases i,
{
    if i > 0 {
        lemma_get_first(p.drop_first(), key, i - 1);
    }
}

proof fn lemma_get_none(p: Seq<(Seq<char>, Seq<char>)>, key: Seq<char>)
    requires
        forall|j: int| 0 <= j < p.len() ==> p[j].0 != key,
    ensures
        assoc_get(p, key).is_none(),
    decreases p.len(),
{
    if p.len() > 0 {
        lemma_get_none(p.drop_first(), key);
    }
}

proof fn lemma_put_first(p: Seq<(Seq<char>, Seq<char>)>, key: Seq<char>, value: Seq<char>, i: int)
    requires
        0 <= i < p.len(),
        p[i].0 == key,
        forall|j: int| 0 <= j < i ==> p[j].0 != key,
    ensures
        assoc_put(p, key, value) == p.update(i, (key, value)),
    decreases i,
{
    if i > 0 {
        lemma_put_first(p.drop_first(), key, value, i - 1);
        assert(seq![p[0]] + p.drop_first().update(i - 1, (key, value)) =~= p.update(i, (key, value)));
    }
}

proof fn lemma_put_none(p: Seq<(Seq<char>, Seq<char>)>, key: Seq<char>, value: Seq<char>)
    requires
        forall|j: int| 0 <= j < p.len() ==> p[j].0 != key,
    ensures
        assoc_put(p, key, value) == p.push((key, value)),
    decreases p.len(),
{
    if p.len() > 0 {
        lemma_put_none(p.drop_first(), key, value);
        assert(seq![p[0]] + p.drop_first().push((key, value)) =~= p.push((key, value)));
    }
}

/// The value of the first pair with key `key`.
pub fn pairs_get(p: &Vec<(String, String)>, key: &str) -> (r: Option<String>)
    ensures
        match r {
            Some(v) => assoc_get(env_view(p@), key@) == Some(v@),
            None => assoc_get(env_view(p@), key@).is_none(),
        },
{
    let k = key.to_string();
    let ghost v = env_view(p@);
    let mut i: usize = 0;
    while i < p.len()
        invariant
            k@ == key@,
            v == env_view(p@),
            i <= p@.len(),
            forall|j: int| 0 <= j < i ==> v[j].0 != key@,
        decreases p@.len() - i,
    {
        if p[i].0 == k {
            proof { lemma_get_first(v, key@, i as int); }
            return Some(p[i].1.clone());
        }
        i = i + 1;
    }
    proof { lemma_get_none(v, key@); }
    None
}

/// Sets the first pair with key `key` to `value`, or adds the pair at the end.
pub fn pairs_put(p: &mut Vec<(String, String)>, key: &str, value: &str)
    ensures
        env_view(final(p)@) == assoc_put(env_view(old(p)@), key@, value@),
{
    let k = key.to_string();
    let ghost v = env_view(p@);
    let mut i: usize = 0;
    while i < p.len()
        invariant
            k@ == key@,
            v == env_view(old(p)@),
            p@ == old(p)@,
            i <= p@.len(),
            forall|j: int| 0 <= j < i ==> v[j].0 != key@,
        decreases p@.len() - i,
    {
        if p[i].0 == k {
            proof { lemma_put_first(v, key@, value@, i as int); }
            let pair = (k, value.to_string());
            p.set(i, pair);
            assert(env_view(p@) =~= v.update(i as int, (key@, value@)));
            return;
        }
        i = i + 1;
    }
    proof { lemma_put_none(v, key@, value@); }
    let pair = (k, value.to_string());
    p.push(pair);
    assert(env_view(p@) =~= v.push((key@, value@)));
}

impl EggManager {
    /// The environment the install script of `installation`'s egg runs with:
    /// the given environment, each egg variable set to its chosen value or
    /// its default, then `SERVER_PATH` and `PWD` set to the install path.
    pub fn installation_environment(&self, installation: &EggInstallation) -> (r: Result<Vec<(String, String)>, String>)
        requires
            self.wf(),
        ensures
            !has_egg(self.eggs(), installation.egg_id@) ==> r is Err
                && r->Err_0@ == "Egg "@ + installation.egg_id@ + " not found"@,
            forall|i: int| #[trigger] egg_slot(self.eggs(), installation.egg_id@, i)
                ==> r is Ok && env_view(r->Ok_0@) == install_env(self.eggs()[i], *installation),
    {
        let egg = match self.get_egg(installation.egg_id.as_str()) {
            Some(e) => e,
            None => return Err(join3("Egg ", installation.egg_id.as_str(), " not found")),
        };
        let mut env: Vec<(String, String)> = Vec::new();
        let mut k: usize = 0;
        while k < installation.environment.len()
            invariant
                k <= installation.environment@.len(),
                env_view(env@) == env_view(installation.environment@.subrange(0, k as int)),
            decreases installation.environment@.len() - k,
        {
            let pair = (installation.environment[k].0.clone(), installation.environment[k].1.clone());
            let ghost before = env@;
            env.push(pair);
            proof {
                assert(env_view(env@) =~= env_view(before).push((pair.0@, pair.1@)));
                assert(env_view(installation.environment@.subrange(0, k + 1)) =~= env_view(
                    installation.environment@.subrange(0, k as int),
                ).push((pair.0@, pair.1@)));
            }
            k = k + 1;
        }
        assert(installation.environment@.subrange(0, k as int) =~= installation.environment@);
        let ghost chosen = env_view(installation.variables@);
        let ghost base = env_view(installation.environment@);
        let mut n: usize = 0;
        while n < egg.variables.len()
            invariant
                n <= egg.variables@.len(),
                chosen == env_view(installation.variables@),
                env_view(env@) == with_variables(egg.variables@.subrange(0, n as int), chosen, base),
            decreases egg.variables@.len() - n,
        {
            let var = &egg.variables[n];
            let got = pairs_get(&installation.variables, var.name.as_str());
            let value = match &got {
                Some(v) => v.clone(),
                None => var.default_value.clone(),
            };
            assert(got.is_some() ==> assoc_get(chosen, var.name@) == Some(value@));
            assert(got.is_none() ==> assoc_get(chosen, var.name@).is_none() && value@ == var.default_value@);
            assert(value@ == (match assoc_get(chosen, var.name@) {
                Some(x) => x,
                None => var.default_value@,
            }));
            let ghost prev = env_view(env@);
            pairs_put(&mut env, var.env_variable.as_str(), value.as_str());
            proof {
                let sub = egg.variables@.subrange(0, n + 1);
                assert(sub.drop_last() =~= egg.variables@.subrange(0, n as int));
                assert(sub.last() == *var);
                assert(with_variables(sub, chosen, base) == assoc_put(prev, var.env_variable@, value@));
            }
            n = n + 1;
        }
        assert(egg.variables@.subrange(0, n as int) =~= egg.variables@);
        pairs_put(&mut env, "SERVER_PATH", installation.server_path.as_str());
        pairs_put(&mut env, "PWD", installation.server_path.as_str());
        Ok(env)
    }
}

} // verus!
