use servermint::egg::{process_script_template, Egg, EggManager, EggVariable};

fn catalogue() -> EggManager {
    let mut m = EggManager::new("/tmp/eggs".to_string());
    m.load_builtin_eggs("v.sh".to_string(), "p.sh".to_string(), "f.sh".to_string(), "pm.sh".to_string());
    m
}

#[test]
fn builtin_eggs_are_loaded() {
    let m = catalogue();
    assert_eq!(m.list_eggs().len(), 4);
    let v = m.get_egg("vanilla").unwrap();
    assert_eq!(v.variables.len(), 4);
    assert_eq!(v.script, "v.sh");
    assert_eq!(v.author, "ServerMint");
    assert_eq!(v.variables[2].env_variable, "MIN_MEMORY");
    assert_eq!(m.get_egg("pocketmine").unwrap().startup_command, "php PocketMine-MP.phar");
    assert!(m.get_egg("forge").is_none());
    assert_eq!(m.eggs_dir(), "/tmp/eggs");
}

#[test]
fn eggs_by_category_ignore_case() {
    let m = catalogue();
    let ids: Vec<String> = m.list_eggs_by_category("minecraft").iter().map(|e| e.id.clone()).collect();
    assert_eq!(ids, vec!["vanilla", "paper", "fabric"]);
    assert_eq!(m.list_eggs_by_category("BEDROCK").len(), 1);
    assert!(m.list_eggs_by_category("Other").is_empty());
}

#[test]
fn builtin_eggs_cannot_be_removed() {
    let mut m = catalogue();
    assert_eq!(m.remove_custom_egg("paper"), Err("Cannot remove built-in eggs".to_string()));
    let custom = Egg::new(
        "forge".to_string(),
        "Forge".to_string(),
        "Forge server".to_string(),
        "me".to_string(),
        "1.0".to_string(),
        "Minecraft".to_string(),
        "echo".to_string(),
        "java -jar forge.jar".to_string(),
    );
    m.insert_egg(custom);
    assert_eq!(m.list_eggs().len(), 5);
    assert_eq!(m.remove_custom_egg("forge"), Ok(()));
    assert_eq!(m.remove_custom_egg("forge"), Ok(()));
    assert_eq!(m.list_eggs().len(), 4);
}

#[test]
fn egg_builders() {
    let mut e = Egg::new(
        "x".to_string(),
        "X".to_string(),
        "d".to_string(),
        "a".to_string(),
        "1".to_string(),
        "c".to_string(),
        "s".to_string(),
        "run".to_string(),
    );
    assert!(e.variables.is_empty() && e.features.is_empty() && e.docker_image.is_none());
    e.add_feature("eula".to_string());
    assert_eq!(e.name, "X");
    assert_eq!(e.startup_command, "run");
    e.add_variable(EggVariable {
        name: "n".to_string(),
        description: "d".to_string(),
        default_value: "1".to_string(),
        env_variable: "N".to_string(),
        rules: "required".to_string(),
        field_type: "text".to_string(),
        is_viewable: true,
        is_rules: false,
    });
    e.set_docker_image("img".to_string());
    e.set_docker_startup("start".to_string());
    assert_eq!(e.features, vec!["eula"]);
    assert_eq!(e.variables.len(), 1);
    assert_eq!(e.docker_image, Some("img".to_string()));
    assert_eq!(e.docker_startup, Some("start".to_string()));
}

#[test]
fn script_placeholders_are_filled_in_order() {
    let env = vec![
        ("VERSION".to_string(), "1.20.1".to_string()),
        ("DIR".to_string(), "/srv/${VERSION}".to_string()),
    ];
    let out = process_script_template("cd ${DIR} && get ${VERSION} ${MISSING}", &env);
    assert_eq!(out, "cd /srv/${VERSION} && get 1.20.1 ${MISSING}");
    assert_eq!(process_script_template("plain", &Vec::new()), "plain");
}

#[test]
fn placeholder_text() {
    assert_eq!(servermint::egg::placeholder_for("MIN_MEMORY"), "${MIN_MEMORY}");
}

#[test]
fn installation_environment_layers_values() {
    let m = catalogue();
    let inst = servermint::egg::EggInstallation {
        egg_id: "vanilla".to_string(),
        server_path: "/srv/v".to_string(),
        variables: vec![("Minimum Memory".to_string(), "768".to_string())],
        environment: vec![("PWD".to_string(), "/old".to_string()), ("EULA".to_string(), "true".to_string())],
    };
    let env = m.installation_environment(&inst).unwrap();
    let expected: Vec<(String, String)> = vec![
        ("PWD", "/srv/v"),
        ("EULA", "true"),
        ("VANILLA_VERSION", "latest"),
        ("SERVER_JARFILE", "server.jar"),
        ("MIN_MEMORY", "768"),
        ("MAX_MEMORY", "1024"),
        ("SERVER_PATH", "/srv/v"),
    ]
    .into_iter()
    .map(|(k, v)| (k.to_string(), v.to_string()))
    .collect();
    assert_eq!(env, expected);
    let missing = servermint::egg::EggInstallation { egg_id: "nope".to_string(), ..inst };
    assert_eq!(m.installation_environment(&missing), Err("Egg nope not found".to_string()));
}
